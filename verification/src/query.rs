//! One query to the provider: the request that is sent, and what the reply
//! to it amounts to.

use crate::record::{matches_view, GeoData, GeoMatch};
use vstd::prelude::*;

verus! {

/// What one query gives the resolver: the matches, or why there are none to
/// look at.
pub type Outcome = Result<Vec<GeoData>, String>;

/// An `Outcome` as mathematical values.
pub type Answer = Result<Seq<GeoMatch>, Seq<char>>;

/// The `Answer` that an `Outcome` stands for.
pub open spec fn outcome_view(outcome: Outcome) -> Answer {
    match outcome {
        Ok(matches) => Ok(matches_view(matches@)),
        Err(message) => Err(message@),
    }
}

/// What happened to one request on its way to the provider and back.
#[derive(Debug, PartialEq, Eq)]
pub enum Reply {
    /// The provider was not reached; the text describes the failure.
    TransportFailed(String),
    /// A response arrived, but reading its body failed; the text says how.
    BodyUnreadable(String),
    /// The body of the response, and what decoding it as a JSON array of
    /// locations gave: the matches, or a description of the decoding error.
    Body { text: String, decoded: Outcome },
}

/// The URL of the request for `address`: the search endpoint with the address
/// and the API key as its query parameters, both exactly as they were given.
pub open spec fn request_url_for(api_key: Seq<char>, address: Seq<char>) -> Seq<char> {
    "https://geocode.maps.co/search?q="@ + address + "&api_key="@ + api_key
}

/// What a reply to the query for `address` amounts to.
///
/// A failure on the way is an error, and so is a body of no characters, which
/// is told apart from a body that lists no matches. A body that did not decode
/// is an error that quotes the body. Anything else is the decoded matches.
pub open spec fn interpreted(address: Seq<char>, reply: Reply) -> Answer {
    match reply {
        Reply::TransportFailed(detail) => Err("Error in lat/lon query: "@ + detail@),
        Reply::BodyUnreadable(detail) => Err("Error in query: "@ + detail@),
        Reply::Body { text, decoded } => if text@.len() == 0 {
            Err("Empty response for address "@ + address)
        } else {
            match decoded {
                Ok(matches) => Ok(matches_view(matches@)),
                Err(detail) => Err(
                    "Error decoding JSON for "@ + address + ": "@ + detail@
                        + "\n...from response: "@ + text@,
                ),
            }
        },
    }
}

/// Builds the URL of the request that asks the provider about `address`.
pub fn request_url(api_key: &str, address: &str) -> (url: String)
    ensures
        url@ == request_url_for(api_key@, address@),
{
    let mut url = String::from_str("https://geocode.maps.co/search?q=");
    url.append(address);
    url.append("&api_key=");
    url.append(api_key);
    url
}

/// Turns the reply to the query for `address` into the outcome of that query.
pub fn interpret(address: &str, reply: Reply) -> (outcome: Outcome)
    ensures
        outcome_view(outcome) == interpreted(address@, reply),
{
    match reply {
        Reply::TransportFailed(detail) => {
            let mut message = String::from_str("Error in lat/lon query: ");
            message.append(detail.as_str());
            Err(message)
        },
        Reply::BodyUnreadable(detail) => {
            let mut message = String::from_str("Error in query: ");
            message.append(detail.as_str());
            Err(message)
        },
        Reply::Body { text, decoded } => {
            if text.as_str().is_empty() {
                let mut message = String::from_str("Empty response for address ");
                message.append(address);
                Err(message)
            } else {
                match decoded {
                    Ok(matches) => Ok(matches),
                    Err(detail) => {
                        let mut message = String::from_str("Error decoding JSON for ");
                        message.append(address);
                        message.append(": ");
                        message.append(detail.as_str());
                        message.append("\n...from response: ");
                        message.append(text.as_str());
                        Err(message)
                    },
                }
            }
        },
    }
}

} // verus!
