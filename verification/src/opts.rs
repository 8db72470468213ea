//! The command-line options, and the API key that they lead to.

use crate::whitespace::{trim, trimmed};
use vstd::prelude::*;

verus! {

/// The options of the command line.
#[derive(Clone, Debug, PartialEq, Eq)]
pub struct Opts {
    /// Name of file holding the geocode.maps.co api key
    pub api_key_file: String,
}

/// The API key that a key file holds: its contents without the whitespace
/// around them.
pub fn api_key_from(contents: &str) -> (key: String)
    ensures
        key@ == trimmed(contents@),
{
    trim(contents)
}

} // verus!
