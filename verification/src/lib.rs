//! Batch geocoding of free-text postal addresses: the decisions of the
//! address resolver, kept apart from the network and the output stream.

pub mod address;
pub mod opts;
pub mod query;
pub mod record;
pub mod resolver;
pub mod run;
pub mod whitespace;
