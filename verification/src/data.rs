//! What is read from the key-value store, and where the store is found.

use crate::types::StreamState;
use vstd::prelude::*;
use vstd::string::*;

verus! {

/// The state that the stored status number stands for; `Error` where none
/// could be read.
pub fn status(stored: Option<u128>) -> (r: StreamState)
    ensures
        r == StreamState::spec_from_code(stored),
{
    StreamState::from_code(stored)
}

/// Whether the wait for a running stream is over.
pub fn wstatus(stored: Option<u128>) -> (r: bool)
    ensures
        r == (stored == Some(4u128)),
{
    match status(stored) {
        StreamState::Running => true,
        _ => false,
    }
}

/// The address of the store: that of the configured host, or of the local
/// one where none is configured.
pub fn endpoint(host: Option<String>) -> (r: String)
    ensures
        r@ == "redis://"@ + match host {
            Some(h) => h@,
            None => "127.0.0.1:7777"@,
        },
{
    match host {
        Some(h) => String::from_str("redis://").concat(h.as_str()),
        None => String::from_str("redis://").concat("127.0.0.1:7777"),
    }
}

} // verus!
