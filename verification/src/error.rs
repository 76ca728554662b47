use vstd::prelude::*;

verus! {

/// Errors surfaced to users of a node.
#[derive(Debug)]
pub enum Error {
    GenServerErr,
    NoRegistry(Vec<u8>, String),
    BroadcastFailed,
    BroadcastSend(Vec<u8>),
    UnexpectedResponse,
    Timeout,
}

} // verus!
