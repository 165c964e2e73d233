//! A minimal, verified HTTP/1.1 server core: a request parser, a response
//! serializer, and a concurrency-safe routing table, all specified down to
//! the exact wire bytes.  Socket handling lives outside this crate; the
//! library works on plain byte slices and vectors.
use vstd::prelude::*;

pub mod wire;
pub mod request;
pub mod response;
pub mod server;
pub mod handlers;

verus! {

#[derive(Eq, PartialEq, Hash, Debug, Copy, Clone, Structural)]
pub enum RequestMethod {
    GET,
    POST,
    Unidentified,
}

/// The method named by a preamble token: unrecognized verbs are preserved
/// as a distinct variant, never rejected.
pub open spec fn spec_method_of(t: Seq<u8>) -> RequestMethod {
    if t == crate::wire::get_token() {
        RequestMethod::GET
    } else if t == crate::wire::post_token() {
        RequestMethod::POST
    } else {
        RequestMethod::Unidentified
    }
}

pub fn method_of_token(t: &[u8]) -> (m: RequestMethod)
    ensures
        m == spec_method_of(t@),
{
    if crate::wire::bytes_eq(t, "GET".as_bytes()) {
        RequestMethod::GET
    } else if crate::wire::bytes_eq(t, "POST".as_bytes()) {
        RequestMethod::POST
    } else {
        RequestMethod::Unidentified
    }
}

} // verus!
