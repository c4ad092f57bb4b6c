use vstd::prelude::*;

verus! {

/// The closed set of HTTP methods the router recognises. The router owns
/// exactly one route table per variant, so dispatch over a method is total
/// and no table can ever be missing.
#[derive(Clone, Copy, Debug, PartialEq, Eq, Hash, Structural)]
pub enum HttpMethod {
    GET,
    POST,
    PUT,
    DELETE,
    PATCH,
    HEAD,
    OPTIONS,
    CONNECT,
    TRACE,
}

} // verus!
