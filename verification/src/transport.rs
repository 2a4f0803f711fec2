//! What the library reads from a request of the HTTP transport.
//!
//! The head of a request is carried through as it came. The two functions
//! here read the method and the path from it, and each result has a name,
//! so that contracts can say which request gets which answer. Everything
//! that is decided from the two is decided, and proved, elsewhere.
use vstd::prelude::*;
use crate::method::Method;

verus! {

/// `http::request::Parts`, the head of an HTTP request as hyper hands it
/// on. Nothing is known of it here but that it is a value.
#[verifier::external_type_specification]
#[verifier::external_body]
pub struct ExParts(hyper::http::request::Parts);

/// The method that a request's head holds. The head is opaque here, so
/// the method is known by this name only: it depends on the head and on
/// nothing else.
pub uninterp spec fn head_method(head: hyper::http::request::Parts) -> Method;

/// The path that a request's head holds. The head is opaque here, so the
/// path is known by this name only: it depends on the head and on nothing
/// else.
pub uninterp spec fn head_path(head: hyper::http::request::Parts) -> Seq<char>;

/// The method in the head of a request.
///
/// Reads the field `method` of `http::request::Parts` and tells the nine
/// standard values of `http::Method` apart; any other value gives an
/// extension with the token that `Method::as_str` hands out.
/// The contract gives the result its name and claims nothing else of it.
#[verifier::external_body]
pub(crate) fn method_of(head: &hyper::http::request::Parts) -> (m: Method)
    ensures
        m == head_method(*head),
{
    match head.method {
        hyper::Method::OPTIONS => Method::OPTIONS,
        hyper::Method::GET => Method::GET,
        hyper::Method::POST => Method::POST,
        hyper::Method::PUT => Method::PUT,
        hyper::Method::DELETE => Method::DELETE,
        hyper::Method::HEAD => Method::HEAD,
        hyper::Method::TRACE => Method::TRACE,
        hyper::Method::CONNECT => Method::CONNECT,
        hyper::Method::PATCH => Method::PATCH,
        _ => Method::Extension(String::from(head.method.as_str())),
    }
}

/// The path in the head of a request.
///
/// Calls `Uri::path` on the field `uri` of `http::request::Parts`, which
/// hands out the path component of the request's target, and copies it.
/// The contract gives the result its name and claims nothing else of it.
#[verifier::external_body]
pub(crate) fn path_of(head: &hyper::http::request::Parts) -> (p: String)
    ensures
        p@ == head_path(*head),
{
    String::from(head.uri.path())
}

} // verus!
