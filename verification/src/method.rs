//! The request method, as the route table keys it.
use vstd::prelude::*;

verus! {

/// An HTTP request method.
///
/// The nine standard methods each have a variant. Any other method is an
/// `Extension` with its token, and two extensions are the same method
/// when their tokens are the same text. An extension whose token is the
/// name of a standard method is not that standard method; the transport
/// never makes one.
#[allow(non_camel_case_types)]
#[derive(Clone, Debug, PartialEq, Eq, Hash)]
pub enum Method {
    OPTIONS,
    GET,
    POST,
    PUT,
    DELETE,
    HEAD,
    TRACE,
    CONNECT,
    PATCH,
    Extension(String),
}

impl View for Method {
    type V = (int, Seq<char>);

    /// The method as a number and a token: the variant's place, and the
    /// text of an extension's token. Two methods are the same method when
    /// their views are equal.
    open spec fn view(&self) -> (int, Seq<char>) {
        match self {
            Method::OPTIONS => (0, Seq::empty()),
            Method::GET => (1, Seq::empty()),
            Method::POST => (2, Seq::empty()),
            Method::PUT => (3, Seq::empty()),
            Method::DELETE => (4, Seq::empty()),
            Method::HEAD => (5, Seq::empty()),
            Method::TRACE => (6, Seq::empty()),
            Method::CONNECT => (7, Seq::empty()),
            Method::PATCH => (8, Seq::empty()),
            Method::Extension(token) => (9, token@),
        }
    }
}

impl Method {
    /// A second value of the same method.
    pub fn copied(&self) -> (m: Method)
        ensures
            m == *self,
    {
        match self {
            Method::OPTIONS => Method::OPTIONS,
            Method::GET => Method::GET,
            Method::POST => Method::POST,
            Method::PUT => Method::PUT,
            Method::DELETE => Method::DELETE,
            Method::HEAD => Method::HEAD,
            Method::TRACE => Method::TRACE,
            Method::CONNECT => Method::CONNECT,
            Method::PATCH => Method::PATCH,
            Method::Extension(token) => Method::Extension(token.clone()),
        }
    }
}

} // verus!
