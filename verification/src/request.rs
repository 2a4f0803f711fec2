//! The view of a request that handlers and middleware get.
use vstd::prelude::*;
use crate::method::Method;
use crate::params::{spec_param, Params};
use crate::trie::Capture;

verus! {

/// A request as the transport delivered it, `raw`, beside what routing
/// reads and adds: the method, the path and the path parameters.
pub struct Request<B> {
    pub raw: B,
    pub method: Method,
    pub path: String,
    pub params: Params,
}

impl<B> Request<B> {
    /// Creates the view of a request.
    pub fn new(raw: B, method: Method, path: String, params: Params) -> (req: Self)
        ensures
            req.raw == raw,
            req.method == method,
            req.path == path,
            req.params == params,
    {
        Request { raw, method, path, params }
    }

    /// The request method.
    pub fn method(&self) -> (method: &Method)
        ensures
            *method == self.method,
    {
        &self.method
    }

    /// The request path.
    pub fn path(&self) -> (path: &str)
        ensures
            path@ == self.path@,
    {
        self.path.as_str()
    }

    /// The segment that the path bound to the wildcard `key`, if any.
    pub fn param(&self, key: &str) -> (r: Option<&String>)
        ensures
            match r {
                Some(v) => spec_param(self.params@, key@) == Some(v@),
                None => spec_param(self.params@, key@) is None,
            },
    {
        self.params.get(key)
    }

    /// The bindings of the path parameters, in path order.
    pub open spec fn captures(&self) -> Seq<Capture> {
        self.params@
    }

    /// Gives back the request as the transport delivered it.
    pub fn into_raw(self) -> (raw: B)
        ensures
            raw == self.raw,
    {
        self.raw
    }
}

} // verus!
