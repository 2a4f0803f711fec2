//! The responses that the dispatcher itself gives.
use vstd::prelude::*;

verus! {

/// The status of a response to a request that was served.
pub const STATUS_OK: u16 = 200;

/// The status of the response to a path that has no route.
pub const STATUS_NOT_FOUND: u16 = 404;

/// The status of the response to a method that the path does not serve.
pub const STATUS_METHOD_NOT_ALLOWED: u16 = 405;

/// A response of the dispatcher: a status with an empty body.
#[derive(Clone, Copy, Debug, PartialEq, Eq, Structural)]
pub struct Response {
    pub status: u16,
}

impl Response {
    /// The fixed response to a path that has no route.
    pub fn not_found() -> (res: Self)
        ensures
            res.status == STATUS_NOT_FOUND,
    {
        Response { status: STATUS_NOT_FOUND }
    }

    /// The fixed response to a method that the path does not serve.
    pub fn method_not_allowed() -> (res: Self)
        ensures
            res.status == STATUS_METHOD_NOT_ALLOWED,
    {
        Response { status: STATUS_METHOD_NOT_ALLOWED }
    }

    /// The status of the response.
    pub fn status(&self) -> (status: u16)
        ensures
            status == self.status,
    {
        self.status
    }
}

impl Default for Response {
    fn default() -> (res: Self)
        ensures
            res.status == STATUS_OK,
    {
        Response { status: STATUS_OK }
    }
}

} // verus!
