//! Request routing and middleware composition for an HTTP server.
//!
//! A [`Router`] keeps one route per path in a tree keyed by path segments; a
//! [`Server`] adds an ordered middleware chain and decides, request by
//! request, what runs. The transport around it turns bytes into requests
//! and runs the handlers.
use vstd::prelude::*;

pub mod func;
pub mod method;
pub mod middleware;
pub mod node;
pub mod params;
pub mod path;
pub mod request;
pub mod response;
pub mod router;
pub mod server;
pub mod transport;
pub mod trie;

pub use method::Method;
pub use middleware::{Next, Step};
pub use node::Node;
pub use params::Params;
pub use request::Request;
pub use response::Response;
pub use router::{Route, RouteResult, Router};
pub use server::{ConfigError, Dispatch, Server};

verus! {

/// Creates a new server with no middleware and no route.
pub fn new<M, H>() -> (server: Server<M, H>)
    ensures
        server.chain() == Seq::<M>::empty(),
        server.routes() == trie::Trie::<Route<H>>::leaf("/"@),
        server.routes().well_formed(),
        !server.serving(),
{
    Server::new()
}

/// Creates a new router with no route.
pub fn router<H>() -> (router: Router<H>)
    ensures
        router@ == trie::Trie::<Route<H>>::leaf("/"@),
        router@.well_formed(),
{
    Router::new()
}

} // verus!
