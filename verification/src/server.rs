//! The server: registration while it is being built, dispatch once it serves.
use vstd::prelude::*;
use crate::method::Method;
use crate::middleware::Next;
use crate::path::spec_segments;
use crate::request::Request;
use crate::response::{Response, STATUS_METHOD_NOT_ALLOWED, STATUS_NOT_FOUND};
use crate::router::{entry, spec_find, Route, RouteResult, Router};
use crate::transport::{head_method, head_path, method_of, path_of};
use crate::trie::Trie;

verus! {

/// A registration that came too late.
#[derive(Clone, Copy, Debug, PartialEq, Eq, Structural)]
pub enum ConfigError {
    /// The server has started serving: its routes and middleware are frozen.
    Frozen,
}

impl ConfigError {
    /// The error in words.
    pub fn message(&self) -> (msg: &'static str)
        ensures
            msg@ == "cannot register after binding to listener"@,
    {
        match self {
            ConfigError::Frozen => "cannot register after binding to listener",
        }
    }
}

/// What the dispatcher decided for one request.
pub enum Dispatch<'a, M, H, B> {
    /// A route serves the request: run the chain on the request view.
    Run(Next<'a, M, H>, Request<B>),
    /// No route serves it: give this response; nothing else runs.
    Respond(Response),
}

/// A server: the middleware in registration order, the router, and
/// whether it has started serving.
///
/// A server is built first and serves afterwards. `freeze` is the one
/// transition, and there is no way back: once it serves, every
/// registration is refused and leaves the server as it was.
pub struct Server<M, H> {
    middleware: Vec<M>,
    router: Router<H>,
    serving: bool,
}

impl<M, H> Server<M, H> {
    /// The middleware, in registration order.
    pub closed spec fn chain(&self) -> Seq<M> {
        self.middleware@
    }

    /// The routes.
    pub closed spec fn routes(&self) -> Trie<Route<H>> {
        self.router@
    }

    /// Whether the server has started serving.
    pub closed spec fn serving(&self) -> bool {
        self.serving
    }

    /// Creates a new server with no middleware and no route.
    pub fn new() -> (server: Self)
        ensures
            server.chain() == Seq::<M>::empty(),
            server.routes() == Trie::<Route<H>>::leaf("/"@),
            server.routes().well_formed(),
            !server.serving(),
    {
        Server { middleware: Vec::new(), router: Router::new(), serving: false }
    }

    /// Whether the server has started serving.
    pub fn is_serving(&self) -> (r: bool)
        ensures
            r == self.serving(),
    {
        self.serving
    }

    /// The middleware, in registration order.
    pub fn middleware(&self) -> (r: &Vec<M>)
        ensures
            r@ == self.chain(),
    {
        &self.middleware
    }

    /// The router.
    pub fn router(&self) -> (r: &Router<H>)
        ensures
            r@ == self.routes(),
    {
        &self.router
    }

    /// Mounts a middleware after those mounted so far. Refused once the
    /// server serves.
    pub fn mount(&mut self, mid: M) -> (r: Result<(), ConfigError>)
        ensures
            old(self).serving() ==> r == Err::<(), ConfigError>(ConfigError::Frozen) && *final(self)
                == *old(self),
            !old(self).serving() ==> r is Ok && final(self).chain() == old(self).chain().push(mid)
                && final(self).routes() == old(self).routes() && !final(self).serving(),
    {
        if self.serving {
            return Err(ConfigError::Frozen);
        }
        self.middleware.push(mid);
        Ok(())
    }

    /// Returns the route that is registered on exactly `path`, for
    /// writing, after registering an empty one where there was none.
    /// Refused once the server serves.
    pub fn at(&mut self, path: &str) -> (r: Result<&mut Route<H>, ConfigError>)
        ensures
            match r {
                Ok(route) => {
                    &&& !old(self).serving()
                    &&& *route == entry(old(self).routes(), spec_segments(path@))
                    &&& final(self).routes() == old(self).routes().insert(
                        spec_segments(path@),
                        *final(route),
                    )
                    &&& final(self).chain() == old(self).chain()
                    &&& !final(self).serving()
                    &&& old(self).routes().well_formed() ==> final(self).routes().well_formed()
                },
                Err(e) => old(self).serving() && e == ConfigError::Frozen && *final(self) == *old(
                    self,
                ),
            },
    {
        if self.serving {
            return Err(ConfigError::Frozen);
        }
        Ok(self.router.at(path))
    }

    /// Routes a path on the router to an existing router. Refused once the
    /// server serves.
    pub fn route(&mut self, path: &str, router: Router<H>) -> (r: Result<(), ConfigError>)
        ensures
            old(self).serving() ==> r == Err::<(), ConfigError>(ConfigError::Frozen) && *final(self)
                == *old(self),
            !old(self).serving() ==> r is Ok && final(self).routes() == old(self).routes().mount(
                spec_segments(path@),
                router@,
            ) && final(self).chain() == old(self).chain() && !final(self).serving(),
            old(self).routes().well_formed() && router@.well_formed()
                ==> final(self).routes().well_formed(),
    {
        if self.serving {
            return Err(ConfigError::Frozen);
        }
        self.router.route(path, router);
        Ok(())
    }

    /// Starts serving: the routes and the middleware stay as they are from
    /// here on.
    pub fn freeze(&mut self)
        ensures
            final(self).serving(),
            final(self).chain() == old(self).chain(),
            final(self).routes() == old(self).routes(),
    {
        self.serving = true;
    }

    /// Decides what to do with one request: where a route serves its path
    /// and method, the chain to run and the request view that carries the
    /// path parameters; else the fixed response for the miss.
    pub fn dispatch<B>(&self, raw: B, method: Method, path: String) -> (d: Dispatch<'_, M, H, B>)
        ensures
            match spec_find(self.routes(), spec_segments(path@), method) {
                RouteResult::NotFound => d matches Dispatch::Respond(res) && res.status
                    == STATUS_NOT_FOUND,
                RouteResult::MethodNotAllowed => d matches Dispatch::Respond(res) && res.status
                    == STATUS_METHOD_NOT_ALLOWED,
                RouteResult::Found((h, caps)) => {
                    &&& d matches Dispatch::Run(next, req)
                    &&& *next.handler == h
                    &&& next.middleware@ == self.chain()
                    &&& next.cursor == 0
                    &&& req.raw == raw
                    &&& req.method == method
                    &&& req.path == path
                    &&& req.params@ == caps
                },
            },
    {
        match self.router.find(path.as_str(), method.copied()) {
            RouteResult::Found((handler, params)) => Dispatch::Run(
                Next::new(&self.middleware, handler),
                Request::new(raw, method, path, params),
            ),
            RouteResult::NotFound => Dispatch::Respond(Response::not_found()),
            RouteResult::MethodNotAllowed => Dispatch::Respond(Response::method_not_allowed()),
        }
    }

    /// Decides what to do with one request of the HTTP transport, given as
    /// its head and its body: reads the method and the path from the head
    /// and dispatches on them. Where a route serves them, the chain is to
    /// be run with the request itself and the parameters that its path
    /// binds; a path without a route gets the one fixed response and a
    /// method that the path does not serve the other, and nothing runs.
    pub fn call<B>(&self, head: hyper::http::request::Parts, body: B) -> (d: Dispatch<
        '_,
        M,
        H,
        (hyper::http::request::Parts, B),
    >)
        ensures
            match spec_find(self.routes(), spec_segments(head_path(head)), head_method(head)) {
                RouteResult::NotFound => d matches Dispatch::Respond(res) && res.status
                    == STATUS_NOT_FOUND,
                RouteResult::MethodNotAllowed => d matches Dispatch::Respond(res) && res.status
                    == STATUS_METHOD_NOT_ALLOWED,
                RouteResult::Found((h, caps)) => {
                    &&& d matches Dispatch::Run(next, req)
                    &&& *next.handler == h
                    &&& next.middleware@ == self.chain()
                    &&& next.cursor == 0
                    &&& req.raw == (head, body)
                    &&& req.method == head_method(head)
                    &&& req.path@ == head_path(head)
                    &&& req.params@ == caps
                },
            },
    {
        let method = method_of(&head);
        let path = path_of(&head);
        self.dispatch((head, body), method, path)
    }
}

} // verus!
