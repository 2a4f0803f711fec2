//! Routes, the router that owns them, and the classified result of a lookup.
use vstd::prelude::*;
use crate::method::Method;
use crate::node::Node;
use crate::params::Params;
use crate::path::{lemma_segments_concat, spec_segments};
use crate::trie::{
    lemma_insert_frame, lemma_insert_get, lemma_insert_overwrites, lemma_insert_registered,
    lemma_insert_well_formed, lemma_literal_from, lemma_mount_captures, lemma_mount_frame,
    lemma_mount_get, lemma_mount_well_formed, lemma_put_is_insert, lemma_registered_get,
    lemma_single_route, literal_path, pattern_bindings, pattern_matches, Capture, Trie,
};

verus! {

/// The classified outcome of a route lookup.
pub enum RouteResult<T> {
    /// No route is registered on the path.
    NotFound,
    /// A route is registered on the path, but not for the method.
    MethodNotAllowed,
    /// The route that serves the path and method.
    Found(T),
}

impl<T> RouteResult<T> {
    /// Whether a route was found.
    pub fn is_found(&self) -> (r: bool)
        ensures
            r == (self is Found),
    {
        match self {
            RouteResult::Found(_) => true,
            _ => false,
        }
    }

    /// Whether the path exists but does not serve the method.
    pub fn is_not_allowed(&self) -> (r: bool)
        ensures
            r == (self is MethodNotAllowed),
    {
        match self {
            RouteResult::MethodNotAllowed => true,
            _ => false,
        }
    }
}

/// The handlers of the extension methods of one path, keyed by token:
/// a list in which no token stands twice once it is built by `put`.
pub enum Table<H> {
    Nil,
    Cons(String, H, Box<Table<H>>),
}

impl<H> Table<H> {
    /// The handler under `token`: that of the first entry with this text.
    pub open spec fn get(self, token: Seq<char>) -> Option<H>
        decreases self,
    {
        match self {
            Table::Nil => None,
            Table::Cons(k, v, rest) => if k@ == token {
                Some(v)
            } else {
                rest.get(token)
            },
        }
    }

    /// The table after `handler` was put under `token`: in place of the
    /// handler of the first entry with this text, or in a new entry at the
    /// end.
    pub open spec fn put(self, token: String, handler: H) -> Table<H>
        decreases self,
    {
        match self {
            Table::Nil => Table::Cons(token, handler, Box::new(Table::Nil)),
            Table::Cons(k, v, rest) => if k@ == token@ {
                Table::Cons(k, handler, rest)
            } else {
                Table::Cons(k, v, Box::new(rest.put(token, handler)))
            },
        }
    }

    /// Puts `handler` under `token`.
    pub fn insert(self, token: String, handler: H) -> (table: Self)
        ensures
            table == self.put(token, handler),
        decreases self,
    {
        match self {
            Table::Nil => Table::Cons(token, handler, Box::new(Table::Nil)),
            Table::Cons(k, v, rest) => if k == token {
                Table::Cons(k, handler, rest)
            } else {
                Table::Cons(k, v, Box::new((*rest).insert(token, handler)))
            },
        }
    }

    /// The handler under `token`, if any.
    pub fn lookup(&self, token: &String) -> (r: Option<&H>)
        ensures
            match r {
                Some(h) => self.get(token@) == Some(*h),
                None => self.get(token@) is None,
            },
        decreases self,
    {
        match self {
            Table::Nil => None,
            Table::Cons(k, v, rest) => if *k == *token {
                Some(v)
            } else {
                rest.lookup(token)
            },
        }
    }

    /// A handler that was put under a token is found under it, and every
    /// other token finds what it found before.
    pub proof fn lemma_put_get(self, token: String, handler: H, asked: Seq<char>)
        ensures
            self.put(token, handler).get(token@) == Some(handler),
            asked != token@ ==> self.put(token, handler).get(asked) == self.get(asked),
        decreases self,
    {
        match self {
            Table::Nil => {},
            Table::Cons(k, v, rest) => {
                rest.lemma_put_get(token, handler, asked);
            },
        }
    }
}

/// The handlers of one path: one slot for each standard method, a table
/// for the extension methods, and a catch-all that serves every method.
///
/// A catch-all, once set, wins at lookup whatever the slots hold and
/// whenever they were filled. Setting it empties the slots; filling a slot
/// later leaves it in place.
pub struct Route<H> {
    pub options: Option<H>,
    pub get: Option<H>,
    pub post: Option<H>,
    pub put: Option<H>,
    pub delete: Option<H>,
    pub head: Option<H>,
    pub trace: Option<H>,
    pub connect: Option<H>,
    pub patch: Option<H>,
    pub extensions: Table<H>,
    pub all: Option<H>,
}

impl<H> Route<H> {
    /// The route with no handler at all.
    pub open spec fn empty() -> Route<H> {
        Route {
            options: None,
            get: None,
            post: None,
            put: None,
            delete: None,
            head: None,
            trace: None,
            connect: None,
            patch: None,
            extensions: Table::Nil,
            all: None,
        }
    }

    /// The handler in the slot of `method`.
    pub open spec fn slot(self, method: Method) -> Option<H> {
        match method {
            Method::OPTIONS => self.options,
            Method::GET => self.get,
            Method::POST => self.post,
            Method::PUT => self.put,
            Method::DELETE => self.delete,
            Method::HEAD => self.head,
            Method::TRACE => self.trace,
            Method::CONNECT => self.connect,
            Method::PATCH => self.patch,
            Method::Extension(token) => self.extensions.get(token@),
        }
    }

    /// The route after `handler` was put in the slot of `method`.
    pub open spec fn with_method(self, method: Method, handler: H) -> Route<H> {
        match method {
            Method::OPTIONS => Route { options: Some(handler), ..self },
            Method::GET => Route { get: Some(handler), ..self },
            Method::POST => Route { post: Some(handler), ..self },
            Method::PUT => Route { put: Some(handler), ..self },
            Method::DELETE => Route { delete: Some(handler), ..self },
            Method::HEAD => Route { head: Some(handler), ..self },
            Method::TRACE => Route { trace: Some(handler), ..self },
            Method::CONNECT => Route { connect: Some(handler), ..self },
            Method::PATCH => Route { patch: Some(handler), ..self },
            Method::Extension(token) => Route {
                extensions: self.extensions.put(token, handler),
                ..self
            },
        }
    }

    /// The route after `handler` was made its catch-all.
    pub open spec fn with_all(handler: H) -> Route<H> {
        Route { all: Some(handler), ..Route::empty() }
    }

    /// The handler that serves `method`: the catch-all where there is one,
    /// else what the method's slot holds.
    pub open spec fn handler_for(self, method: Method) -> Option<H> {
        match self.all {
            Some(h) => Some(h),
            None => self.slot(method),
        }
    }

    /// Creates a route with no handler.
    pub fn new() -> (route: Self)
        ensures
            route == Route::<H>::empty(),
    {
        Route {
            options: None,
            get: None,
            post: None,
            put: None,
            delete: None,
            head: None,
            trace: None,
            connect: None,
            patch: None,
            extensions: Table::Nil,
            all: None,
        }
    }

    /// Inserts a handler on the given HTTP method.
    pub fn method(&mut self, method: Method, handler: H)
        ensures
            *final(self) == old(self).with_method(method, handler),
    {
        match method {
            Method::OPTIONS => {
                self.options = Some(handler);
            },
            Method::GET => {
                self.get = Some(handler);
            },
            Method::POST => {
                self.post = Some(handler);
            },
            Method::PUT => {
                self.put = Some(handler);
            },
            Method::DELETE => {
                self.delete = Some(handler);
            },
            Method::HEAD => {
                self.head = Some(handler);
            },
            Method::TRACE => {
                self.trace = Some(handler);
            },
            Method::CONNECT => {
                self.connect = Some(handler);
            },
            Method::PATCH => {
                self.patch = Some(handler);
            },
            Method::Extension(token) => {
                let mut table = Table::Nil;
                core::mem::swap(&mut self.extensions, &mut table);
                self.extensions = table.insert(token, handler);
            },
        }
    }

    /// Inserts a handler on all HTTP methods, in place of the handlers
    /// that single methods had.
    pub fn all(&mut self, handler: H)
        ensures
            *final(self) == Route::with_all(handler),
    {
        *self = Route::new();
        self.all = Some(handler);
    }

    /// Inserts a handler on the GET HTTP method.
    pub fn get(&mut self, handler: H)
        ensures
            *final(self) == old(self).with_method(Method::GET, handler),
    {
        self.method(Method::GET, handler);
    }

    /// Inserts a handler on the POST HTTP method.
    pub fn post(&mut self, handler: H)
        ensures
            *final(self) == old(self).with_method(Method::POST, handler),
    {
        self.method(Method::POST, handler);
    }

    /// Inserts a handler on the PUT HTTP method.
    pub fn put(&mut self, handler: H)
        ensures
            *final(self) == old(self).with_method(Method::PUT, handler),
    {
        self.method(Method::PUT, handler);
    }

    /// Inserts a handler on the DELETE HTTP method.
    pub fn delete(&mut self, handler: H)
        ensures
            *final(self) == old(self).with_method(Method::DELETE, handler),
    {
        self.method(Method::DELETE, handler);
    }

    /// The handler that serves `method`, if any.
    pub fn handler(&self, method: &Method) -> (r: Option<&H>)
        ensures
            match r {
                Some(h) => self.handler_for(*method) == Some(*h),
                None => self.handler_for(*method) is None,
            },
    {
        match &self.all {
            Some(h) => Some(h),
            None => match method {
                Method::OPTIONS => self.options.as_ref(),
                Method::GET => self.get.as_ref(),
                Method::POST => self.post.as_ref(),
                Method::PUT => self.put.as_ref(),
                Method::DELETE => self.delete.as_ref(),
                Method::HEAD => self.head.as_ref(),
                Method::TRACE => self.trace.as_ref(),
                Method::CONNECT => self.connect.as_ref(),
                Method::PATCH => self.patch.as_ref(),
                Method::Extension(token) => self.extensions.lookup(token),
            },
        }
    }
}

impl<H> Default for Route<H> {
    fn default() -> (route: Self)
        ensures
            route == Route::<H>::empty(),
    {
        Route::new()
    }
}

/// What a lookup of `path` and `method` finds in a tree of routes.
pub open spec fn spec_find<H>(t: Trie<Route<H>>, path: Seq<Seq<char>>, method: Method)
    -> RouteResult<(H, Seq<Capture>)> {
    match t.get(path) {
        None => RouteResult::NotFound,
        Some(route) => match route.handler_for(method) {
            Some(h) => RouteResult::Found((h, t.captures(path))),
            None => RouteResult::MethodNotAllowed,
        },
    }
}

/// The entry of a path: the route that was registered on exactly the
/// path, or the empty route where there is none.
pub open spec fn entry<H>(t: Trie<Route<H>>, path: Seq<Seq<char>>) -> Route<H> {
    match t.registered(path) {
        Some(route) => route,
        None => Route::empty(),
    }
}

/// The tree of routes after `handler` was registered for `method` on
/// `path`: the path's entry has the handler in the slot of the method and
/// is otherwise as it was.
pub open spec fn spec_insert<H>(
    t: Trie<Route<H>>,
    method: Method,
    path: Seq<Seq<char>>,
    handler: H,
) -> Trie<Route<H>> {
    t.insert(path, entry(t, path).with_method(method, handler))
}

/// Registering a handler keeps a tree of routes well formed.
pub proof fn lemma_spec_insert_well_formed<H>(
    t: Trie<Route<H>>,
    method: Method,
    path: Seq<Seq<char>>,
    handler: H,
)
    requires
        t.well_formed(),
    ensures
        spec_insert(t, method, path, handler).well_formed(),
{
    lemma_insert_well_formed(t, path, entry(t, path).with_method(method, handler));
}

/// A router: a tree of routes keyed by path.
///
/// A router that was made by `new` and changed by its own methods is well
/// formed: below every node no two children have the same key.
pub struct Router<H> {
    route: Node<Route<H>>,
}

impl<H> View for Router<H> {
    type V = Trie<Route<H>>;

    closed spec fn view(&self) -> Trie<Route<H>> {
        self.route@
    }
}

impl<H> Router<H> {
    /// Creates a router with no route.
    pub fn new() -> (router: Self)
        ensures
            router@ == Trie::<Route<H>>::leaf("/"@),
            router@.well_formed(),
    {
        Router { route: Node::new("/") }
    }

    /// Returns the route that is registered on exactly `path`, for
    /// writing, after registering an empty one where there was none.
    pub fn at(&mut self, path: &str) -> (r: &mut Route<H>)
        ensures
            *r == entry(old(self)@, spec_segments(path@)),
            final(self)@ == old(self)@.insert(spec_segments(path@), *final(r)),
            old(self)@.well_formed() ==> final(self)@.well_formed(),
    {
        let ghost p = spec_segments(path@);
        let ghost before = self@;
        if self.route.registered(path).is_none() {
            self.route.insert(path, Route::new());
            proof {
                lemma_insert_registered(before, p, Route::<H>::empty());
            }
        }
        let ghost made = self@;
        proof {
            lemma_registered_get(made, p);
        }
        let r = self.route.get_mut(path).unwrap();
        proof {
            lemma_put_is_insert(made, p, *final(r));
            lemma_insert_overwrites(before, p, Route::<H>::empty(), *final(r));
            if before.well_formed() {
                lemma_insert_well_formed(before, p, *final(r));
            }
        }
        r
    }

    /// Inserts a route handler for the given path and HTTP method.
    pub fn insert(&mut self, method: Method, path: &str, handler: H)
        ensures
            final(self)@ == spec_insert(old(self)@, method, spec_segments(path@), handler),
            old(self)@.well_formed() ==> final(self)@.well_formed(),
    {
        let route = self.at(path);
        route.method(method, handler);
    }

    /// Routes a path on the router to an existing router: the node that
    /// `path` addresses takes the routes of `router` in place of its own.
    pub fn route(&mut self, path: &str, router: Router<H>)
        ensures
            final(self)@ == old(self)@.mount(spec_segments(path@), router@),
            old(self)@.well_formed() && router@.well_formed() ==> final(self)@.well_formed(),
    {
        proof {
            if old(self)@.well_formed() && router@.well_formed() {
                lemma_mount_well_formed(old(self)@, spec_segments(path@), router@);
            }
        }
        self.route.insert_node(path, router.route);
    }

    /// Finds a route result along the given path and method.
    pub fn find(&self, path: &str, method: Method) -> (r: RouteResult<(&H, Params)>)
        ensures
            match spec_find(self@, spec_segments(path@), method) {
                RouteResult::NotFound => r is NotFound,
                RouteResult::MethodNotAllowed => r is MethodNotAllowed,
                RouteResult::Found((h, caps)) => r matches RouteResult::Found((handler, params))
                    && *handler == h && params@ == caps,
            },
    {
        match self.route.get_params(path) {
            Some((route, params)) => match route.handler(&method) {
                Some(handler) => RouteResult::Found((handler, params)),
                None => RouteResult::MethodNotAllowed,
            },
            None => RouteResult::NotFound,
        }
    }
}

/// Whether the entry of `path` has a catch-all.
pub open spec fn has_catch_all<H>(t: Trie<Route<H>>, path: Seq<Seq<char>>) -> bool {
    entry(t, path).all is Some
}

/// A catch-all wins over the method slots, whenever they were filled: a
/// route that got a catch-all and then a handler for one method still
/// serves every method by the catch-all.
pub proof fn lemma_catch_all_wins<H>(first: H, method: Method, second: H, asked: Method)
    ensures
        Route::with_all(first).with_method(method, second).handler_for(asked) == Some(first),
{
}

/// A handler that was registered for a method serves that method, and
/// leaves the other methods to what served them before, on a route
/// without a catch-all.
pub proof fn lemma_method_serves<H>(route: Route<H>, method: Method, handler: H, asked: Method)
    requires
        route.all is None,
    ensures
        route.with_method(method, handler).handler_for(method) == Some(handler),
        asked@ != method@ ==> route.with_method(method, handler).handler_for(asked)
            == route.handler_for(asked),
{
    match method {
        Method::Extension(token) => {
            route.extensions.lemma_put_get(token, handler, asked@.1);
        },
        _ => {},
    }
}

/// After a handler was registered for a method on a path, the path's
/// entry is its former entry with the handler in the slot of the method,
/// and a lookup of the path finds that entry.
pub proof fn lemma_insert_entry<H>(
    t: Trie<Route<H>>,
    method: Method,
    path: Seq<Seq<char>>,
    handler: H,
)
    ensures
        spec_insert(t, method, path, handler).registered(path) == Some(
            entry(t, path).with_method(method, handler),
        ),
        spec_insert(t, method, path, handler).get(path) == Some(
            entry(t, path).with_method(method, handler),
        ),
{
    lemma_insert_registered(t, path, entry(t, path).with_method(method, handler));
    lemma_insert_get(t, path, entry(t, path).with_method(method, handler));
}

/// After a handler was registered for a method on a path, a lookup of that
/// path and method finds it, unless the path's entry has a catch-all. With
/// any method the path is known: the lookup never ends in `NotFound`, and
/// for a method that the entry did not serve it ends in `MethodNotAllowed`.
pub proof fn lemma_insert_find<H>(
    t: Trie<Route<H>>,
    method: Method,
    path: Seq<Seq<char>>,
    handler: H,
    asked: Method,
)
    ensures
        !has_catch_all(t, path) ==> (spec_find(spec_insert(t, method, path, handler), path, method)
            matches RouteResult::Found((h, _)) && h == handler),
        !(spec_find(spec_insert(t, method, path, handler), path, asked) is NotFound),
        asked@ != method@ && entry(t, path).handler_for(asked) is None ==> spec_find(
            spec_insert(t, method, path, handler),
            path,
            asked,
        ) is MethodNotAllowed,
        has_catch_all(spec_insert(t, method, path, handler), path) == has_catch_all(t, path),
{
    lemma_insert_entry(t, method, path, handler);
    if !has_catch_all(t, path) {
        lemma_method_serves(entry(t, path), method, handler, asked);
    }
}

/// Registering a handler on one path leaves the entry of every other path
/// as it was: a lookup of another path on which a route was registered
/// ends as it ended before, with the same handler where it found one.
pub proof fn lemma_insert_leaves_others<H>(
    t: Trie<Route<H>>,
    method: Method,
    path: Seq<Seq<char>>,
    handler: H,
    other: Seq<Seq<char>>,
    asked: Method,
)
    requires
        other != path,
        t.registered(other) is Some,
    ensures
        spec_insert(t, method, path, handler).registered(other) == t.registered(other),
        match entry(t, other).handler_for(asked) {
            Some(h) => spec_find(spec_insert(t, method, path, handler), other, asked)
                matches RouteResult::Found((g, _)) && g == h,
            None => spec_find(spec_insert(t, method, path, handler), other, asked)
                is MethodNotAllowed,
        },
{
    lemma_insert_frame(t, path, entry(t, path).with_method(method, handler), other);
}

/// Registering a second handler for the same method and path replaces the
/// first: a lookup finds the second, unless the path's entry has a
/// catch-all.
pub proof fn lemma_insert_again<H>(
    t: Trie<Route<H>>,
    method: Method,
    path: Seq<Seq<char>>,
    first: H,
    second: H,
)
    requires
        !has_catch_all(t, path),
    ensures
        spec_find(
            spec_insert(spec_insert(t, method, path, first), method, path, second),
            path,
            method,
        ) matches RouteResult::Found((h, _)) && h == second,
{
    lemma_insert_find(t, method, path, first, method);
    lemma_insert_find(spec_insert(t, method, path, first), method, path, second, method);
}

/// After the routes of one router were grafted on a prefix of another, a
/// lookup of the prefix followed by a path ends as a lookup of that path
/// ended in the grafted router, and where that found a handler it finds
/// the same one. The path is empty or begins with a separator.
pub proof fn lemma_route_find<H>(
    t: Trie<Route<H>>,
    prefix: Seq<char>,
    sub: Trie<Route<H>>,
    path: Seq<char>,
    method: Method,
)
    requires
        path.len() == 0 || path[0] == '/',
    ensures
        match spec_find(sub, spec_segments(path), method) {
            RouteResult::NotFound => spec_find(
                t.mount(spec_segments(prefix), sub),
                spec_segments(prefix + path),
                method,
            ) is NotFound,
            RouteResult::MethodNotAllowed => spec_find(
                t.mount(spec_segments(prefix), sub),
                spec_segments(prefix + path),
                method,
            ) is MethodNotAllowed,
            RouteResult::Found((h, _)) => spec_find(
                t.mount(spec_segments(prefix), sub),
                spec_segments(prefix + path),
                method,
            ) matches RouteResult::Found((g, _)) && g == h,
        },
{
    lemma_segments_concat(prefix, path);
    lemma_mount_get(t, spec_segments(prefix), sub, spec_segments(path));
}

/// After the routes of one router were grafted on a literal prefix of a
/// well-formed router, a lookup of the prefix followed by a path ends just
/// as a lookup of that path ended in the grafted router: the same
/// outcome, the same handler and the same parameters. The path is empty or
/// begins with a separator.
pub proof fn lemma_route_find_exact<H>(
    t: Trie<Route<H>>,
    prefix: Seq<char>,
    sub: Trie<Route<H>>,
    path: Seq<char>,
    method: Method,
)
    requires
        path.len() == 0 || path[0] == '/',
        t.well_formed(),
        literal_path(spec_segments(prefix)),
    ensures
        spec_find(t.mount(spec_segments(prefix), sub), spec_segments(prefix + path), method)
            == spec_find(sub, spec_segments(path), method),
{
    lemma_segments_concat(prefix, path);
    lemma_mount_get(t, spec_segments(prefix), sub, spec_segments(path));
    lemma_mount_captures(t, spec_segments(prefix), sub, spec_segments(path));
}

/// Grafting a router on a literal prefix leaves every lookup that does
/// not begin with the prefix as it was, where no wildcard stands beside
/// the way to the prefix.
pub proof fn lemma_route_leaves_others<H>(
    t: Trie<Route<H>>,
    prefix: Seq<Seq<char>>,
    sub: Trie<Route<H>>,
    other: Seq<Seq<char>>,
    method: Method,
)
    requires
        literal_path(prefix),
        t.no_wildcard_along(prefix),
        !prefix.is_prefix_of(other),
    ensures
        spec_find(t.mount(prefix, sub), other, method) == spec_find(t, other, method),
{
    lemma_mount_frame(t, prefix, sub, other);
}

/// In a well-formed router a lookup serves nothing that was not
/// registered: the handler it finds serves the method in the entry of
/// some registered pattern, the path is an instance of that pattern, and
/// the parameters are those that the pattern's placeholders stand for. The
/// pattern is the result.
pub proof fn lemma_found_is_registered<H>(
    t: Trie<Route<H>>,
    path: Seq<Seq<char>>,
    method: Method,
) -> (pattern: Seq<Seq<char>>)
    requires
        t.well_formed(),
        spec_find(t, path, method) is Found,
    ensures
        t.registered(pattern) is Some,
        pattern_matches(pattern, path),
        spec_find(t, path, method) == RouteResult::Found(
            (entry(t, pattern).handler_for(method)->0, pattern_bindings(pattern, path)),
        ),
{
    crate::trie::lemma_found_is_registered(t, path)
}

/// A router with one registration serves the instances of the registered
/// pattern, for the registered method, with the parameters that the
/// pattern's placeholders bind. On an instance any other method is not
/// allowed; any other path is not found.
pub proof fn lemma_single_route_find<H>(
    key: Seq<char>,
    method: Method,
    pattern: Seq<Seq<char>>,
    handler: H,
    path: Seq<Seq<char>>,
    asked: Method,
)
    ensures
        spec_find(spec_insert(Trie::leaf(key), method, pattern, handler), path, asked) == if
            !pattern_matches(pattern, path) {
            RouteResult::NotFound
        } else if asked@ == method@ {
            RouteResult::Found((handler, pattern_bindings(pattern, path)))
        } else {
            RouteResult::MethodNotAllowed
        },
{
    let leaf = Trie::<Route<H>>::leaf(key);
    if pattern.len() > 0 {
        lemma_literal_from(leaf.children, pattern[0], 0);
    }
    assert(leaf.registered(pattern) is None);
    lemma_method_serves(Route::<H>::empty(), method, handler, asked);
    lemma_single_route(key, pattern, Route::<H>::empty().with_method(method, handler), path);
}

} // verus!
