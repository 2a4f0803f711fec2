use sidemount::{Method, Route, RouteResult, Router};

#[test]
fn test_router() {
    let mut router = Router::new();
    router.at("/foo/bar").get("test");

    router.at("/foo/bar/baz").get("tester, tester2");
    router.at("/bah").get("tester, tester2");
    router.at("/boo").get("tester, test3, test4");

    let mut sub_router = Router::new();
    sub_router.at("/bleh").get("test");
    sub_router.at("/foo/bar").post("test");
    router.route("/hi", sub_router);

    assert!(router.find("/hi/bleh", Method::GET).is_found());
    assert!(router.find("/hi/foo/bar", Method::POST).is_found());
    assert!(router.find("/foo/bar", Method::GET).is_found());
    assert!(router.find("/foo/bar/baz", Method::GET).is_found());
}

fn found<'a>(r: RouteResult<(&'a u32, sidemount::Params)>) -> (u32, sidemount::Params) {
    match r {
        RouteResult::Found((h, params)) => (*h, params),
        RouteResult::NotFound => panic!("not found"),
        RouteResult::MethodNotAllowed => panic!("method not allowed"),
    }
}

#[test]
fn route_result_classifies() {
    let r: RouteResult<u32> = RouteResult::Found(1);
    assert!(r.is_found());
    assert!(!r.is_not_allowed());
    let r: RouteResult<u32> = RouteResult::MethodNotAllowed;
    assert!(!r.is_found());
    assert!(r.is_not_allowed());
    let r: RouteResult<u32> = RouteResult::NotFound;
    assert!(!r.is_found());
    assert!(!r.is_not_allowed());
}

#[test]
fn root_route_is_found() {
    let mut router = Router::new();
    router.at("/").get(1u32);
    assert_eq!(found(router.find("/", Method::GET)).0, 1);
    let empty: Router<u32> = sidemount::router();
    assert!(!empty.find("/", Method::GET).is_found());
    assert!(!empty.find("/", Method::GET).is_not_allowed());
}

#[test]
fn insert_then_find() {
    for p in ["/", "/a", "/a/b/c", "/x/{id}", "/x/{id}/y/"] {
        let mut router = Router::new();
        router.insert(Method::PUT, p, 5u32);
        assert_eq!(found(router.find(p, Method::PUT)).0, 5);
    }
}

#[test]
fn insert_again_replaces_the_handler() {
    let mut router = Router::new();
    router.insert(Method::GET, "/x", 1u32);
    router.insert(Method::GET, "/x", 2u32);
    assert_eq!(found(router.find("/x", Method::GET)).0, 2);
    router.at("/x").get(3);
    assert_eq!(found(router.find("/x", Method::GET)).0, 3);
}

#[test]
fn wildcard_capture() {
    let mut router = Router::new();
    router.insert(Method::GET, "/users/{id}/profile", 1u32);
    let (h, params) = found(router.find("/users/42/profile", Method::GET));
    assert_eq!(h, 1);
    assert_eq!(params.len(), 1);
    assert_eq!(params.get("id"), Some(&"42".to_string()));
}

#[test]
fn prefix_mismatch_is_not_found() {
    let mut router = Router::new();
    router.insert(Method::GET, "/foo/bar", 1u32);
    let r = router.find("/foo/bar/baz", Method::GET);
    assert!(!r.is_found() && !r.is_not_allowed());
    let r = router.find("/foobar", Method::GET);
    assert!(!r.is_found() && !r.is_not_allowed());
}

#[test]
fn method_mismatch_is_not_allowed() {
    let mut router = Router::new();
    router.insert(Method::GET, "/x", 1u32);
    let r = router.find("/x", Method::POST);
    assert!(r.is_not_allowed());
    assert!(!r.is_found());
    router.at("/empty");
    assert!(router.find("/empty", Method::GET).is_not_allowed());
}

#[test]
fn catch_all_wins_whatever_the_order() {
    let mut route = Route::new();
    route.all(1u32);
    route.get(2u32);
    for m in [
        Method::OPTIONS,
        Method::GET,
        Method::POST,
        Method::PUT,
        Method::DELETE,
        Method::HEAD,
        Method::TRACE,
        Method::CONNECT,
        Method::PATCH,
        Method::Extension("PROPFIND".to_string()),
    ] {
        assert_eq!(route.handler(&m), Some(&1));
    }

    let mut router = Router::new();
    router.at("/x").all(1u32);
    router.at("/x").get(2u32);
    assert_eq!(found(router.find("/x", Method::GET)).0, 1);
    assert_eq!(found(router.find("/x", Method::DELETE)).0, 1);
}

#[test]
fn catch_all_clears_the_method_slots() {
    let mut route = Route::new();
    route.get(2u32);
    route.post(3u32);
    route.all(1u32);
    assert_eq!(route.get, None);
    assert_eq!(route.post, None);
    assert_eq!(route.all, Some(1));
    assert_eq!(route.handler(&Method::GET), Some(&1));
}

#[test]
fn each_method_has_its_own_slot() {
    let mut route = Route::<u32>::default();
    assert_eq!(route.handler(&Method::GET), None);
    route.get(1);
    route.post(2);
    route.put(3);
    route.delete(4);
    route.method(Method::OPTIONS, 5);
    route.method(Method::HEAD, 6);
    route.method(Method::TRACE, 7);
    route.method(Method::CONNECT, 8);
    route.method(Method::PATCH, 9);
    route.method(Method::Extension("PROPFIND".to_string()), 10);
    assert_eq!(route.handler(&Method::GET), Some(&1));
    assert_eq!(route.handler(&Method::POST), Some(&2));
    assert_eq!(route.handler(&Method::PUT), Some(&3));
    assert_eq!(route.handler(&Method::DELETE), Some(&4));
    assert_eq!(route.handler(&Method::OPTIONS), Some(&5));
    assert_eq!(route.handler(&Method::HEAD), Some(&6));
    assert_eq!(route.handler(&Method::TRACE), Some(&7));
    assert_eq!(route.handler(&Method::CONNECT), Some(&8));
    assert_eq!(route.handler(&Method::PATCH), Some(&9));
    assert_eq!(route.handler(&Method::Extension("PROPFIND".to_string())), Some(&10));
    route.get(11);
    assert_eq!(route.handler(&Method::GET), Some(&11));
    assert_eq!(route.handler(&Method::POST), Some(&2));
}

#[test]
fn mounting_a_sub_router() {
    let mut sub = Router::new();
    sub.at("/a").get(1u32);
    sub.at("/b").get(2u32);
    let mut parent = Router::new();
    parent.at("/other").get(3u32);
    parent.route("/p", sub);
    assert_eq!(found(parent.find("/p/a", Method::GET)).0, 1);
    assert_eq!(found(parent.find("/p/b", Method::GET)).0, 2);
    assert_eq!(found(parent.find("/other", Method::GET)).0, 3);
    assert!(!parent.find("/a", Method::GET).is_found());
    assert!(parent.find("/p/a", Method::POST).is_not_allowed());
}

#[test]
fn at_registers_on_exactly_the_path() {
    let mut router = Router::new();
    router.at("/users/{id}").get(1u32);
    router.at("/users/42").post(2u32);
    assert_eq!(found(router.find("/users/42", Method::POST)).0, 2);
    assert!(router.find("/users/42", Method::GET).is_not_allowed());
    assert_eq!(found(router.find("/users/7", Method::GET)).0, 1);
    assert!(router.find("/users/7", Method::POST).is_not_allowed());
}

#[test]
fn literal_route_wins_over_wildcard_route_in_either_order() {
    let mut router = Router::new();
    router.at("/users/{id}").get(1u32);
    router.at("/users/me").get(2u32);
    assert_eq!(found(router.find("/users/me", Method::GET)).0, 2);
    let (h, params) = found(router.find("/users/42", Method::GET));
    assert_eq!(h, 1);
    assert_eq!(params.get("id"), Some(&"42".to_string()));

    let mut router = Router::new();
    router.insert(Method::GET, "/users/me", 2u32);
    router.insert(Method::GET, "/users/{id}", 1u32);
    let (h, params) = found(router.find("/users/me", Method::GET));
    assert_eq!(h, 2);
    assert_eq!(params.len(), 0);
    assert_eq!(found(router.find("/users/42", Method::GET)).0, 1);
}

#[test]
fn insert_leaves_other_routes() {
    let mut router = Router::new();
    router.insert(Method::GET, "/a", 1u32);
    router.insert(Method::POST, "/a", 2u32);
    router.insert(Method::GET, "/a/b", 3u32);
    router.insert(Method::GET, "/{x}", 4u32);
    router.insert(Method::GET, "/", 5u32);
    assert_eq!(found(router.find("/a", Method::GET)).0, 1);
    assert_eq!(found(router.find("/a", Method::POST)).0, 2);
    assert_eq!(found(router.find("/a/b", Method::GET)).0, 3);
    assert_eq!(found(router.find("/z", Method::GET)).0, 4);
    assert_eq!(found(router.find("/", Method::GET)).0, 5);
}

#[test]
fn extension_methods_are_told_apart_by_token() {
    let propfind = || Method::Extension("PROPFIND".to_string());
    let mkcol = || Method::Extension("MKCOL".to_string());
    let mut route = Route::<u32>::new();
    route.method(propfind(), 1);
    assert_eq!(route.handler(&propfind()), Some(&1));
    assert_eq!(route.handler(&mkcol()), None);
    route.method(mkcol(), 2);
    route.method(propfind(), 3);
    assert_eq!(route.handler(&propfind()), Some(&3));
    assert_eq!(route.handler(&mkcol()), Some(&2));
    assert_eq!(route.handler(&Method::Extension("GET".to_string())), None);
    assert_eq!(route.handler(&Method::GET), None);

    let mut router = Router::new();
    router.insert(propfind(), "/dav", 7u32);
    assert_eq!(found(router.find("/dav", propfind())).0, 7);
    assert!(router.find("/dav", mkcol()).is_not_allowed());
    assert!(router.find("/dav", Method::GET).is_not_allowed());
    router.at("/dav").all(9);
    assert_eq!(found(router.find("/dav", mkcol())).0, 9);
    assert_eq!(router.at("/dav").handler(&propfind()), Some(&9));
}

#[test]
fn copied_method_is_the_same_method() {
    assert_eq!(Method::GET.copied(), Method::GET);
    let m = Method::Extension("PURGE".to_string());
    assert_eq!(m.copied(), m);
}
