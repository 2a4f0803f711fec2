use sidemount::{ConfigError, Dispatch, Method, Next, Params, Request, Response, Router, Server, Step};

type Mid = fn(&mut Vec<&'static str>) -> bool;

fn m1(log: &mut Vec<&'static str>) -> bool {
    log.push("m1");
    true
}

fn m2(log: &mut Vec<&'static str>) -> bool {
    log.push("m2");
    true
}

fn stop(log: &mut Vec<&'static str>) -> bool {
    log.push("stop");
    false
}

fn drive(next: Next<'_, Mid, &'static str>, log: &mut Vec<&'static str>) {
    match next.run() {
        Step::Middleware(mid, rest) => {
            if mid(log) {
                drive(rest, log);
            }
        }
        Step::Handler(h) => log.push(h),
    }
}

#[test]
fn middleware_runs_in_registration_order() {
    let chain: Vec<Mid> = vec![m1, m2];
    let handler = "h";
    let mut log = Vec::new();
    drive(Next::new(&chain, &handler), &mut log);
    assert_eq!(log, vec!["m1", "m2", "h"]);
}

#[test]
fn middleware_short_circuit_stops_the_chain() {
    let chain: Vec<Mid> = vec![stop, m2];
    let handler = "h";
    let mut log = Vec::new();
    drive(Next::new(&chain, &handler), &mut log);
    assert_eq!(log, vec!["stop"]);
}

#[test]
fn empty_chain_runs_the_handler() {
    let chain: Vec<Mid> = Vec::new();
    let handler = "h";
    let next = Next::new(&chain, &handler);
    assert_eq!(next.cursor, 0);
    match next.run() {
        Step::Handler(h) => assert_eq!(*h, "h"),
        Step::Middleware(_, _) => panic!("no middleware was mounted"),
    }
}

#[test]
fn run_advances_the_cursor_by_one() {
    let chain: Vec<u32> = vec![10, 20, 30];
    let handler = 99u32;
    let mut next = Next::new(&chain, &handler);
    for (i, want) in [10u32, 20, 30].iter().enumerate() {
        assert_eq!(next.cursor, i);
        match next.run() {
            Step::Middleware(m, rest) => {
                assert_eq!(m, want);
                next = rest;
            }
            Step::Handler(_) => panic!("handler ran early"),
        }
    }
    assert_eq!(next.cursor, 3);
    assert!(matches!(next.run(), Step::Handler(&99)));
}

#[test]
fn fixed_responses() {
    assert_eq!(Response::not_found().status(), 404);
    assert_eq!(Response::method_not_allowed().status(), 405);
    assert_eq!(Response::default().status(), 200);
}

#[test]
fn request_view() {
    let mut params = Params::new();
    params.insert("id".to_string(), "42".to_string());
    let req = Request::new(vec![1u8, 2], Method::GET, "/users/42".to_string(), params);
    assert_eq!(*req.method(), Method::GET);
    assert_eq!(req.path(), "/users/42");
    assert_eq!(req.param("id"), Some(&"42".to_string()));
    assert_eq!(req.param("nope"), None);
    assert_eq!(req.into_raw(), vec![1u8, 2]);
}

#[test]
fn dispatch_found_builds_chain_and_request() {
    let mut app: Server<Mid, &'static str> = sidemount::new();
    app.mount(m1).unwrap();
    app.mount(m2).unwrap();
    app.at("/users/{id}").unwrap().get("show");
    app.freeze();
    match app.dispatch((), Method::GET, "/users/42".to_string()) {
        Dispatch::Run(next, req) => {
            assert_eq!(req.param("id"), Some(&"42".to_string()));
            assert_eq!(req.path(), "/users/42");
            assert_eq!(*req.method(), Method::GET);
            let mut log = Vec::new();
            drive(next, &mut log);
            assert_eq!(log, vec!["m1", "m2", "show"]);
        }
        Dispatch::Respond(_) => panic!("the route exists"),
    }
}

#[test]
fn dispatch_misses_give_fixed_responses() {
    let mut app: Server<Mid, &'static str> = Server::new();
    app.mount(m1).unwrap();
    app.at("/x").unwrap().get("x");
    match app.dispatch((), Method::GET, "/y".to_string()) {
        Dispatch::Respond(res) => assert_eq!(res.status(), 404),
        Dispatch::Run(_, _) => panic!("no such route"),
    }
    match app.dispatch((), Method::POST, "/x".to_string()) {
        Dispatch::Respond(res) => assert_eq!(res.status(), 405),
        Dispatch::Run(_, _) => panic!("no such method"),
    }
}

#[test]
fn registration_after_freeze_is_refused() {
    let mut app: Server<Mid, &'static str> = Server::new();
    assert!(!app.is_serving());
    app.at("/x").unwrap().get("x");
    app.mount(m1).unwrap();
    app.freeze();
    assert!(app.is_serving());

    assert_eq!(app.mount(m2), Err(ConfigError::Frozen));
    assert!(matches!(app.at("/y"), Err(ConfigError::Frozen)));
    let mut sub = Router::new();
    sub.at("/a").get("a");
    assert_eq!(app.route("/p", sub), Err(ConfigError::Frozen));

    assert_eq!(app.middleware().len(), 1);
    assert!(!app.router().find("/y", Method::GET).is_found());
    assert!(!app.router().find("/y", Method::GET).is_not_allowed());
    assert!(!app.router().find("/p/a", Method::GET).is_found());
    assert!(app.router().find("/x", Method::GET).is_found());
    assert_eq!(ConfigError::Frozen.message(), "cannot register after binding to listener");
}

#[test]
fn server_routes_a_sub_router() {
    let mut app: Server<Mid, &'static str> = Server::new();
    let mut sub = Router::new();
    sub.at("/settings").get("settings");
    assert_eq!(app.route("/admin", sub), Ok(()));
    assert!(app.router().find("/admin/settings", Method::GET).is_found());
}

fn head_of(method: &str, target: &str) -> hyper::http::request::Parts {
    hyper::Request::builder().method(method).uri(target).body(()).unwrap().into_parts().0
}

#[test]
fn call_reads_method_and_path_from_the_head() {
    let mut app: Server<Mid, &'static str> = Server::new();
    app.mount(m1).unwrap();
    app.at("/users/{id}").unwrap().get("show");
    app.at("/users/{id}").unwrap().method(Method::Extension("PROPFIND".to_string()), "propfind");
    app.freeze();

    match app.call(head_of("GET", "/users/42?full=1"), "body") {
        Dispatch::Run(next, req) => {
            assert_eq!(*req.method(), Method::GET);
            assert_eq!(req.path(), "/users/42");
            assert_eq!(req.param("id"), Some(&"42".to_string()));
            assert_eq!(req.raw.1, "body");
            assert_eq!(req.raw.0.uri.query(), Some("full=1"));
            let mut log = Vec::new();
            drive(next, &mut log);
            assert_eq!(log, vec!["m1", "show"]);
        }
        Dispatch::Respond(_) => panic!("the route exists"),
    }
    match app.call(head_of("POST", "/users/42"), ()) {
        Dispatch::Respond(res) => assert_eq!(res.status(), 405),
        Dispatch::Run(_, _) => panic!("no such method"),
    }
    match app.call(head_of("GET", "/nowhere"), ()) {
        Dispatch::Respond(res) => assert_eq!(res.status(), 404),
        Dispatch::Run(_, _) => panic!("no such route"),
    }
    match app.call(head_of("PROPFIND", "/users/42"), ()) {
        Dispatch::Run(next, req) => {
            assert_eq!(*req.method(), Method::Extension("PROPFIND".to_string()));
            let mut log = Vec::new();
            drive(next, &mut log);
            assert_eq!(log, vec!["m1", "propfind"]);
        }
        Dispatch::Respond(_) => panic!("the route exists"),
    }
    match app.call(head_of("MKCOL", "/users/42"), ()) {
        Dispatch::Respond(res) => assert_eq!(res.status(), 405),
        Dispatch::Run(_, _) => panic!("no such method"),
    }
}

#[test]
fn call_tells_the_standard_methods_apart() {
    let names = [
        ("OPTIONS", Method::OPTIONS),
        ("GET", Method::GET),
        ("POST", Method::POST),
        ("PUT", Method::PUT),
        ("DELETE", Method::DELETE),
        ("HEAD", Method::HEAD),
        ("TRACE", Method::TRACE),
        ("CONNECT", Method::CONNECT),
        ("PATCH", Method::PATCH),
    ];
    for (name, method) in names {
        let mut app: Server<Mid, &'static str> = Server::new();
        app.at("/x").unwrap().method(method.clone(), "x");
        match app.call(head_of(name, "/x"), ()) {
            Dispatch::Run(_, req) => assert_eq!(*req.method(), method),
            Dispatch::Respond(_) => panic!("the route exists"),
        }
    }
}
