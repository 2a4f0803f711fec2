use sidemount::path::{is_wildcard, param_name, segments};
use sidemount::Node;

#[derive(Debug)]
pub struct Request {}

pub type HandlerFn = fn(Request) -> Result<(), std::io::Error>;

#[test]
fn test_insert_routes() {
    let mut root = Node::<HandlerFn>::new("");
    root.insert("/", |_| Ok(()));
    root.insert("/foo", |_| Ok(()));
    root.insert("/foo/bar", |_| Ok(()));
}

#[test]
fn test_get_route() {
    let mut root = Node::<HandlerFn>::new("");
    root.insert("/", |_| Ok(()));
    root.insert("/foo/bar", |_| Ok(()));
    root.insert("/foo/foo", |_| Ok(()));
    root.insert("/users/{id}/profile", |_| Ok(()));
    root.insert("/companies/{id}/users/{userid}", |_| Ok(()));

    assert!(root.get("/").is_some());
    assert!(root.get("/foo/bar").is_some());
    assert!(root.get("/foo/foo").is_some());
    assert!(root.get("/fooar").is_none());
    assert!(root.get("/foo/bar/baz").is_none());
    assert!(root.get("/fbar/baz").is_none());
    assert!(root.get("/users/foo/profile").is_some());
    assert!(root.get("/users/bar/profile").is_some());
    assert!(root.get("/users/bar/asdf").is_none());
    assert!(root.get("/companies/1234/asdf").is_none());
    assert!(root.get("/companies/1234/users").is_none());
    assert!(root.get("/companies/1234/users/foo").is_some());
}

#[test]
fn segments_drop_empty_pieces() {
    assert_eq!(segments("/"), Vec::<String>::new());
    assert_eq!(segments(""), Vec::<String>::new());
    assert_eq!(segments("/foo"), vec!["foo".to_string()]);
    assert_eq!(segments("foo/"), vec!["foo".to_string()]);
    assert_eq!(segments("/foo/"), vec!["foo".to_string()]);
    assert_eq!(segments("//foo///bar//"), vec!["foo".to_string(), "bar".to_string()]);
    assert_eq!(
        segments("/users/{id}/profile"),
        vec!["users".to_string(), "{id}".to_string(), "profile".to_string()]
    );
    assert_eq!(segments("/caf\u{e9}/\u{4e2d}\u{6587}"), vec!["caf\u{e9}".to_string(), "\u{4e2d}\u{6587}".to_string()]);
}

#[test]
fn wildcard_segments_are_braced() {
    assert!(is_wildcard("{id}"));
    assert!(is_wildcard("{}"));
    assert!(!is_wildcard("{"));
    assert!(!is_wildcard("}"));
    assert!(!is_wildcard(""));
    assert!(!is_wildcard("id"));
    assert!(!is_wildcard("{id"));
    assert!(!is_wildcard("id}"));
    assert_eq!(param_name("{id}"), "id");
    assert_eq!(param_name("{}"), "");
    assert_eq!(param_name("id"), "id");
    assert_eq!(param_name("{id"), "{id");
}

#[test]
fn new_node_is_a_leaf() {
    let node = Node::<u32>::new("{id}");
    assert_eq!(node.key, "{id}");
    assert!(node.wildcard);
    assert!(node.handler.is_none());
    assert!(node.nodes.is_empty());
    let node = Node::<u32>::new("users");
    assert!(!node.wildcard);
    let root = Node::<u32>::default();
    assert_eq!(root.key, "/");
    assert!(!root.wildcard);
}

#[test]
fn root_is_a_terminal() {
    let mut root = Node::<u32>::default();
    assert_eq!(root.get("/"), None);
    root.insert("/", 7);
    assert_eq!(root.get("/"), Some(&7));
    assert_eq!(root.get(""), Some(&7));
    assert!(root.nodes.is_empty());
    assert_eq!(root.handler, Some(7));
}

#[test]
fn insert_then_get_finds_the_value() {
    let paths = ["/", "/a", "/a/b", "/a/b/", "a", "/{x}", "/{x}/y", "/a/{x}/{y}", "//q//r"];
    for (i, p) in paths.iter().enumerate() {
        let mut root = Node::<usize>::default();
        root.insert("/{w}", 100);
        root.insert("/a/{w}", 101);
        root.insert(p, i);
        assert_eq!(root.get(p), Some(&i));
    }
}

#[test]
fn insert_again_overwrites() {
    let mut root = Node::<u32>::default();
    root.insert("/foo", 1);
    root.insert("/bar", 5);
    root.insert("/foo", 2);
    assert_eq!(root.get("/foo"), Some(&2));
    assert_eq!(root.get("/bar"), Some(&5));
    assert_eq!(root.nodes.len(), 2);
    root.insert("/foo/", 3);
    assert_eq!(root.get("/foo"), Some(&3));
    assert_eq!(root.nodes.len(), 2);
}

#[test]
fn insert_below_keeps_the_value_above() {
    let mut root = Node::<u32>::default();
    root.insert("/foo", 1);
    root.insert("/foo/bar", 2);
    assert_eq!(root.get("/foo"), Some(&1));
    assert_eq!(root.get("/foo/bar"), Some(&2));
    let mut root = Node::<u32>::default();
    root.insert("/foo/bar", 2);
    root.insert("/foo", 1);
    assert_eq!(root.get("/foo"), Some(&1));
    assert_eq!(root.get("/foo/bar"), Some(&2));
    assert_eq!(root.nodes.len(), 1);
}

#[test]
fn prefix_mismatch_fails_closed() {
    let mut root = Node::<u32>::default();
    root.insert("/foo/bar", 1);
    assert_eq!(root.get("/foo/bar/baz"), None);
    assert_eq!(root.get("/foobar"), None);
    assert_eq!(root.get("/foo"), None);
    assert_eq!(root.get("/fo"), None);
}

#[test]
fn literal_wins_over_wildcard_in_either_order() {
    let mut root = Node::<u32>::default();
    root.insert("/users/{id}", 1);
    root.insert("/users/me", 2);
    assert_eq!(root.get("/users/me"), Some(&2));
    assert_eq!(root.get("/users/42"), Some(&1));

    let mut root = Node::<u32>::default();
    root.insert("/users/me", 2);
    root.insert("/users/{id}", 1);
    assert_eq!(root.get("/users/me"), Some(&2));
    assert_eq!(root.get("/users/42"), Some(&1));
}

#[test]
fn lookup_does_not_backtrack() {
    let mut root = Node::<u32>::default();
    root.insert("/{id}/x", 1);
    root.insert("/a/y", 2);
    assert_eq!(root.get("/a/y"), Some(&2));
    assert_eq!(root.get("/b/x"), Some(&1));
    assert_eq!(root.get("/a/x"), None);
}

#[test]
fn first_wildcard_is_the_fallback() {
    let mut root = Node::<u32>::default();
    root.insert("/{a}", 1);
    root.insert("/{b}", 2);
    assert_eq!(root.get("/zzz"), Some(&1));
    assert_eq!(root.get("/{b}"), Some(&2));
}

#[test]
fn get_params_binds_wildcards_in_path_order() {
    let mut root = Node::<u32>::default();
    root.insert("/companies/{id}/users/{userid}", 9);
    let (v, params) = root.get_params("/companies/1234/users/foo").unwrap();
    assert_eq!(*v, 9);
    assert_eq!(params.len(), 2);
    assert_eq!(params.get("id"), Some(&"1234".to_string()));
    assert_eq!(params.get("userid"), Some(&"foo".to_string()));
    assert_eq!(params.get("other"), None);
    assert!(root.get_params("/companies/1234/users").is_none());
    assert!(root.get_params("/nothing").is_none());
    let (_, params) = {
        root.insert("/plain", 3);
        root.get_params("/plain").unwrap()
    };
    assert_eq!(params.len(), 0);
}

#[test]
fn later_wildcard_of_the_same_name_wins() {
    let mut root = Node::<u32>::default();
    root.insert("/{id}/x/{id}", 1);
    let (_, params) = root.get_params("/first/x/second").unwrap();
    assert_eq!(params.len(), 2);
    assert_eq!(params.get("id"), Some(&"second".to_string()));
}

#[test]
fn get_mut_writes_through() {
    let mut root = Node::<u32>::default();
    root.insert("/users/{id}", 1);
    root.insert("/users/me", 2);
    *root.get_mut("/users/7").unwrap() = 10;
    assert_eq!(root.get("/users/8"), Some(&10));
    assert_eq!(root.get("/users/me"), Some(&2));
    *root.get_mut("/users/me").unwrap() += 1;
    assert_eq!(root.get("/users/me"), Some(&3));
    assert!(root.get_mut("/users").is_none());
    assert!(root.get_mut("/nothing/here").is_none());
    assert!(root.get_mut("/").is_none());
}

#[test]
fn insert_node_grafts_value_and_children() {
    let mut sub = Node::<u32>::default();
    sub.insert("/", 1);
    sub.insert("/a", 2);
    sub.insert("/b/c", 3);

    let mut root = Node::<u32>::default();
    root.insert("/p/old", 9);
    root.insert("/q", 8);
    root.insert_node("/p", sub);

    assert_eq!(root.get("/p"), Some(&1));
    assert_eq!(root.get("/p/a"), Some(&2));
    assert_eq!(root.get("/p/b/c"), Some(&3));
    assert_eq!(root.get("/p/old"), None);
    assert_eq!(root.get("/q"), Some(&8));
    assert_eq!(root.nodes[0].key, "p");
}

#[test]
fn insert_node_on_the_root_replaces_the_tree() {
    let mut sub = Node::<u32>::new("sub");
    sub.insert("/a", 2);
    let mut root = Node::<u32>::default();
    root.insert("/", 1);
    root.insert("/z", 3);
    root.insert_node("/", sub);
    assert_eq!(root.key, "/");
    assert_eq!(root.get("/"), None);
    assert_eq!(root.get("/z"), None);
    assert_eq!(root.get("/a"), Some(&2));
}

#[test]
fn registered_takes_no_wildcard_for_a_segment() {
    let mut root = Node::<u32>::default();
    root.insert("/users/{id}", 1);
    assert_eq!(root.registered("/users/{id}"), Some(&1));
    assert_eq!(root.registered("/users/42"), None);
    assert_eq!(root.get("/users/42"), Some(&1));
    assert_eq!(root.registered("/users"), None);
    assert_eq!(root.registered("/"), None);
    root.insert("/", 2);
    assert_eq!(root.registered("/"), Some(&2));
}
