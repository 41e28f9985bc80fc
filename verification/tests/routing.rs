use rdd_web::router::Router;
use rdd_web::trie::Node;
use rdd_web::utils::{join_from, parse_pattern};

#[test]
fn parse_pattern_splits_on_slashes() {
    let parts = parse_pattern("/p/blog");
    assert_eq!(parts, vec!["p".to_string(), "blog".to_string()]);
}

#[test]
fn parse_pattern_drops_empty_segments() {
    let parts = parse_pattern("//user///index/");
    assert_eq!(parts, vec!["user".to_string(), "index".to_string()]);
}

#[test]
fn parse_pattern_stops_after_wildcard() {
    let parts = parse_pattern("/static/*filepath/ignored/tail");
    assert_eq!(parts, vec!["static".to_string(), "*filepath".to_string()]);
}

#[test]
fn parse_pattern_of_empty_input_is_empty() {
    let parts = parse_pattern("");
    assert!(parts.is_empty());
}

#[test]
fn join_from_rebuilds_the_suffix() {
    let parts = parse_pattern("/a/b/c.js");
    assert_eq!(join_from(&parts, 1), "b/c.js".to_string());
    assert_eq!(join_from(&parts, 0), "a/b/c.js".to_string());
    assert_eq!(join_from(&parts, 3), "".to_string());
}

#[test]
fn literal_route_resolves_exactly() {
    let mut router = Router::new();
    router.add_route("GET", "/user/index", None, 7);
    router.add_route("GET", "/user/list", None, 8);
    let (node, params) = router.get_route("GET", "/user/index");
    let node = node.expect("the registered literal path must match");
    assert_eq!(node.pattern, Some("/user/index".to_string()));
    assert_eq!(params.len(), 0);
}

#[test]
fn named_parameter_binds_the_segment() {
    let mut router = Router::new();
    router.add_route("GET", "/hello/:name", None, 1);
    let (node, params) = router.get_route("GET", "/hello/zs");
    assert!(node.is_some());
    assert_eq!(params.get("name"), Some(&"zs".to_string()));
}

#[test]
fn wildcard_binds_the_joined_suffix() {
    let mut router = Router::new();
    router.add_route("GET", "/static/*filepath", None, 1);
    let (node, params) = router.get_route("GET", "/static/a/b/c.js");
    assert!(node.is_some());
    assert_eq!(params.get("filepath"), Some(&"a/b/c.js".to_string()));
}

#[test]
fn wildcard_binds_a_single_trailing_segment() {
    let mut router = Router::new();
    router.add_route("GET", "/static/*filepath", None, 1);
    let (node, params) = router.get_route("GET", "/static/x.js");
    assert!(node.is_some());
    assert_eq!(params.get("filepath"), Some(&"x.js".to_string()));
}

#[test]
fn unregistered_method_matches_nothing() {
    let mut router = Router::new();
    router.add_route("GET", "/x", None, 1);
    let (node, params) = router.get_route("DELETE", "/x");
    assert!(node.is_none());
    assert_eq!(params.len(), 0);
}

#[test]
fn sibling_precedence_follows_registration_order() {
    // `:id` was registered first, so it wins the probe for `list`.
    let mut early_param = Router::new();
    early_param.add_route("GET", "/user/:id", None, 1);
    let (node, params) = early_param.get_route("GET", "/user/list");
    assert_eq!(
        node.expect("the parametric sibling matches").pattern,
        Some("/user/:id".to_string())
    );
    assert_eq!(params.get("id"), Some(&"list".to_string()));

    // The literal sibling registered first wins the same probe.
    let mut early_literal = Router::new();
    early_literal.add_route("GET", "/user/list", None, 2);
    early_literal.add_route("GET", "/user/:id", None, 1);
    let (node, params) = early_literal.get_route("GET", "/user/list");
    assert_eq!(
        node.expect("the literal sibling matches").pattern,
        Some("/user/list".to_string())
    );
    assert_eq!(params.len(), 0);
}

#[test]
fn add_hooks_attaches_to_the_terminal_node() {
    let mut router = Router::new();
    router.add_route("GET", "/user/index", None, 3);
    router.add_hooks("/user/index", "GET", 11);
    router.add_hooks("/user/index", "GET", 12);
    let (node, _) = router.get_route("GET", "/user/index");
    let node = node.expect("the route is registered");
    assert_eq!(node.get_middlewares(), vec![11usize, 12usize]);
}

#[test]
fn search_needs_a_terminal_node() {
    let mut root = Node::new();
    let parts = parse_pattern("/user/index");
    root.insert("/user/index", &parts, None, 0);
    // `/user` exists as an inner node but is not terminal.
    let probe = parse_pattern("/user");
    assert!(root.search(&probe, 0).is_none());
}

#[test]
fn handler_lookup_is_per_method() {
    let mut router = Router::new();
    router.add_route("GET", "/x", None, 1);
    router.add_route("POST", "/x", None, 2);
    assert_eq!(router.get_handler("GET", "/x"), Some(1));
    assert_eq!(router.get_handler("POST", "/x"), Some(2));
    assert_eq!(router.get_handler("PUT", "/x"), None);
}

#[test]
fn bare_wildcard_is_not_a_binding_case() {
    // A pattern that is nothing but a wildcard matches, yet binds nothing:
    // wildcard binding needs more than one segment in the pattern.
    let mut router = Router::new();
    router.add_route("GET", "/*file", None, 1);
    let (node, params) = router.get_route("GET", "/whatever");
    assert!(node.is_some());
    assert_eq!(params.len(), 0);
}

#[test]
fn empty_path_matches_nothing() {
    let mut router = Router::new();
    router.add_route("GET", "/x", None, 1);
    let (node, params) = router.get_route("GET", "");
    assert!(node.is_none());
    assert_eq!(params.len(), 0);
}
