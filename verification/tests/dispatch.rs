use rdd_web::context::Context;
use rdd_web::defer::defer;
use rdd_web::header::ExtractHeaderError;
use rdd_web::engine;
use rdd_web::param::{param, ExtractParamError};
use rdd_web::params::Params;
use rdd_web::recovery::{recovery, FAILURE_BODY};

/// A tiny host: takes one continuation step and interprets the handler
/// identifier the cursor hands back, logging every handler that runs.
fn step(ctx: &mut Context, log: &mut Vec<usize>) {
    if let Some(h) = ctx.next() {
        invoke(h, ctx, log);
    }
}

/// The handlers of these tests, by identifier: `1` is a middleware that
/// calls the continuation and returns, `2` short-circuits the chain, `4`
/// never calls the continuation; everything else is a plain leaf.
fn invoke(h: usize, ctx: &mut Context, log: &mut Vec<usize>) {
    log.push(h);
    match h {
        1 => step(ctx, log),
        2 => ctx.done(),
        4 => {}
        _ => {}
    }
}

#[test]
fn matched_route_assembles_the_full_chain() {
    let e = engine::new();
    let e = e.hooks(1);
    let e = e.get("/hello", 9);
    let (ctx, matched) = e.handler("GET", "/hello");
    assert!(matched);
    assert_eq!(ctx.handlers, vec![1usize, 9usize]);
    assert_eq!(ctx.method, "GET".to_string());
    assert_eq!(ctx.path, "/hello".to_string());
}

#[test]
fn unmatched_route_keeps_global_middleware() {
    let e = engine::new();
    let e = e.hooks(1);
    let e = e.get("/x", 9);
    let (ctx, matched) = e.handler("DELETE", "/x");
    assert!(!matched);
    assert_eq!(ctx.handlers, vec![1usize]);
}

#[test]
fn onion_order_runs_pre_and_post_work() {
    let e = engine::new();
    let e = e.hooks(1);
    let e = e.get("/x", 9);
    let (mut ctx, matched) = e.handler("GET", "/x");
    assert!(matched);
    let mut log = Vec::new();
    step(&mut ctx, &mut log);
    assert_eq!(log, vec![1usize, 9usize]);
}

#[test]
fn a_handler_that_never_continues_ends_the_chain() {
    let e = engine::new();
    let e = e.hooks(4);
    let e = e.hooks(1);
    let e = e.get("/x", 9);
    let (mut ctx, _) = e.handler("GET", "/x");
    let mut log = Vec::new();
    step(&mut ctx, &mut log);
    assert_eq!(log, vec![4usize]);
}

#[test]
fn done_short_circuits_the_rest_of_the_chain() {
    // A middleware that continues, then a handler that short-circuits: the
    // later middleware must never run, even though `1` steps again after its
    // inner call returns.
    let mut ctx = Context::new("GET", "/x");
    ctx.set_chain(vec![1, 2, 3]);
    let mut log = Vec::new();
    step(&mut ctx, &mut log);
    step(&mut ctx, &mut log);
    assert_eq!(log, vec![1usize, 2usize]);
    assert!(!log.contains(&3));
}

#[test]
fn recovery_writes_the_fixed_failure_response() {
    let mut ctx = Context::new("GET", "/x");
    ctx.string(Some(201), "partial body");
    ctx.set_header("x-extra", "leaks");
    recovery(&mut ctx, true);
    assert_eq!(ctx.response.status, 200);
    assert_eq!(ctx.response.body, FAILURE_BODY.to_string());
    assert_eq!(
        ctx.response.headers.get("content-type"),
        Some(&"text/plain; charset=utf-8".to_string())
    );
    assert_eq!(ctx.response.headers.get("x-extra"), None);
}

#[test]
fn recovery_leaves_an_untroubled_run_alone() {
    let mut ctx = Context::new("GET", "/x");
    ctx.string(None, "fine");
    recovery(&mut ctx, false);
    assert_eq!(ctx.response.status, 200);
    assert_eq!(ctx.response.body, "fine".to_string());
}

#[test]
fn last_registration_wins() {
    let e = engine::new();
    let e = e.get("/x", 1);
    let e = e.get("/x", 2);
    let (ctx, matched) = e.handler("GET", "/x");
    assert!(matched);
    assert_eq!(ctx.handlers.last(), Some(&2usize));
    let mut log = Vec::new();
    let mut ctx = ctx;
    step(&mut ctx, &mut log);
    assert_eq!(log, vec![2usize]);
}

#[test]
fn group_middleware_reaches_group_routes() {
    let mut e = engine::new();
    let g = e.group("/api");
    let g = g.get(&mut e, "/users", 9);
    let _g = g.hooks(&mut e, 5);
    let e = e.hooks(1);
    let (ctx, matched) = e.handler("GET", "/api/users");
    assert!(matched);
    assert_eq!(ctx.handlers, vec![1usize, 5usize, 9usize]);
}

#[test]
fn group_middleware_isolation() {
    // A handler registered outside any group never receives the group's
    // middleware in its resolved chain.
    let mut e = engine::new();
    let g = e.group("/api");
    let g = g.get(&mut e, "/users", 9);
    let _g = g.hooks(&mut e, 5);
    let e = e.hooks(1);
    let e = e.get("/plain", 7);
    let (ctx, matched) = e.handler("GET", "/plain");
    assert!(matched);
    assert_eq!(ctx.handlers, vec![1usize, 7usize]);
    assert!(!ctx.handlers.contains(&5));
}

#[test]
fn nested_group_prefixes_concatenate() {
    let mut e = engine::new();
    let v1 = e.group("/v1");
    let admin = v1.group(&mut e, "/admin");
    assert_eq!(admin.prefix, "/v1/admin".to_string());
    let _admin = admin.get(&mut e, "/stats", 3);
    let (ctx, matched) = e.handler("GET", "/v1/admin/stats");
    assert!(matched);
    assert_eq!(ctx.handlers, vec![3usize]);
}

#[test]
fn node_middleware_stands_before_the_terminal_handler() {
    let e = engine::new();
    let e = e.get("/x", 9);
    let e = e.add_hooks("/x", "GET", 6);
    let e = e.hooks(1);
    let (ctx, matched) = e.handler("GET", "/x");
    assert!(matched);
    assert_eq!(ctx.handlers, vec![1usize, 6usize, 9usize]);
}

#[test]
fn params_reach_the_context() {
    let e = engine::new();
    let e = e.get("/hello/:name", 9);
    let (ctx, matched) = e.handler("GET", "/hello/zs");
    assert!(matched);
    assert_eq!(ctx.param("name"), Ok("zs".to_string()));
    match ctx.param("missing") {
        Err(ExtractParamError::MissingParamName { name }) => {
            assert_eq!(name, "missing".to_string())
        }
        other => panic!("expected the missing-parameter failure, got {:?}", other),
    }
}

#[test]
fn params_insert_overwrites() {
    let mut p = Params::new();
    p.insert("k".to_string(), "a".to_string());
    p.insert("k".to_string(), "b".to_string());
    p.insert("other".to_string(), "c".to_string());
    assert_eq!(p.get("k"), Some(&"b".to_string()));
    assert_eq!(p.len(), 2);
    assert_eq!(param(&p, "other"), Ok("c".to_string()));
}

#[test]
fn response_writers_set_headers_and_body() {
    let mut ctx = Context::new("GET", "/x");
    ctx.string(Some(404), "404 not found");
    assert_eq!(ctx.response.status, 404);
    assert_eq!(ctx.response.body, "404 not found".to_string());
    ctx.html("<p>hi</p>");
    assert_eq!(ctx.response.status, 404);
    assert_eq!(ctx.response.body, "<p>hi</p>".to_string());
    assert_eq!(
        ctx.response.headers.get("content-type"),
        Some(&"text/html; chartset=utf-8".to_string())
    );
}

#[test]
fn defer_runs_its_action_once() {
    let mut hits = 0;
    let d = defer(|| hits += 1);
    d.run();
    assert_eq!(hits, 1);
}

#[test]
fn header_error_names_its_header() {
    let missing = ExtractHeaderError::MissingHeader { name: "accept".to_string() };
    assert_eq!(missing.name(), &"accept".to_string());
    let invalid = ExtractHeaderError::InvalidHeader {
        name: "content-length".to_string(),
        source: "not a number".to_string(),
    };
    assert_eq!(invalid.name(), &"content-length".to_string());
}
