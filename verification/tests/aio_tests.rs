use aero::aio::application::Aero;
use aero::aio::context::{Handler, Midwarer, NextStep};
use aero::aio::response::Response;
use aero::aio::router::Router;

#[test]
fn chain_runs_middlewares_then_handler() {
    let mut app = Aero::new("127.0.0.1:3000");
    app.with(10);
    app.with(11);
    app.get("/api/v1/books", 7);
    let mut ctx = app.request_context();
    assert_eq!(ctx.body, "111222");
    assert_eq!(ctx.path, "/api/v1/books");
    assert_eq!(ctx.method, "GET");
    assert_eq!(ctx.status, 200);
    assert_eq!(ctx.resp, Response {});
    assert_eq!(ctx.tail, vec![10, 11]);
    assert_eq!(ctx.next(), NextStep::Middleware(10));
    assert_eq!(ctx.next(), NextStep::Middleware(11));
    assert_eq!(ctx.next(), NextStep::Handler(7));
    assert_eq!(ctx.next(), NextStep::Handler(7));
}

#[test]
fn status_sets_code() {
    let mut app = Aero::new("a");
    app.post("/x", 1);
    let mut ctx = app.request_context();
    ctx.status(404).status(201);
    assert_eq!(ctx.status, 201);
    let before = ctx.clone();
    ctx.send_text("ignored".to_string());
    assert_eq!(ctx.body, before.body);
}

#[test]
fn mount_prefixes_handlers_and_middlewares() {
    let mut app = Aero::new("a");
    app.with(1);
    let mut router = Router::new("/test");
    router.get("/", 2);
    router.post("/p", 3);
    router.with(4);
    app.mount(router);
    assert_eq!(app.handlers, vec![
        Handler { path: "/test/".to_string(), method: "GET".to_string(), func: 2 },
        Handler { path: "/test/p".to_string(), method: "POST".to_string(), func: 3 },
    ]);
    assert_eq!(app.middlewares, vec![
        Midwarer { path: "/".to_string(), func: 1 },
        Midwarer { path: "/test/".to_string(), func: 4 },
    ]);
}
