use aero::application::{chain_call, final_response, Aero, ChainCall, Context, Handler};
use aero::request::HttpRequest;
use aero::response::HttpResponse;
use aero::router::Router;

#[test]
fn registered_routes_in_order() {
    let mut app = Aero::new("127.0.0.1:3000");
    assert_eq!(app.socket_addr, "127.0.0.1:3000");
    app.hold("/", 0);
    app.get("/hello", 1);
    app.post("/hello", 2);
    assert_eq!(app.layers.len(), 3);
    assert_eq!(app.layers[0], Handler { path: "/".to_string(), method: "ALL".to_string(), func: 0 });
    assert_eq!(app.layers[1], Handler { path: "/hello".to_string(), method: "GET".to_string(), func: 1 });
    assert_eq!(app.layers[2], Handler { path: "/hello".to_string(), method: "POST".to_string(), func: 2 });
}

#[test]
fn routes_by_prefix_and_method() {
    let mut app = Aero::new("a");
    app.hold("/", 0);
    app.get("/hello", 1);
    app.post("/hello", 2);
    app.get("/other", 3);
    assert_eq!(app.handlers_for("GET", "/hello/world"), vec![0, 1]);
    assert_eq!(app.handlers_for("POST", "/hello"), vec![0, 2]);
    assert_eq!(app.handlers_for("PUT", "/hello"), vec![0]);
    assert_eq!(app.handlers_for("GET", "/hell"), vec![0]);
    assert_eq!(app.handlers_for("GET", "other"), Vec::<usize>::new());
}

#[test]
fn mounted_router_prefixes_paths() {
    let mut app = Aero::new("a");
    app.get("/hello", 0);
    let mut router = Router::new("/api");
    assert_eq!(router.prefix, "/api");
    router.get("/book", 1);
    router.post("/book", 2);
    router.hold("", 3);
    app.mount(router);
    assert_eq!(app.layers.len(), 4);
    assert_eq!(app.layers[1].path, "/api/book");
    assert_eq!(app.layers[3].path, "/api");
    assert_eq!(app.layers[3].method, "ALL");
    assert_eq!(app.handlers_for("GET", "/api/book"), vec![1, 3]);
    assert_eq!(app.handlers_for("POST", "/api/book/7"), vec![2, 3]);
    assert_eq!(app.handlers_for("GET", "/book"), Vec::<usize>::new());
}

#[test]
fn route_reads_the_request() {
    let mut app = Aero::new("a");
    app.get("/api", 4);
    let req = HttpRequest::from("GET /api/book HTTP/1.1\r\n\r\n".to_string());
    assert_eq!(app.route(&req), vec![4]);
}

#[test]
fn context_answers() {
    let req = HttpRequest::from("GET / HTTP/1.1\r\n".to_string());
    let res = HttpResponse::default();
    let mut ctx = Context::new(&req, &res);
    assert_eq!(ctx.response().into_string(), "HTTP/1.1 404 Not Found\r\nContent-Type:text/html\r\nContent-Length: 9\r\n\r\nNot Found");
    ctx.send_text("Hello, world!");
    assert_eq!(ctx.body, "Hello, world!");
    assert_eq!(ctx.content_type, "text/html");
    assert_eq!(ctx.response().into_string(), "HTTP/1.1 200 OK\r\nContent-Type:text/html\r\nContent-Length: 13\r\n\r\nHello, world!");
    ctx.send_json("{\"id\":123}".to_string());
    assert_eq!(ctx.content_type, "application/json");
    assert_eq!(ctx.response().into_string(), "HTTP/1.1 200 OK\r\nContent-Type:application/json\r\nContent-Length: 10\r\n\r\n{\"id\":123}");
}

#[test]
fn final_response_by_body() {
    assert_eq!(final_response("", "text/html").status_code(), "404");
    assert_eq!(final_response("", "text/html").body(), "Not Found");
    assert_eq!(final_response("x", "").status_code(), "200");
    assert_eq!(final_response("x", "").headers(), "Content-Type:text/html\r\n");
}

#[test]
fn chain_calls_functions_in_order_then_outer() {
    let ids = vec![4, 1, 9];
    let calls: Vec<ChainCall> = (0..3).map(|p| chain_call(&ids, p)).collect();
    assert_eq!(calls, vec![ChainCall::Func(4), ChainCall::Func(1), ChainCall::Last(9)]);
    assert_eq!(chain_call(&vec![5], 0), ChainCall::Last(5));
    assert_eq!(chain_call(&vec![], 0), ChainCall::Outer);
}

#[test]
fn derived_clones() {
    let mut app = Aero::new("a");
    app.get("/x", 1);
    let copy = app.clone();
    assert_eq!(copy.layers, app.layers);
    let req = HttpRequest::from("GET / HTTP/1.1\r\n".to_string());
    let res = HttpResponse::default();
    let mut ctx = Context::new(&req, &res);
    ctx.send_text("hi");
    let c2 = ctx.clone();
    assert_eq!(c2.body, "hi");
}
