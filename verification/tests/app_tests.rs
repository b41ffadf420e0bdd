use myapi_rust::dict::Dict;
use myapi_rust::handler::{JsonHandler, NoopHandler, SendHandler};
use myapi_rust::methods::HttpMethod;
use myapi_rust::request::Request;
use myapi_rust::response::Response;
use myapi_rust::router::Router;
use myapi_rust::server::{handle_request, resolve_any};
use myapi_rust::status::HttpStatus;

#[test]
fn response_send() {
    let mut res = Response::empty();
    res.send("Hello, World!");
    let body = res.get_body().unwrap();
    assert_eq!(body.as_slice(), "Hello, World!".as_bytes());
}

#[test]
fn response_json() {
    let mut res = Response::empty();
    res.json(r#"{"message": "Hello, World!"}"#);
    let body = res.get_body().unwrap();
    assert_eq!(body.as_slice(), r#"{"message": "Hello, World!"}"#.as_bytes());
}

#[test]
fn response_defaults() {
    let res = Response::empty();
    assert_eq!(res.get_status().as_str(), "404 Not Found");
    assert_eq!(res.get_version(), "HTTP/1.1");
    assert_eq!(res.get_body().unwrap().len(), 0);
}

#[test]
fn response_render_exact() {
    let mut res = Response::empty();
    res.set_status(HttpStatus::Okay);
    res.send("hi");
    let text = String::from_utf8(res.render()).unwrap();
    assert_eq!(text, "HTTP/1.1 200 OK\r\nContent-Type: text/plain\r\n\r\nhi");
}

#[test]
fn response_render_no_headers() {
    let res = Response::empty();
    let text = String::from_utf8(res.render()).unwrap();
    assert_eq!(text, "HTTP/1.1 404 Not Found\r\n\r\n");
}

#[test]
fn response_new_assembles_parts() {
    let mut base = Response::empty();
    let mut headers = Dict::new();
    headers.insert("X", "1");
    let res = base.new(HttpStatus::Okay, headers, b"core".to_vec());
    assert_eq!(res.get_status().as_str(), "200 OK");
    assert_eq!(res.get_header_field("X").unwrap(), "1");
    assert_eq!(res.get_body().unwrap().as_slice(), b"core");
    assert_eq!(base.get_status().as_str(), "404 Not Found");
}

#[test]
fn status_texts() {
    assert_eq!(HttpStatus::Okay.as_str(), "200 OK");
    assert_eq!(HttpStatus::BadRequest.as_str(), "400 Bad Request");
    assert_eq!(HttpStatus::NotFound.as_str(), "404 Not Found");
    assert_eq!(HttpStatus::InternalServerError.as_str(), "500 Internal Server Error");
}

#[test]
fn hello_world_scenario() {
    let mut router: Router<SendHandler> = Router::new();
    router.get("/hello", SendHandler { body: "Hello World".to_string() });
    let req = Request::new("GET /hello HTTP/1.1\r\n\r\n").unwrap();
    let res = router.resolve(&req);
    assert_eq!(res.get_status().as_str(), "200 OK");
    assert_eq!(res.get_body().unwrap().as_slice(), "Hello World".as_bytes());
    assert_eq!(res.get_header_field("Content-Type").unwrap(), "text/plain");
    let text = String::from_utf8(res.render()).unwrap();
    assert!(text.contains("Content-Type: text/plain"));
}

#[test]
fn handle_request_ok() {
    let mut router: Router<SendHandler> = Router::new();
    router.get("/hello", SendHandler { body: "Hello World".to_string() });
    let routers = vec![router];
    let out = handle_request(&routers, b"GET /hello HTTP/1.1\r\n\r\n");
    let text = String::from_utf8(out).unwrap();
    assert!(text.starts_with("HTTP/1.1 200 OK"));
    assert!(text.ends_with("Hello World"));
}

#[test]
fn handle_request_not_parsed() {
    let routers: Vec<Router<NoopHandler>> = vec![Router::new()];
    let out = handle_request(&routers, b"BLA\r\n\r\n");
    let text = String::from_utf8(out).unwrap();
    assert_eq!(text, "HTTP/1.1 400 Bad Request\r\n\r\n");
}

#[test]
fn handle_request_not_text() {
    let routers: Vec<Router<NoopHandler>> = vec![Router::new()];
    let out = handle_request(&routers, &[0xff, 0xfe, 0x20]);
    let text = String::from_utf8(out).unwrap();
    assert_eq!(text, "HTTP/1.1 400 Bad Request\r\n\r\n");
}

#[test]
fn first_router_wins_mundo() {
    let mut first: Router<SendHandler> = Router::new();
    first.get("/mundo", SendHandler { body: "Hola mundo app".to_string() });
    let mut second: Router<SendHandler> = Router::new();
    second.get("/mundo", SendHandler { body: "Hola Mundo hola".to_string() });
    let routers = vec![first, second];
    let req = Request::new("GET /mundo HTTP/1.1\r\n\r\n").unwrap();
    let res = resolve_any(&routers, &req);
    assert_eq!(res.get_body().unwrap().as_slice(), "Hola mundo app".as_bytes());
}

#[test]
fn later_router_answers_when_first_misses() {
    let first: Router<SendHandler> = Router::new();
    let mut second: Router<SendHandler> = Router::new();
    second.get("/caracola", SendHandler { body: "Hola Caracola hola".to_string() });
    let routers = vec![first, second];
    let req = Request::new("GET /caracola HTTP/1.1\r\n\r\n").unwrap();
    let res = resolve_any(&routers, &req);
    assert_eq!(res.get_status().as_str(), "200 OK");
    assert_eq!(res.get_body().unwrap().as_slice(), "Hola Caracola hola".as_bytes());
}

#[test]
fn json_handler_sets_content_type() {
    let mut router: Router<JsonHandler> = Router::new();
    router.get("/json", JsonHandler { body: r#"{"message": "Hello World"}"#.to_string() });
    let req = Request::new("GET /json HTTP/1.1\r\n\r\n").unwrap();
    let res = router.resolve(&req);
    let text = String::from_utf8(res.render()).unwrap();
    assert!(text.contains("Content-Type: application/json"));
    assert!(text.ends_with(r#"{"message": "Hello World"}"#));
}

#[test]
fn post_route_method_respected() {
    let mut router: Router<SendHandler> = Router::new();
    router.post("/epa", SendHandler { body: "Goodbye World".to_string() });
    let hit = Request::new("POST /epa HTTP/1.1\r\n\r\n").unwrap();
    assert_eq!(router.resolve(&hit).get_status().as_str(), "200 OK");
    let miss = Request::new("GET /epa HTTP/1.1\r\n\r\n").unwrap();
    assert_eq!(router.resolve(&miss).get_status().as_str(), "404 Not Found");
}

#[test]
fn methods_parse_and_render() {
    assert_eq!(HttpMethod::parse("GET"), Some(HttpMethod::GET));
    assert_eq!(HttpMethod::parse("PATCH"), Some(HttpMethod::PATCH));
    assert_eq!(HttpMethod::parse("get"), None);
    assert_eq!(HttpMethod::from_str("DELETE"), HttpMethod::DELETE);
    assert_eq!(HttpMethod::OPTIONS.as_str(), "OPTIONS");
}
