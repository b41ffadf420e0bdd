use myapi_rust::handler::{NoopHandler, ParamHandler, SendHandler};
use myapi_rust::methods::HttpMethod;
use myapi_rust::request::Request;
use myapi_rust::route::Route;
use myapi_rust::router::Router;

#[test]
fn store_route() {
    let mut router: Router<NoopHandler> = Router::new();
    router.store_route(HttpMethod::GET, "/hello", NoopHandler);

    let req_str =
        "GET /hello HTTP/1.1\r\nHost: localhost:4221\r\nUser-Agent: curl/7.68.0\r\nAccept: */*\r\n\r\n";
    let req = Request::new(req_str).unwrap();
    let res = router.resolve(&req);
    assert_eq!(res.get_status().as_str(), "200 OK");
}

#[test]
fn not_found() {
    let router: Router<NoopHandler> = Router::new();

    let req_str =
        "GET /world HTTP/1.1\r\nHost: localhost:4221\r\nUser-Agent: curl/7.68.0\r\nAccept: */*\r\n\r\n";
    let req = Request::new(req_str).unwrap();
    let res = router.resolve(&req);
    assert_eq!(res.get_status().as_str(), "404 Not Found");
}

#[test]
fn resolve_ok() {
    let mut router: Router<NoopHandler> = Router::new();
    router.store_route(HttpMethod::GET, "/hello", NoopHandler);
    let req = Request::new(
        "GET /hello HTTP/1.1\r\nHost: localhost:4221\r\nUser-Agent: curl/7.68.0\r\nAccept: */*\r\n\r\n",
    )
    .unwrap();
    let res = router.resolve(&req);
    assert_eq!(res.get_status().as_str(), "200 OK");
}

#[test]
fn resolve_not_found() {
    let router: Router<NoopHandler> = Router::new();
    let req = Request::new(
        "GET /world HTTP/1.1\r\nHost: localhost:4221\r\nUser-Agent: curl/7.68.0\r\nAccept: */*\r\n\r\n",
    )
    .unwrap();
    let res = router.resolve(&req);
    assert_eq!(res.get_status().as_str(), "404 Not Found");
}

#[test]
fn route_params_bound() {
    let req = Request::new("GET /hey/John/Doe HTTP/1.1\r\n\r\n").unwrap();

    let mut by_name: Router<ParamHandler> = Router::new();
    by_name.get("/hey/:name/:lastname", ParamHandler { name: "name".to_string() });
    let res = by_name.resolve(&req);
    assert_eq!(res.get_status().as_str(), "200 OK");
    assert_eq!(res.get_body().unwrap().as_slice(), "John".as_bytes());

    let mut by_lastname: Router<ParamHandler> = Router::new();
    by_lastname.get("/hey/:name/:lastname", ParamHandler { name: "lastname".to_string() });
    let res2 = by_lastname.resolve(&req);
    assert_eq!(res2.get_body().unwrap().as_slice(), "Doe".as_bytes());
}

#[test]
fn unbound_param_gives_empty_body() {
    let mut router: Router<ParamHandler> = Router::new();
    router.get("/buenas/:name", ParamHandler { name: "missing".to_string() });
    let req = Request::new("GET /buenas/Juan HTTP/1.1\r\n\r\n").unwrap();
    let res = router.resolve(&req);
    assert_eq!(res.get_status().as_str(), "200 OK");
    assert_eq!(res.get_body().unwrap().len(), 0);
}

#[test]
fn unmatched_is_untouched_default() {
    let mut router: Router<SendHandler> = Router::new();
    router.get("/hello", SendHandler { body: "Hello World".to_string() });
    let req = Request::new("GET /missing HTTP/1.1\r\n\r\n").unwrap();
    let res = router.resolve(&req);
    assert_eq!(res.get_status().as_str(), "404 Not Found");
    assert_eq!(res.get_body().unwrap().len(), 0);
    assert_eq!(
        String::from_utf8(res.render()).unwrap(),
        "HTTP/1.1 404 Not Found\r\n\r\n"
    );
}

#[test]
fn resolve_twice_same_outcome() {
    let mut router: Router<SendHandler> = Router::new();
    router.get("/bye", SendHandler { body: "Goodbye World".to_string() });
    let req = Request::new("GET /bye HTTP/1.1\r\n\r\n").unwrap();
    let first = router.resolve(&req);
    let second = router.resolve(&req);
    assert_eq!(first.get_status().as_str(), second.get_status().as_str());
    assert_eq!(first.get_body().unwrap(), second.get_body().unwrap());
}

#[test]
fn first_registered_route_wins() {
    let mut router: Router<SendHandler> = Router::new();
    router.get("/mundo", SendHandler { body: "first".to_string() });
    router.get("/mundo", SendHandler { body: "second".to_string() });
    let req = Request::new("GET /mundo HTTP/1.1\r\n\r\n").unwrap();
    let res = router.resolve(&req);
    assert_eq!(res.get_body().unwrap().as_slice(), "first".as_bytes());
}

#[test]
fn mounted_prefix_applies() {
    let mut router: Router<NoopHandler> = Router::new();
    router.mount("/api");
    router.get("/x", NoopHandler);
    let hit = Request::new("GET /api/x HTTP/1.1\r\n\r\n").unwrap();
    assert_eq!(router.resolve(&hit).get_status().as_str(), "200 OK");
    let miss = Request::new("GET /x HTTP/1.1\r\n\r\n").unwrap();
    assert_eq!(router.resolve(&miss).get_status().as_str(), "404 Not Found");
    assert_eq!(router.get_path(), "/api");
}

#[test]
fn whole_path_must_match() {
    let mut router: Router<NoopHandler> = Router::new();
    router.get("/hey/:name", NoopHandler);
    let trailing = Request::new("GET /hey/John/ HTTP/1.1\r\n\r\n").unwrap();
    assert_eq!(router.resolve(&trailing).get_status().as_str(), "404 Not Found");
    let shorter = Request::new("GET /hey HTTP/1.1\r\n\r\n").unwrap();
    assert_eq!(router.resolve(&shorter).get_status().as_str(), "404 Not Found");
    let empty_capture = Request::new("GET /hey// HTTP/1.1\r\n\r\n").unwrap();
    assert_eq!(router.resolve(&empty_capture).get_status().as_str(), "404 Not Found");
}

#[test]
fn route_compiles_template() {
    let route: Route<NoopHandler> = Route::new("/hey/:name/:lastname", NoopHandler);
    assert_eq!(route.get_uri(), "/hey/:name/:lastname");
    assert!(route.has_parameters());
    assert_eq!(
        route.get_parameters().clone(),
        vec!["name".to_string(), "lastname".to_string()]
    );
    assert_eq!(route.get_regex(), "^/hey/([^/]+)/([^/]+)");
    assert!(route.matches("/hey/John/Doe"));
    assert!(!route.matches("/hey/John"));
    assert!(!route.matches("/bye/John/Doe"));
}

#[test]
fn literal_route_needs_exact_path() {
    let route: Route<NoopHandler> = Route::new("/hello", NoopHandler);
    assert!(!route.has_parameters());
    assert!(route.matches("/hello"));
    assert!(!route.matches("/hello/there"));
    assert!(!route.matches("/hell"));
}

#[test]
fn adjacent_slashes_in_template_collapse() {
    let route: Route<NoopHandler> = Route::new("//hello///world", NoopHandler);
    assert!(route.matches("/hello/world"));
}
