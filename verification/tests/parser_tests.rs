use myapi_rust::dict::Dict;
use myapi_rust::formatter::format_regex;
use myapi_rust::methods::HttpMethod;
use myapi_rust::parsers::{get_path, parse_request};
use myapi_rust::request::Request;

#[test]
fn parse_round_trip_concrete() {
    let req = Request::new("GET /hello HTTP/1.1\r\n\r\n").unwrap();
    assert_eq!(req.get_method(), &HttpMethod::GET);
    assert_eq!(req.get_uri(), "/hello");
    let posted = Request::new("POST /epa/2 HTTP/1.1\r\n\r\n").unwrap();
    assert_eq!(posted.get_method(), &HttpMethod::POST);
    assert_eq!(posted.get_uri(), "/epa/2");
}

#[test]
fn parse_headers_and_body() {
    let req = Request::new(
        "GET /x HTTP/1.1\r\nHost: localhost:4221\r\nAccept: */*\r\n\r\nhello body",
    )
    .unwrap();
    assert_eq!(req.get_header_field("Host").unwrap(), "localhost:4221");
    assert_eq!(req.get_header_field("Accept").unwrap(), "*/*");
    assert!(req.get_header_field("Missing").is_none());
    assert!(req.get_header_field("").is_none());
    assert_eq!(req.get_body().unwrap().as_slice(), "hello body".as_bytes());
}

#[test]
fn parse_duplicate_header_last_wins() {
    let req = Request::new("GET /x HTTP/1.1\r\nX-K: 1\r\nX-K: 2\r\n\r\n").unwrap();
    assert_eq!(req.get_header_field("X-K").unwrap(), "2");
}

#[test]
fn parse_without_blank_line_has_no_body() {
    let req = Request::new("GET /x HTTP/1.1\r\nHost: a").unwrap();
    assert_eq!(req.get_header_field("Host").unwrap(), "a");
    assert!(req.get_body().is_none());
}

#[test]
fn parse_rejects_short_request_line() {
    assert!(Request::new("GET1.1\r\n\r\n").is_err());
    assert!(Request::new("GET /hello\r\n\r\n").is_err());
    assert!(Request::new("\r\n\r\n").is_err());
}

#[test]
fn parse_rejects_unknown_method() {
    let err = Request::new("FROB /x HTTP/1.1\r\n\r\n").unwrap_err();
    assert_eq!(err.reason, "unknown method");
}

#[test]
fn parse_rejects_bad_target() {
    assert!(Request::new("GET hello HTTP/1.1\r\n\r\n").is_err());
    assert!(Request::new("GET  HTTP/1.1 x\r\n\r\n").is_err());
}

#[test]
fn parse_rejects_header_without_colon() {
    let err = Request::new("GET /x HTTP/1.1\r\nNoColonHere\r\n\r\n").unwrap_err();
    assert_eq!(err.reason, "malformed header line");
}

#[test]
fn request_setters_and_getters() {
    let mut req = Request::empty();
    assert_eq!(req.get_uri(), "");
    req.set_uri("/abc");
    req.set_method(HttpMethod::PUT);
    req.set_version("HTTP/1.0");
    req.set_header_field("K", "v");
    req.set_body(b"data".to_vec());
    req.set_param("id", "7");
    assert_eq!(req.get_uri(), "/abc");
    assert_eq!(req.get_method(), &HttpMethod::PUT);
    assert_eq!(req.get_header_field("K").unwrap(), "v");
    assert_eq!(req.get_body().unwrap().as_slice(), b"data");
    assert_eq!(req.get_param("id").unwrap(), "7");
    assert!(req.get_param("other").is_none());
}

#[test]
fn request_create_assembles_parts() {
    let mut headers = Dict::new();
    headers.insert("Host", "x");
    let req = Request::create("/made", HttpMethod::DELETE, b"payload".to_vec(), headers);
    assert_eq!(req.get_uri(), "/made");
    assert_eq!(req.get_method(), &HttpMethod::DELETE);
    assert_eq!(req.get_header_field("Host").unwrap(), "x");
    assert_eq!(req.get_body().unwrap().as_slice(), b"payload");
}

#[test]
fn parse_request_fills_and_preserves() {
    let mut req = Request::empty();
    assert!(parse_request("GET /a HTTP/1.1\r\n\r\n".to_string(), &mut req).is_ok());
    assert_eq!(req.get_uri(), "/a");

    let mut untouched = Request::empty();
    untouched.set_uri("/keep");
    let err = parse_request("nope".to_string(), &mut untouched).unwrap_err();
    assert_eq!(err.reason, "malformed request line");
    assert_eq!(untouched.get_uri(), "/keep");
}

#[test]
fn dict_insert_replaces() {
    let mut d = Dict::new();
    assert_eq!(d.len(), 0);
    d.insert("a", "1");
    d.insert("b", "2");
    d.insert("a", "3");
    assert_eq!(d.len(), 2);
    assert_eq!(d.get("a").unwrap(), "3");
    assert_eq!(d.get("b").unwrap(), "2");
    assert!(d.get("c").is_none());
}

#[test]
fn get_path_extracts_target() {
    assert_eq!(get_path("GET /hello HTTP/1.1\r\nHost: a\r\n\r\n".to_string()).unwrap(), "/hello");
    assert_eq!(get_path("GET / HTTP/1.1\r\n\r\n".to_string()).unwrap_err().reason, "empty path");
    assert_eq!(get_path("GET x HTTP/1.1\r\n\r\n".to_string()).unwrap_err().reason, "invalid path");
    assert_eq!(get_path("GET".to_string()).unwrap_err().reason, "invalid path");
}

#[test]
fn format_regex_renders_pattern() {
    let mut params: Vec<String> = Vec::new();
    let regex = format_regex("/hey/:name/:lastname", &mut params);
    assert_eq!(regex, "^/hey/([^/]+)/([^/]+)");
    assert_eq!(params, vec!["name".to_string(), "lastname".to_string()]);

    let mut no_params: Vec<String> = Vec::new();
    let literal = format_regex("/hello", &mut no_params);
    assert_eq!(literal, "^/hello");
    assert!(no_params.is_empty());
}
