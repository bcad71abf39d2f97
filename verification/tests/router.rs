use httpserver::handler::{Handler, PageNotFoundHandler, NOT_FOUND_BODY};
use httpserver::headers::Headers;
use httpserver::httprequest::{HttpRequest, Method, Resource, Version};
use httpserver::httpresponse::HttpResponse;
use httpserver::router::{path_segment, Route, Router};
use httpserver::server::{answer as answer_message, Server, READ_BUFFER_SIZE};

struct Api;

impl Handler for Api {
    fn handle(_req: &HttpRequest) -> HttpResponse {
        HttpResponse::new("200", None, Some("api".into()))
    }
}

struct Pages;

impl Handler for Pages {
    fn handle(req: &HttpRequest) -> HttpResponse {
        let Resource::Path(path) = &req.resource;
        HttpResponse::new("200", None, Some(format!("page {}", path)))
    }
}

fn request(method: Method, path: &str) -> HttpRequest {
    HttpRequest {
        method,
        version: Version::V1_1,
        resource: Resource::Path(path.to_string()),
        headers: Headers::new(),
        msg_body: String::new(),
    }
}

fn answer(method: Method, path: &str) -> String {
    let mut out: Vec<u8> = Vec::new();
    Router::router::<Api, Pages>(request(method, path), &mut out);
    String::from_utf8(out).expect("a response is text")
}

fn not_found_text() -> String {
    format!(
        "HTTP/1.1 404 not found\r\nContent-Type:text/html\r\nContent-Length:{}\r\n\r\n{}",
        NOT_FOUND_BODY.len(),
        NOT_FOUND_BODY
    )
}

#[test]
fn routes_of_the_examples() {
    assert_eq!(Router::route(&request(Method::Get, "/api/x")), Route::Api);
    assert_eq!(Router::route(&request(Method::Get, "/anything")), Route::StaticPage);
    assert_eq!(Router::route(&request(Method::Post, "/api/x")), Route::NotFound);
    assert_eq!(Router::route(&request(Method::Get, "/")), Route::StaticPage);
}

#[test]
fn only_get_is_served() {
    for path in ["/api/x", "/", "", "/index.html", "api"] {
        assert_eq!(Router::route(&request(Method::Post, path)), Route::NotFound);
        assert_eq!(Router::route(&request(Method::Uninitialization, path)), Route::NotFound);
    }
}

#[test]
fn the_piece_after_the_first_slash_decides() {
    let api = ["/api", "/api/", "/api/shipping/orders", "x/api", "x/api/y", "/api//"];
    for path in api {
        assert_eq!(Router::route(&request(Method::Get, path)), Route::Api, "{:?}", path);
    }
    let pages = [
        "/",
        "//api",
        "/apis",
        "/ap",
        "/API",
        "/x/api",
        "/health",
        "/index.html",
        "/ api",
        "/api?x=1",
    ];
    for path in pages {
        assert_eq!(Router::route(&request(Method::Get, path)), Route::StaticPage, "{:?}", path);
    }
}

#[test]
fn a_path_without_a_slash_goes_to_the_pages() {
    for path in ["", "api", "index.html", "a b"] {
        assert_eq!(Router::route(&request(Method::Get, path)), Route::StaticPage, "{:?}", path);
    }
}

#[test]
fn the_route_is_that_of_split() {
    for path in ["/api/x", "/", "", "api", "/api", "a/api/b", "//api", "/apix/api"] {
        let second = path.split('/').nth(1);
        let expected = if second == Some("api") { Route::Api } else { Route::StaticPage };
        assert_eq!(Router::route(&request(Method::Get, path)), expected, "{:?}", path);
    }
}

#[test]
fn router_writes_the_answer_of_the_chosen_handler() {
    assert_eq!(
        answer(Method::Get, "/api/x"),
        "HTTP/1.1 200 OK\r\nContent-Type:text/html\r\nContent-Length:3\r\n\r\napi"
    );
    assert_eq!(
        answer(Method::Get, "/anything"),
        "HTTP/1.1 200 OK\r\nContent-Type:text/html\r\nContent-Length:14\r\n\r\npage /anything"
    );
    assert_eq!(
        answer(Method::Get, "/"),
        "HTTP/1.1 200 OK\r\nContent-Type:text/html\r\nContent-Length:6\r\n\r\npage /"
    );
    assert_eq!(answer(Method::Post, "/api/x"), not_found_text());
    assert_eq!(answer(Method::Uninitialization, ""), not_found_text());
}

#[test]
fn router_appends_one_response() {
    let mut out: Vec<u8> = b"kept".to_vec();
    Router::router::<Api, Pages>(request(Method::Post, "/"), &mut out);
    assert_eq!(out, format!("kept{}", not_found_text()).into_bytes());
}

#[test]
fn not_found_handler_ignores_the_request() {
    let (get, post) = (request(Method::Get, "/api/x"), request(Method::Post, ""));
    let a = PageNotFoundHandler::handle(&get);
    let b = PageNotFoundHandler::handle(&post);
    assert_eq!(a, b);
    assert_eq!(a.status_code(), "404");
    assert_eq!(a.status_text(), "not found");
    assert_eq!(a.body(), NOT_FOUND_BODY);
    assert!(a.has_body());
    assert_eq!(a.serialize(), not_found_text());
}

#[test]
fn parsed_request_is_routed() {
    let raw = "GET /api/shipping/orders HTTP/1.1 \r\nHost: localhost:3000\r\n\r\n";
    let req = HttpRequest::try_parse(raw.to_string()).expect("a request line with three tokens");
    assert_eq!(Router::route(&req), Route::Api);
    let req = HttpRequest::try_parse("hello rust".to_string()).expect("no request line at all");
    assert_eq!(Router::route(&req), Route::NotFound);
}

#[test]
fn server_keeps_its_address() {
    let server = Server::new("localhost:7878");
    assert_eq!(server.socket_addr(), "localhost:7878");
    assert_eq!(Server::new("").socket_addr(), "");
    assert_eq!(READ_BUFFER_SIZE, 512);
}

#[test]
fn pieces_of_a_path() {
    for path in ["/api/x", "/", "", "api", "/api", "a/api/b", "//api", "/a//b/", "caf\u{e9}/\u{1F600}"] {
        let expected: Vec<&str> = path.split('/').collect();
        for k in 0..expected.len() + 2 {
            assert_eq!(
                path_segment(path, k),
                expected.get(k).map(|piece| piece.to_string()),
                "{:?} {}",
                path,
                k
            );
        }
    }
    assert_eq!(path_segment("/api/x", 0), Some(String::new()));
    assert_eq!(path_segment("/api/x", 1), Some("api".to_string()));
    assert_eq!(path_segment("/api/x", 2), Some("x".to_string()));
    assert_eq!(path_segment("/api/x", 3), None);
    assert_eq!(path_segment("", 0), Some(String::new()));
    assert_eq!(path_segment("", 1), None);
}

#[test]
fn a_message_is_answered() {
    let mut out: Vec<u8> = Vec::new();
    let message = "GET /api/shipping/orders HTTP/1.1 \r\nHost: localhost:3000\r\n\r\n";
    assert!(answer_message::<Api, Pages>(message.to_string(), &mut out));
    assert_eq!(out, b"HTTP/1.1 200 OK\r\nContent-Type:text/html\r\nContent-Length:3\r\n\r\napi".to_vec());

    let mut out: Vec<u8> = Vec::new();
    assert!(answer_message::<Api, Pages>("GET /index.html HTTP/1.1\r\n".to_string(), &mut out));
    assert_eq!(
        out,
        b"HTTP/1.1 200 OK\r\nContent-Type:text/html\r\nContent-Length:16\r\n\r\npage /index.html".to_vec()
    );

    let mut out: Vec<u8> = Vec::new();
    assert!(answer_message::<Api, Pages>("hello rust".to_string(), &mut out));
    assert_eq!(out, not_found_text().into_bytes());
}

#[test]
fn an_incomplete_request_line_gets_no_answer() {
    let mut out: Vec<u8> = b"kept".to_vec();
    assert!(!answer_message::<Api, Pages>("GET HTTP/1.1\r\n".to_string(), &mut out));
    assert_eq!(out, b"kept".to_vec());
}
