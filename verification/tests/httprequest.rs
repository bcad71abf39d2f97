use httpserver::headers::Headers;
use httpserver::httprequest::{header_line, req_line, HttpRequest, Method, Resource, Version};

fn parse(raw: &str) -> HttpRequest {
    HttpRequest::try_parse(raw.to_string()).expect("every request line has three tokens")
}

fn header<'a>(req: &'a HttpRequest, name: &str) -> Option<&'a str> {
    req.headers.get(name).map(|v| v.as_str())
}

#[test]
fn test_method_into() {
    let s: Method = "GET".into();
    assert_eq!(s, Method::Get);
}

#[test]
fn test_version_into() {
    let s: Version = "HTTP/1.1".into();
    assert_eq!(s, Version::V1_1);
}

#[test]
fn test_read_http() {
    let s: String = String::from("GET /greeting HTTP/1.1 \r\nHost: localhost:3000\r\nUser-Agent: curl/7.71.1\r\nAccept: */*\r\n\r\n");
    let mut headers_expected = Headers::new();
    headers_expected.insert("Host".into(), " localhost:3000".into());
    headers_expected.insert("User-Agent".into(), " curl/7.71.1".into());
    headers_expected.insert("Accept".into(), " */*".into());
    let req: HttpRequest = HttpRequest::parse(s);

    assert_eq!(Method::Get, req.method);
    assert_eq!(Version::V1_1, req.version);
    assert_eq!(Resource::Path("/greeting".to_string()), req.resource);
    assert_eq!(headers_expected, req.headers);
}

#[test]
fn method_of_each_verb() {
    assert_eq!(Method::from("GET"), Method::Get);
    assert_eq!(Method::from("POST"), Method::Post);
    assert_eq!(Method::from("PUT"), Method::Uninitialization);
    assert_eq!(Method::from("get"), Method::Uninitialization);
    assert_eq!(Method::from("GETS"), Method::Uninitialization);
    assert_eq!(Method::from(""), Method::Uninitialization);
}

#[test]
fn version_of_each_name() {
    assert_eq!(Version::from("HTTP/1.1"), Version::V1_1);
    assert_eq!(Version::from("HTTP/1.0"), Version::Uninitialization);
    assert_eq!(Version::from("HTTP/2.0"), Version::Uninitialization);
    assert_eq!(Version::from("http/1.1"), Version::Uninitialization);
    assert_eq!(Version::from(""), Version::Uninitialization);
}

#[test]
fn request_with_one_header() {
    let req = parse("GET /greeting HTTP/1.1 \r\nHost: localhost:3000\r\n\r\n");
    assert_eq!(req.method, Method::Get);
    assert_eq!(req.version, Version::V1_1);
    assert_eq!(req.resource, Resource::Path("/greeting".to_string()));
    assert_eq!(req.headers.len(), 1);
    assert_eq!(header(&req, "Host"), Some(" localhost:3000"));
    assert_eq!(req.msg_body, "");
}

#[test]
fn message_without_http() {
    for raw in ["", "hello rust", "\r\n\r\n", "GET /greeting\nplain words\n", "\n\nbody"] {
        let req = parse(raw);
        assert_eq!(req.method, Method::Uninitialization);
        assert_eq!(req.resource, Resource::Path(String::new()));
        assert_eq!(req.headers, Headers::new());
        assert_eq!(req.version, Version::Uninitialization);
    }
}

#[test]
fn message_without_http_keeps_its_headers() {
    let req = parse("Host: here\r\nwords");
    assert_eq!(req.method, Method::Uninitialization);
    assert_eq!(req.version, Version::Uninitialization);
    assert_eq!(req.resource, Resource::Path(String::new()));
    assert_eq!(req.headers.len(), 1);
    assert_eq!(header(&req, "Host"), Some(" here"));
    assert_eq!(req.msg_body, "words");
}

#[test]
fn header_value_keeps_further_colons() {
    let (key, value) = header_line("X-Data: a:b:c");
    assert_eq!(key, "X-Data");
    assert_eq!(value, " a:b:c");
    let req = parse("GET / HTTP/1.1\r\nX-Data: a:b:c\r\n");
    assert_eq!(header(&req, "X-Data"), Some(" a:b:c"));
}

#[test]
fn header_line_edges() {
    assert_eq!(header_line("Accept:"), ("Accept".to_string(), String::new()));
    assert_eq!(header_line(":value"), (String::new(), "value".to_string()));
    assert_eq!(header_line(":"), (String::new(), String::new()));
    assert_eq!(header_line("no colon"), ("no colon".to_string(), String::new()));
    assert_eq!(header_line(""), (String::new(), String::new()));
    assert_eq!(header_line("K:  v  "), ("K".to_string(), "  v  ".to_string()));
    assert_eq!(header_line("Nom: caf\u{e9}:x"), ("Nom".to_string(), " caf\u{e9}:x".to_string()));
}

#[test]
fn request_line_tokens() {
    assert_eq!(
        req_line("POST /submit HTTP/1.1"),
        (Method::Post, Resource::Path("/submit".to_string()), Version::V1_1)
    );
    assert_eq!(
        req_line("  GET\t/a   HTTP/1.0  trailing words"),
        (Method::Get, Resource::Path("/a".to_string()), Version::Uninitialization)
    );
    assert_eq!(
        req_line("DELETE\u{a0}/x\u{3000}HTTP/1.1"),
        (Method::Uninitialization, Resource::Path("/x".to_string()), Version::V1_1)
    );
    assert_eq!(
        req_line("HTTP/1.1 GET /"),
        (Method::Uninitialization, Resource::Path("GET".to_string()), Version::Uninitialization)
    );
}

#[test]
fn request_line_with_missing_tokens_gives_no_request() {
    assert!(HttpRequest::try_parse("HTTP".to_string()).is_none());
    assert!(HttpRequest::try_parse("GET HTTP/1.1".to_string()).is_none());
    assert!(HttpRequest::try_parse("GET / HTTP/1.1\r\nHost: a\r\nHTTP x\r\n".to_string()).is_none());
    assert!(HttpRequest::try_parse("X-Proto: HTTP\r\n".to_string()).is_none());
    assert!(HttpRequest::try_parse("GET / HTTP/1.1".to_string()).is_some());
    assert!(HttpRequest::try_parse("a b HTTP".to_string()).is_some());
}

#[test]
fn line_with_http_is_a_request_line_even_with_a_colon() {
    let req = parse("GET / HTTP/1.1\r\nVia: 1.1 HTTP/1.1 proxy\r\n");
    assert_eq!(req.method, Method::Uninitialization);
    assert_eq!(req.resource, Resource::Path("1.1".to_string()));
    assert_eq!(req.version, Version::V1_1);
    assert_eq!(req.headers.len(), 0);
}

#[test]
fn last_request_line_wins() {
    let req = parse("GET /first HTTP/1.1\r\nbody\r\nPOST /second HTTP/1.0\r\n");
    assert_eq!(req.method, Method::Post);
    assert_eq!(req.resource, Resource::Path("/second".to_string()));
    assert_eq!(req.version, Version::Uninitialization);
    assert_eq!(req.msg_body, "body");
}

#[test]
fn last_body_line_wins() {
    let req = parse("GET / HTTP/1.1\r\n\r\nfirst\r\nsecond\r\n");
    assert_eq!(req.msg_body, "second");
    let req = parse("GET / HTTP/1.1\r\n\r\nonly");
    assert_eq!(req.msg_body, "only");
    let req = parse("GET / HTTP/1.1\r\n\r\n");
    assert_eq!(req.msg_body, "");
}

#[test]
fn last_header_of_a_name_wins() {
    let req = parse("GET / HTTP/1.1\r\nA: 1\r\nB: 2\r\nA: 3\r\n");
    assert_eq!(req.headers.len(), 2);
    assert_eq!(header(&req, "A"), Some(" 3"));
    assert_eq!(header(&req, "B"), Some(" 2"));
    assert_eq!(header(&req, "a"), None);
}

#[test]
fn empty_lines_change_nothing() {
    let with = parse("\r\n\r\nGET /x HTTP/1.1\r\n\r\n\r\nHost: h\r\n\r\n\r\nbody\r\n\r\n");
    let without = parse("GET /x HTTP/1.1\r\nHost: h\r\nbody");
    assert_eq!(with.method, without.method);
    assert_eq!(with.version, without.version);
    assert_eq!(with.resource, without.resource);
    assert_eq!(with.headers, without.headers);
    assert_eq!(with.msg_body, without.msg_body);
    assert_eq!(with.msg_body, "body");
}

#[test]
fn lines_end_at_line_feeds() {
    let req = parse("GET /x HTTP/1.1\nHost: h\nbody\n");
    assert_eq!(req.resource, Resource::Path("/x".to_string()));
    assert_eq!(header(&req, "Host"), Some(" h"));
    assert_eq!(req.msg_body, "body");
    // a carriage return inside a line, or at the very end without a line feed, stays
    let req = parse("GET /x HTTP/1.1\r\nK: a\rb\r\nlast\r");
    assert_eq!(header(&req, "K"), Some(" a\rb"));
    assert_eq!(req.msg_body, "last\r");
    // only one carriage return is taken off
    let req = parse("K: v\r\r\n");
    assert_eq!(header(&req, "K"), Some(" v\r"));
}

#[test]
fn what_follows_the_request_fills_the_body() {
    let mut raw = String::from("GET / HTTP/1.1\r\n\r\n");
    raw.push_str(&"\0".repeat(8));
    let req = parse(&raw);
    assert_eq!(req.method, Method::Get);
    assert_eq!(req.msg_body, "\0".repeat(8));
}

#[test]
fn version_without_a_request_line_is_not_recognized() {
    for raw in ["", "hello rust", "Host: a", "Host: a\r\n\r\nbody", "1.1\r\n"] {
        assert_eq!(parse(raw).version, Version::Uninitialization, "{:?}", raw);
    }
    assert_eq!(parse("body\r\nGET / HTTP/1.1").version, Version::V1_1);
    assert_eq!(parse("GET / HTTP/1.0").version, Version::Uninitialization);
}
