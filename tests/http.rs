use lumine::requests::{parse_header_line, Method, Request};
use lumine::response::Response;
use lumine::router::{Handler, Router, TextHandler};
use lumine::server::{reply, reply_to_text, to_wire_for, Server};
use lumine::requests::headers_of;

struct Reply(&'static str);

impl Handler for Reply {
    fn handle(&self, _req: Request) -> Response {
        Response::text(self.0)
    }
}

struct Echo;

impl Handler for Echo {
    fn handle(&self, req: Request) -> Response {
        Response::new(200, req.body)
    }
}

fn header_lines(wire: &str) -> Vec<String> {
    let head = wire.split("\r\n\r\n").next().unwrap();
    let mut lines: Vec<String> = head.split("\r\n").skip(1).map(|s| s.to_string()).collect();
    lines.sort();
    lines
}

fn value_of(r: &Response, key: &str) -> Option<String> {
    r.headers.iter().find(|(k, _)| k == key).map(|(_, v)| v.clone())
}

#[test]
fn parses_every_method() {
    let all = [
        ("GET", Method::GET),
        ("POST", Method::POST),
        ("PUT", Method::PUT),
        ("PATCH", Method::PATCH),
        ("DELETE", Method::DELETE),
        ("OPTIONS", Method::OPTIONS),
        ("HEAD", Method::HEAD),
    ];
    for (token, m) in all {
        let raw = format!("{} /p HTTP/1.1\r\n\r\n", token);
        let req = Request::from_raw(&raw).unwrap();
        assert_eq!(req.method, m);
        assert_eq!(req.path, "/p");
        assert!(req.body.is_empty());
        assert_eq!(Method::from_str(token), Some(m));
    }
}

#[test]
fn rejects_unknown_method_and_short_lines() {
    assert!(Request::from_raw("FETCH /p HTTP/1.1\r\n\r\n").is_none());
    assert!(Request::from_raw("get /p HTTP/1.1\r\n\r\n").is_none());
    assert!(Request::from_raw("GET\r\n\r\n").is_none());
    assert!(Request::from_raw("").is_none());
    assert!(Request::from_raw("\r\n").is_none());
    assert_eq!(Method::from_str("Get"), None);
}

#[test]
fn version_token_is_optional() {
    let req = Request::from_raw("DELETE   /items/3").unwrap();
    assert_eq!(req.method, Method::DELETE);
    assert_eq!(req.path, "/items/3");
    assert!(req.body.is_empty());
}

#[test]
fn header_line_is_trimmed() {
    let (k, v) = parse_header_line("X-Foo:   bar  ").unwrap();
    assert_eq!(k, "X-Foo");
    assert_eq!(v, "bar");
    let (k, v) = parse_header_line("Host: a:b").unwrap();
    assert_eq!(k, "Host");
    assert_eq!(v, "a:b");
    assert!(parse_header_line("no colon here").is_none());
}

#[test]
fn repeated_header_keeps_last() {
    let raw = "GET / HTTP/1.1\r\nX-Foo: one\r\nAccept: */*\r\nX-Foo:  two \r\n\r\nX-Foo: body";
    let hs = headers_of(raw);
    assert_eq!(hs.len(), 2);
    let foo: Vec<&(String, String)> = hs.iter().filter(|(k, _)| k == "X-Foo").collect();
    assert_eq!(foo.len(), 1);
    assert_eq!(foo[0].1, "two");
}

#[test]
fn body_joins_remaining_lines() {
    let raw = "POST /x HTTP/1.1\r\nContent-Type: text/plain\r\n\r\nline1\r\nline2\nline3";
    let req = Request::from_raw(raw).unwrap();
    assert_eq!(req.method, Method::POST);
    assert_eq!(req.body, b"line1\nline2\nline3".to_vec());
    let req = Request::from_raw("PUT /y HTTP/1.1\r\n\r\na\r\n\r\nb\r\n").unwrap();
    assert_eq!(req.body, b"a\n\nb".to_vec());
}

#[test]
fn new_response_wire_form() {
    let r = Response::new(200, b"hi".to_vec());
    assert_eq!(r.status_text, "OK");
    let wire = String::from_utf8(r.to_http_bytes()).unwrap();
    assert!(wire.starts_with("HTTP/1.1 200 OK\r\n"));
    assert!(wire.ends_with("\r\n\r\nhi"));
    assert_eq!(
        header_lines(&wire),
        vec![
            "Connection: close".to_string(),
            "Content-Length: 2".to_string(),
            "Content-Type: text/plain; charset=utf-8".to_string(),
        ]
    );
    assert_eq!(r.headers.len(), 3);
}

#[test]
fn unknown_status_reads_ok() {
    let r = Response::new(301, b"x".to_vec());
    assert_eq!(r.status_code, 301);
    assert_eq!(r.status_text, "OK");
    let wire = String::from_utf8(r.to_http_bytes()).unwrap();
    assert!(wire.starts_with("HTTP/1.1 301 OK\r\n"));
}

#[test]
fn status_table() {
    let table = [
        (200, "OK"),
        (201, "Created"),
        (204, "No Content"),
        (400, "Bad Request"),
        (401, "Unauthorized"),
        (403, "Forbidden"),
        (404, "Not Found"),
        (500, "Internal Server Error"),
        (418, "OK"),
        (0, "OK"),
        (65535, "OK"),
    ];
    for (code, text) in table {
        assert_eq!(Response::new(code, Vec::new()).status_text, text);
    }
}

#[test]
fn content_length_counts_bytes() {
    let r = Response::new(200, Vec::new());
    assert_eq!(value_of(&r, "Content-Length"), Some("0".to_string()));
    let r = Response::new(200, vec![7u8; 1234]);
    assert_eq!(value_of(&r, "Content-Length"), Some("1234".to_string()));
    let r = Response::text("héllo");
    assert_eq!(value_of(&r, "Content-Length"), Some("6".to_string()));
    assert_eq!(r.body, "héllo".as_bytes().to_vec());
}

#[test]
fn with_header_twice_keeps_second() {
    let r = Response::text("a").with_header("X-Id", "1").with_header("X-Id", "2");
    let ids: Vec<&(String, String)> = r.headers.iter().filter(|(k, _)| k == "X-Id").collect();
    assert_eq!(ids.len(), 1);
    assert_eq!(ids[0].1, "2");
    assert_eq!(r.headers.len(), 4);
    let r = r.with_header("content-type", "x");
    assert_eq!(value_of(&r, "Content-Type"), Some("text/plain; charset=utf-8".to_string()));
    assert_eq!(value_of(&r, "content-type"), Some("x".to_string()));
}

#[test]
fn html_overrides_content_type() {
    let r = Response::html("<h1>Hi</h1>");
    assert_eq!(r.status_code, 200);
    assert_eq!(value_of(&r, "Content-Type"), Some("text/html; charset=utf-8".to_string()));
    assert_eq!(value_of(&r, "Content-Length"), Some("11".to_string()));
    assert_eq!(r.headers.len(), 3);
}

#[test]
fn not_found_response() {
    let r = Response::not_found();
    assert_eq!(r.status_code, 404);
    assert_eq!(r.status_text, "Not Found");
    assert_eq!(r.body, b"Not Found".to_vec());
    assert_eq!(value_of(&r, "Content-Length"), Some("9".to_string()));
}

#[test]
fn head_only_wire_omits_body() {
    let r = Response::new(200, b"0123456789".to_vec());
    let wire = String::from_utf8(r.to_http_bytes_head_only()).unwrap();
    assert!(wire.contains("Content-Length: 10\r\n"));
    assert!(wire.ends_with("\r\n\r\n"));
    assert!(!wire.contains("0123456789"));
    assert_eq!(to_wire_for(Method::GET, &r), r.to_http_bytes());
    assert_eq!(to_wire_for(Method::HEAD, &r), r.to_http_bytes_head_only());
}

#[test]
fn unregistered_route_is_not_found() {
    let mut router: Router<Reply> = Router::new();
    router.get("/a", Reply("a")).post("/b", Reply("b"));
    assert_eq!(router.len(), 2);
    let req = Request::from_raw("GET /b HTTP/1.1\r\n\r\n").unwrap();
    let r = router.dispatch(req);
    assert_eq!(r.status_code, 404);
    assert_eq!(r.body, b"Not Found".to_vec());
    assert_eq!(value_of(&r, "Connection"), Some("close".to_string()));
    assert_eq!(value_of(&r, "Content-Type"), Some("text/plain; charset=utf-8".to_string()));
    let req = Request::from_raw("GET /a/ HTTP/1.1\r\n\r\n").unwrap();
    assert_eq!(router.dispatch(req).status_code, 404);
}

#[test]
fn first_registered_route_answers() {
    let mut router: Router<Reply> = Router::new();
    router.get("/dup", Reply("first"));
    router.get("/dup", Reply("second"));
    router.put("/dup", Reply("put"));
    assert_eq!(router.route_for(Method::GET, "/dup"), Some(0));
    assert_eq!(router.route_for(Method::PUT, "/dup"), Some(2));
    assert_eq!(router.route_for(Method::PATCH, "/dup"), None);
    for _ in 0..3 {
        let req = Request::from_raw("GET /dup HTTP/1.1\r\n\r\n").unwrap();
        assert_eq!(router.dispatch(req).body, b"first".to_vec());
    }
}

#[test]
fn every_registration_method_binds_its_method() {
    let mut router: Router<Reply> = Router::new();
    router
        .get("/r", Reply("get"))
        .post("/r", Reply("post"))
        .put("/r", Reply("put"))
        .patch("/r", Reply("patch"))
        .delete("/r", Reply("delete"))
        .options("/r", Reply("options"))
        .head("/r", Reply("head"))
        .add_route(Method::GET, "/s", Reply("s"));
    let cases = [
        ("GET", "get"),
        ("POST", "post"),
        ("PUT", "put"),
        ("PATCH", "patch"),
        ("DELETE", "delete"),
        ("OPTIONS", "options"),
        ("HEAD", "head"),
    ];
    for (token, body) in cases {
        let req = Request::from_raw(&format!("{} /r HTTP/1.1\r\n\r\n", token)).unwrap();
        assert_eq!(router.dispatch(req).body, body.as_bytes().to_vec());
    }
    assert_eq!(router.route_for(Method::GET, "/s"), Some(7));
}

#[test]
fn head_request_gets_length_without_body() {
    let mut router: Router<Reply> = Router::new();
    router.head("/h", Reply("0123456789"));
    let out = reply(&router, b"HEAD /h HTTP/1.1\r\n\r\n");
    let wire = String::from_utf8(out).unwrap();
    assert!(wire.starts_with("HTTP/1.1 200 OK\r\n"));
    assert!(wire.contains("Content-Length: 10\r\n"));
    assert!(wire.ends_with("\r\n\r\n"));
    assert!(!wire.contains("0123456789"));
}

#[test]
fn head_without_route_is_bodiless_not_found() {
    let router: Router<Reply> = Router::new();
    let out = reply(&router, b"HEAD /nope HTTP/1.1\r\n\r\n");
    assert_eq!(out, Response::not_found().to_http_bytes_head_only());
    let out = reply(&router, b"GET /nope HTTP/1.1\r\n\r\n");
    assert_eq!(out, Response::not_found().to_http_bytes());
}

#[test]
fn empty_read_writes_nothing() {
    let mut router: Router<Reply> = Router::new();
    router.get("/", Reply("home"));
    assert!(reply(&router, b"").is_empty());
}

#[test]
fn malformed_input_gets_400() {
    let router: Router<Reply> = Router::new();
    let expected = Response::new(400, b"Bad Request".to_vec()).to_http_bytes();
    assert_eq!(reply(&router, b"\r\n"), expected);
    assert_eq!(reply(&router, b"BREW /pot HTTP/1.1\r\n\r\n"), expected);
    assert_eq!(reply_to_text(&router, "GET"), expected);
    let wire = String::from_utf8(expected).unwrap();
    assert!(wire.starts_with("HTTP/1.1 400 Bad Request\r\n"));
    assert!(wire.ends_with("\r\n\r\nBad Request"));
}

#[test]
fn request_body_reaches_handler() {
    let mut router: Router<Echo> = Router::new();
    router.post("/echo", Echo);
    let out = reply(&router, b"POST /echo HTTP/1.1\r\nContent-Length: 5\r\n\r\nhello");
    let wire = String::from_utf8(out).unwrap();
    assert!(wire.contains("Content-Length: 5\r\n"));
    assert!(wire.ends_with("\r\n\r\nhello"));
}

#[test]
fn invalid_bytes_decode_with_replacement() {
    let mut router: Router<Reply> = Router::new();
    router.get("/\u{FFFD}", Reply("replaced"));
    let out = reply(&router, b"GET /\xFF HTTP/1.1\r\n\r\n");
    let wire = String::from_utf8(out).unwrap();
    assert!(wire.ends_with("\r\n\r\nreplaced"));
}

#[test]
fn server_keeps_address_and_routes() {
    let mut router: Router<Reply> = Router::new();
    router.get("/", Reply("home"));
    let server = Server::new("127.0.0.1:8080", router);
    assert_eq!(server.address(), "127.0.0.1:8080");
    assert_eq!(server.router().len(), 1);
}

#[test]
fn text_handler_first_registration_answers() {
    let mut router: Router<TextHandler> = Router::new();
    router.get("/a", TextHandler::new("first")).get("/a", TextHandler::new("second"));
    let req = Request::from_raw("GET /a HTTP/1.1\r\n\r\n").unwrap();
    let r = router.dispatch(req);
    assert_eq!(r.status_code, 200);
    assert_eq!(r.body, b"first".to_vec());
    assert_eq!(value_of(&r, "Content-Length"), Some("5".to_string()));
}

#[test]
fn text_handler_head_keeps_length() {
    let mut router: Router<TextHandler> = Router::new();
    router.head("/h", TextHandler::new("0123456789"));
    let out = reply(&router, b"HEAD /h HTTP/1.1\r\n\r\n");
    assert_eq!(out, Response::text("0123456789").to_http_bytes_head_only());
    let wire = String::from_utf8(out).unwrap();
    assert!(wire.contains("Content-Length: 10\r\n"));
    assert!(wire.ends_with("\r\n\r\n"));
}

#[test]
fn headers_of_empty_text_is_empty() {
    assert!(headers_of("").is_empty());
}
