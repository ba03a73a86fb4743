use localhost::errors::AppErr;
use localhost::message::{process_header_line, process_req_line, Method, Request, Resource};

fn raw(s: &str) -> Vec<u8> {
    s.as_bytes().to_vec()
}

#[test]
fn methods_read_and_write() {
    assert_eq!(Method::from_str("GET"), Method::GET);
    assert_eq!(Method::from_str("POST"), Method::POST);
    assert_eq!(Method::from_str("DELETE"), Method::DELETE);
    assert_eq!(Method::from_str("get"), Method::Uninitialized);
    assert_eq!(Method::from_str("PUT"), Method::Uninitialized);
    assert_eq!(Method::GET.to_string(), "GET");
    assert_eq!(Method::POST.to_string(), "POST");
    assert_eq!(Method::DELETE.to_string(), "DELETE\n");
    assert_eq!(Method::Uninitialized.to_string(), "Uninitialized Method");
}

#[test]
fn header_line_splits_at_first_colon() {
    assert_eq!(
        process_header_line("Host: localhost:8080"),
        ("Host".to_string(), "localhost:8080".to_string())
    );
    assert_eq!(process_header_line("  X-A  :  b  "), ("X-A".to_string(), "b".to_string()));
    assert_eq!(process_header_line("no colon"), ("no colon".to_string(), String::new()));
    assert_eq!(process_header_line(":v"), (String::new(), "v".to_string()));
}

#[test]
fn header_line_round_trip_law() {
    for (k, v) in [("Content-Type", "text/html"), ("Location", "/"), ("X", "a:b:c")] {
        let line = format!("{}:{}", k, v);
        assert_eq!(process_header_line(&line), (k.to_string(), v.to_string()));
    }
}

#[test]
fn request_line_gives_method_and_path() {
    let (m, r) = process_req_line("GET /index.html HTTP/1.1");
    assert_eq!(m, Method::GET);
    assert_eq!(r.as_str(), "/index.html");
    let (m, r) = process_req_line("  POST\t/upload  HTTP/1.1");
    assert_eq!(m, Method::POST);
    assert_eq!(r.as_str(), "/upload");
}

#[test]
fn parse_reads_line_headers_and_body() {
    let req = Request::parse(raw(
        "GET /a/b HTTP/1.1\r\nHost: example:80\r\nCookie: session_id=abc\r\nHost: again\r\n\r\nbody",
    ));
    assert_eq!(req.method, Method::GET);
    assert_eq!(req.resource.as_str(), "/a/b");
    assert_eq!(req.headers.get("Host").map(|s| s.as_str()), Some("again"));
    assert_eq!(req.headers.get("Cookie").map(|s| s.as_str()), Some("session_id=abc"));
    assert_eq!(req.headers.len(), 2);
    assert_eq!(req.body, b"body".to_vec());
    assert_eq!(req.host(), "again");
}

#[test]
fn parse_without_blank_line_or_http_line() {
    let req = Request::parse(raw("GET / HTTP/1.1\r\nHost: x"));
    assert_eq!(req.method, Method::Uninitialized);
    assert_eq!(req.resource.as_str(), "");
    assert_eq!(req.headers.len(), 0);
    assert!(req.body.is_empty());
    let req = Request::parse(raw("hello\r\nA: 1\r\n\r\n"));
    assert_eq!(req.method, Method::Uninitialized);
    assert_eq!(req.headers.get("A").map(|s| s.as_str()), Some("1"));
}

#[test]
fn parse_with_invalid_utf8_head() {
    let mut bytes = raw("GET / HTTP/1.1\r\nX: ");
    bytes.push(0xff);
    bytes.extend_from_slice(b"\r\n\r\nrest");
    let req = Request::parse(bytes);
    assert_eq!(req.method, Method::Uninitialized);
    assert_eq!(req.headers.len(), 0);
    assert_eq!(req.body, b"rest".to_vec());
}

#[test]
fn host_drops_the_port() {
    let req = Request::parse(raw("GET / HTTP/1.1\r\nHost:  localhost:8080 \r\n\r\n"));
    assert_eq!(req.host(), "localhost");
    let req = Request::parse(raw("GET / HTTP/1.1\r\n\r\n"));
    assert_eq!(req.host(), "");
}

#[test]
fn content_length_reads_first_mention() {
    assert_eq!(Request::content_length("POST / HTTP/1.1\r\nContent-Length: 12\r\n\r\n"), 12);
    assert_eq!(Request::content_length("POST / HTTP/1.1\r\n\r\n"), 0);
    assert_eq!(Request::content_length("Content-Length: abc\r\n"), 0);
    assert_eq!(Request::content_length("Content-Length\r\nContent-Length: 3\r\n"), 0);
    assert_eq!(Request::content_length("Content-Length: 4:5\r\n"), 4);
}

#[test]
fn get_admits_by_size_and_length() {
    // The announced length is held against the whole buffer, head included.
    let head = "POST /upload HTTP/1.1\r\nContent-Length: 50\r\n\r\n";
    assert_eq!(head.len(), 45);
    assert!(matches!(Request::get(&raw(head), 49), Err(AppErr::TooLarge)));
    assert!(matches!(Request::get(&raw(head), 100), Err(AppErr::IncompleteRequest)));
    let full = format!("{}hello", head);
    match Request::get(&raw(&full), 100) {
        Ok(req) => {
            assert_eq!(req.method, Method::POST);
            assert_eq!(req.body, b"hello".to_vec());
        }
        Err(e) => panic!("unexpected {:?}", e),
    }
}

#[test]
fn get_reads_length_through_lossy_text() {
    let mut bytes = raw("POST / HTTP/1.1\r\nContent-Length: 3\r\n\r\n");
    bytes.extend_from_slice(&[0xff, 0xfe, 0x41]);
    match Request::get(&bytes, 10) {
        Ok(req) => assert_eq!(req.body, vec![0xff, 0xfe, 0x41]),
        Err(e) => panic!("unexpected {:?}", e),
    }
}

#[test]
fn receive_refuses_what_the_parser_cannot_take() {
    assert!(!Request::can_parse(&raw("HTTP\r\n\r\n")));
    assert!(Request::can_parse(&raw("GET / HTTP/1.1\r\n\r\n")));
    assert!(Request::can_parse(&raw("no blank line")));
    assert!(Request::receive(&raw("HTTP\r\n\r\n"), 10).is_none());
    assert!(matches!(
        Request::receive(&raw("GET / HTTP/1.1\r\n\r\n"), 10),
        Some(Ok(ref r)) if r.method == Method::GET
    ));
    assert!(matches!(
        Request::accept(&raw("GET / HTTP/1.1\r\n\r\n"), 30, 100),
        Err(AppErr::IncompleteRequest)
    ));
}

#[test]
fn resource_path() {
    let r = Resource::Path("/x".to_string());
    assert_eq!(r.as_str(), "/x");
}
