use localhost::cgi::Cgi;
use localhost::errors::HttpStatus;
use localhost::message::{Method, Request, Resource};
use localhost::mux::{find_server, plan_request, try_find_server, Step};
use localhost::response::{html_headers, Response};
use localhost::server::{Route, Server};
use localhost::table::StrMap;
use localhost::upload::{
    boundaries_disjoint, decoded_filename, extract_filename, split_by_boundary, Upload,
    UploadAction,
};

fn server(host: Option<&str>) -> Server {
    Server {
        host: host.map(|h| h.to_string()),
        ip: Some("127.0.0.1".to_string()),
        ports: Some(vec![8080]),
        root: Some("public".to_string()),
        error_pages: None,
        listing: Some(true),
        routes: Some(vec![Route {
            path: Some("/".to_string()),
            methods: Some(vec!["GET".to_string()]),
            default_file: None,
            need_session: Some(false),
            redirect: None,
        }]),
    }
}

fn post(content_type: Option<&str>, body: &[u8]) -> Request {
    let mut headers = StrMap::new();
    if let Some(c) = content_type {
        headers.insert("Content-Type".to_string(), c.to_string());
    }
    Request {
        resource: Resource::Path("/upload".to_string()),
        method: Method::POST,
        headers,
        body: body.to_vec(),
    }
}

#[test]
fn response_bytes_on_the_wire() {
    let r = Response::ok(None, b"hi".to_vec());
    assert_eq!(r.status_code, 200);
    assert_eq!(r.headers(), "Content-Type:text/html\r\n");
    assert_eq!(
        r.into_bytes(),
        b"HTTP/1.1 200 OK\r\nContent-Type:text/html\r\nContent-Length: 2\r\n\r\nhi".to_vec()
    );
    let d = Response::default();
    assert_eq!((d.status_code, d.status_txt.as_str()), (200, "OK"));
    assert!(d.headers.is_none());
    assert_eq!(d.headers(), "");
    assert_eq!(d.into_bytes(), b"HTTP/1.1 200 OK\r\nContent-Length: 0\r\n\r\n".to_vec());
}

#[test]
fn response_headers_replace_and_default_to_html() {
    let mut h = StrMap::new();
    h.insert("Location".to_string(), "/x".to_string());
    let mut r = Response::ok(Some(h), Vec::new());
    assert_eq!(r.headers(), "Location:/x\r\n");
    r.set_headers(None);
    assert_eq!(r.headers(), "Content-Type:text/html\r\n");
    assert_eq!(html_headers().get("Content-Type").map(|s| s.as_str()), Some("text/html"));
}

#[test]
fn error_responses() {
    let r = Response::from_status_page(HttpStatus::from_code(404), None);
    assert_eq!((r.status_code, r.status_txt.as_str()), (404, "Not Found"));
    assert_eq!(r.body, b"<h1>404</h1><p>Not Found</p>".to_vec());
    let r = Response::from_status_page(HttpStatus::from_code(500), Some("<p>oops</p>".to_string()));
    assert_eq!(r.body, b"<p>oops</p>".to_vec());
    assert_eq!(r.headers(), "Content-Type:text/html\r\n");
    let r = Response::err("Forbidden", "page".to_string(), None);
    assert_eq!((r.status_code, r.status_txt.as_str()), (403, "Forbidden"));
    assert_eq!(r.body, b"page".to_vec());
    let r = Response::err("something", String::new(), None);
    assert_eq!(r.status_code, 500);
}

#[test]
fn cgi_output_headers_then_body() {
    let (h, body) = Cgi::parse_output(
        "Content-Type: text/plain\r\nX-A: 1\r\nbad line\r\nX-A: 2\r\n\r\nhello\r\nworld",
    );
    assert_eq!(h.len(), 2);
    assert_eq!(h.get("Content-Type").map(|s| s.as_str()), Some("text/plain"));
    assert_eq!(h.get("X-A").map(|s| s.as_str()), Some("2"));
    assert_eq!(body, b"hello\nworld\n".to_vec());
    let (h, body) = Cgi::parse_output("only: header");
    assert_eq!(h.get("only").map(|s| s.as_str()), Some("header"));
    assert!(body.is_empty());
}

#[test]
fn servers_are_found_by_host() {
    let servers = vec![server(Some("example.com")), server(Some("localhost"))];
    assert_eq!(try_find_server(&servers, "localhost"), Some(Some(1)));
    assert_eq!(try_find_server(&servers, "www.example.com"), Some(Some(0)));
    assert_eq!(try_find_server(&servers, "127.0.0.1"), Some(None));
    assert_eq!(find_server(&servers, "localhost"), Some(1));
    let broken = vec![server(None), server(Some("localhost"))];
    assert_eq!(try_find_server(&broken, "localhost"), None);
}

#[test]
fn plan_request_decisions() {
    let servers = vec![server(Some("example.com")), server(Some("localhost"))];
    let big = b"POST / HTTP/1.1\r\nHost: localhost\r\nContent-Length: 90\r\n\r\n".to_vec();
    assert!(matches!(plan_request(&servers, &big, 10), Step::Respond(413)));
    assert!(matches!(plan_request(&servers, &big, 100), Step::Wait));
    let ok = b"GET /x HTTP/1.1\r\nHost: localhost:8080\r\n\r\n".to_vec();
    assert!(matches!(plan_request(&servers, &ok, 100),
        Step::Route(1, ref r) if r.resource.as_str() == "/x"));
    let other = b"GET / HTTP/1.1\r\nHost: nowhere\r\n\r\n".to_vec();
    assert!(matches!(plan_request(&servers, &other, 100), Step::Respond(400)));
    let bad = b"HTTP\r\n\r\n".to_vec();
    assert!(matches!(plan_request(&servers, &bad, 100), Step::Fault));
    let broken = vec![server(None)];
    assert!(matches!(plan_request(&broken, &ok, 100), Step::Fault));
}

#[test]
fn upload_boundary_from_content_type() {
    let r = Upload::handle(&post(Some("multipart/form-data; boundary=XYZ"), b"x"));
    assert!(matches!(r, Ok(ref b) if b == b"--XYZ"));
    let r = Upload::handle(&post(Some("multipart/form-data; boundary=abc; charset=x"), b"x"));
    assert!(matches!(r, Ok(ref b) if b == b"--abc"));
    let r = Upload::handle(&post(Some("multipart/form-data"), b"x"));
    assert!(matches!(r, Err(ref e) if e.status_code == 400 && e.message == "Bad Request"));
    let r = Upload::handle(&post(Some("text/plain; boundary=XYZ"), b"x"));
    assert!(matches!(r, Err(ref e) if e.status_code == 400 && e.message == "Bad Request"));
    let r = Upload::handle(&post(Some("multipart/form-data; boundary=XYZ"), b""));
    assert!(matches!(r, Err(ref e) if e.status_code == 400 && e.message == "Bad Request"));
    let r = Upload::handle(&post(None, b"x"));
    assert!(matches!(r, Err(ref e) if e.status_code == 400 && e.message == "Bad Request"));
}

#[test]
fn body_splits_at_the_boundary() {
    let parts = split_by_boundary(b"--B\r\na\r\n--B\r\nb\r\n--B--", b"--B");
    let expected: Vec<Vec<u8>> =
        vec![b"".to_vec(), b"\r\na\r\n".to_vec(), b"\r\nb\r\n".to_vec(), b"--".to_vec()];
    assert_eq!(parts, expected);
    assert_eq!(split_by_boundary(b"abc", b"--B"), vec![b"abc".to_vec()]);
    assert!(split_by_boundary(b"", b"--B").is_empty());
    assert_eq!(split_by_boundary(b"x--B", b"--B"), vec![b"x".to_vec()]);
    for part in split_by_boundary(b"a--Bb--B--B--Bc", b"--B") {
        assert!(!part.windows(3).any(|w| w == b"--B"));
    }
    assert!(boundaries_disjoint(b"--B--B", b"--B"));
    assert!(!boundaries_disjoint(b"aaa", b"aa"));
}

#[test]
fn file_names_are_unquoted_and_decoded() {
    let part = b"Content-Disposition: form-data; name=\"f\"; filename=\"my%20pic.png\"\r\n\r\ndata";
    assert_eq!(extract_filename(part), Some("my pic.png".to_string()));
    assert_eq!(extract_filename(b"filename=plain.txt"), Some("plain.txt".to_string()));
    assert_eq!(extract_filename(b"no name here"), None);
    let mut latin = b"filename=caf".to_vec();
    latin.push(0xe9);
    assert_eq!(extract_filename(&latin), Some("caf\u{e9}".to_string()));
    assert_eq!(decoded_filename(b"filename=%FF"), None);
}

#[test]
fn upload_plan_saves_files_and_reports_fields() {
    let body = b"--B\r\nContent-Disposition: form-data; name=\"file\"; filename=\"a.txt\"\r\nContent-Type: text/plain\r\n\r\nhello\r\n--B\r\nContent-Disposition: form-data; name=\"note\"\r\n\r\nhi\r\n\r\n--B\r\nno disposition\r\n\r\nx\r\n--B--\r\n";
    let actions = Upload::plan_parts(body, b"--B");
    assert_eq!(actions.len(), 2);
    assert!(matches!(&actions[0], UploadAction::Save { name, content }
        if name == "a.txt" && content == b"hello\r\n"));
    assert!(matches!(&actions[1], UploadAction::Field(line) if line == "Form field: a.txt = hi"));
    let again = Upload::try_plan_parts(body, b"--B").expect("plan");
    assert_eq!(again.len(), 2);
}

#[test]
fn upload_plan_refused_where_it_cannot_proceed() {
    assert!(Upload::try_plan_parts(b"abc", b"").is_none());
    assert!(Upload::try_plan_parts(b"aaaa", b"aa").is_none());
    let no_name = b"--B\r\nContent-Disposition: form-data; name=\"note\"\r\n\r\nhi\r\n--B--";
    assert!(Upload::try_plan_parts(no_name, b"--B").is_none());
    let plain = b"--B\r\nnothing\r\n\r\nhi\r\n--B--";
    assert!(matches!(Upload::try_plan_parts(plain, b"--B"), Some(ref v) if v.is_empty()));
}

fn join(parts: &[Vec<u8>], b: &[u8]) -> Vec<u8> {
    let mut out = Vec::new();
    for (i, p) in parts.iter().enumerate() {
        if i > 0 {
            out.extend_from_slice(b);
        }
        out.extend_from_slice(p);
    }
    out
}

#[test]
fn parts_join_back_and_count() {
    let cases: [(&[u8], usize); 6] = [
        (b"--B\r\na\r\n--B\r\nb\r\n--B--", 3),
        (b"abc", 0),
        (b"", 0),
        (b"x--B", 1),
        (b"--B", 1),
        (b"--B--Bz", 2),
    ];
    for (body, occurrences) in cases {
        let parts = split_by_boundary(body, b"--B");
        let ends = body.ends_with(b"--B");
        let mut joined = join(&parts, b"--B");
        if ends {
            joined.extend_from_slice(b"--B");
        }
        assert_eq!(joined, body.to_vec());
        let extra = if body.is_empty() || ends { 0 } else { 1 };
        assert_eq!(parts.len(), occurrences + extra);
    }
}
