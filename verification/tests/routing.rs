use localhost::message::{Method, Request, Resource};
use localhost::errors::HttpStatus;
use localhost::server::{Dispatch, ErrorAnswer, Handling, Route, Server};
use localhost::session::Http;
use localhost::table::StrMap;

fn route(path: &str, methods: &[&str], default_file: Option<&str>, need_session: bool) -> Route {
    Route {
        path: Some(path.to_string()),
        methods: Some(methods.iter().map(|m| m.to_string()).collect()),
        default_file: default_file.map(|f| f.to_string()),
        need_session: Some(need_session),
        redirect: None,
    }
}

fn server(listing: bool) -> Server {
    let mut redirect = StrMap::new();
    redirect.insert("/login".to_string(), "login.html".to_string());
    let mut private = route("/private", &["GET", "POST", "DELETE"], Some("private.html"), true);
    private.redirect = Some(redirect);
    let mut pages = StrMap::new();
    pages.insert("404".to_string(), "404.html".to_string());
    Server {
        host: Some("localhost".to_string()),
        ip: Some("127.0.0.1".to_string()),
        ports: Some(vec![8080]),
        root: Some("public".to_string()),
        error_pages: Some(pages),
        listing: Some(listing),
        routes: Some(vec![
            route("/", &["GET"], Some("index.html"), false),
            private,
            route("/login", &["GET"], Some("login.html"), false),
            route("/auth", &["POST"], None, false),
            route("/secret", &["GET"], None, true),
        ]),
    }
}

fn request(method: Method, path: &str, cookie: Option<&str>) -> Request {
    let mut headers = StrMap::new();
    if let Some(c) = cookie {
        headers.insert("Cookie".to_string(), c.to_string());
    }
    Request { resource: Resource::Path(path.to_string()), method, headers, body: Vec::new() }
}

#[test]
fn lookups_of_the_configuration() {
    let s = server(true);
    assert_eq!(s.get_error_page(404).map(|p| p.as_str()), Some("404.html"));
    assert_eq!(s.get_error_page(500), None);
    assert_eq!(s.get_route("/login").and_then(|r| r.default_file.clone()), Some("login.html".to_string()));
    assert!(s.get_route("/none").is_none());
    assert_eq!(s.find_default_file("/login"), Some("login.html".to_string()));
    assert_eq!(s.find_default_file("/auth"), None);
    assert!(s.is_configured_path("/secret"));
    assert!(!s.is_configured_path("/secret/"));
    assert_eq!(s.redirect("/private"), Some(("/login".to_string(), "login.html".to_string())));
    assert_eq!(s.redirect("/"), None);
    assert!(s.get_session("/private"));
    assert!(!s.get_session("/login"));
    assert!(!s.get_session("/nowhere"));
}

#[test]
fn reformat_adds_one_leading_slash() {
    let s = server(true);
    assert_eq!(s.reformat_path("index"), "/index");
    assert_eq!(s.reformat_path("/index"), "/index");
    assert_eq!(s.reformat_path(""), "/");
    let once = s.reformat_path("a/b");
    assert_eq!(s.reformat_path(&once), once);
}

#[test]
fn direct_by_method_and_session() {
    let s = server(true);
    let mut http = Http::new(1);
    let d = s.direct_at(&request(Method::GET, "/", None), &mut http, 0, 0);
    assert!(matches!(d, Dispatch::Get));
    let d = s.direct_at(&request(Method::POST, "/", None), &mut http, 0, 0);
    assert!(matches!(d, Dispatch::Error(405)));
    let d = s.direct_at(&request(Method::POST, "/auth", None), &mut http, 0, 0);
    assert!(matches!(d, Dispatch::SetCookie));
    let d = s.direct_at(&request(Method::GET, "/private", None), &mut http, 0, 0);
    assert!(matches!(d, Dispatch::Authenticate(ref r, ref f) if r == "/login" && f == "login.html"));
    let d = s.direct_at(&request(Method::GET, "/secret", None), &mut http, 0, 0);
    assert!(matches!(d, Dispatch::Error(404)));
    let d = s.direct_at(&request(Method::GET, "/nowhere", None), &mut http, 0, 0);
    assert!(matches!(d, Dispatch::Get));
    let d = s.direct_at(&request(Method::Uninitialized, "/nowhere", None), &mut http, 0, 0);
    assert!(matches!(d, Dispatch::Error(405)));
    let d = s.direct_at(&request(Method::POST, "/nowhere", None), &mut http, 0, 0);
    assert!(matches!(d, Dispatch::Post));
}

#[test]
fn direct_with_a_valid_session() {
    let s = server(true);
    let mut http = Http::new(1);
    http.session_store.create_session_at("tok".to_string(), 500, 500);
    let ok = request(Method::GET, "/private", Some("session_id=tok"));
    assert!(matches!(s.direct_at(&ok, &mut http, 500, 520), Dispatch::Get));
    let post = request(Method::POST, "/private", Some("session_id=tok"));
    assert!(matches!(s.direct_at(&post, &mut http, 500, 520), Dispatch::Post));
    // The method list is matched against the method as written out, and
    // `DELETE` is written with a trailing line feed.
    let del = request(Method::DELETE, "/private", Some("session_id=tok"));
    assert!(matches!(s.direct_at(&del, &mut http, 500, 520), Dispatch::Error(405)));
    let late = s.direct_at(&ok, &mut http, 500, 560);
    assert!(matches!(late, Dispatch::Authenticate(_, _)));
    let d = s.direct(&request(Method::GET, "/", None), &mut http);
    assert!(matches!(d, Dispatch::Get));
}

#[test]
fn delete_target_decodes_the_last_segment() {
    let s = server(true);
    let t = s.delete_target(&request(Method::DELETE, "/uploads/my%20file.txt", None));
    assert!(matches!(t, Ok(ref n) if n == "my file.txt"));
    let t = s.delete_target(&request(Method::DELETE, "/a/b%2", None));
    assert!(matches!(t, Ok(ref n) if n == "b%2"));
    let t = s.delete_target(&request(Method::DELETE, "/", None));
    assert!(matches!(t, Ok(ref n) if n.is_empty()));
    let t = s.delete_target(&request(Method::DELETE, "/uploads/%FF", None));
    assert!(matches!(t, Err(ref e) if e.status_code == 400 && e.message == "Bad Request"));
}

#[test]
fn handle_pages_and_files() {
    let s = server(true);
    let h = localhost::session::Http::handle(&request(Method::GET, "/", None), &s);
    assert!(matches!(h, Ok(Handling::Page { ref template, listing_dir: Some(ref d), list: true })
        if template == "index.html" && d == "public/"));
    let h = Http::handle(&request(Method::GET, "/login", None), &s);
    assert!(matches!(h, Ok(Handling::Page { ref template, listing_dir: None, list: true })
        if template == "login.html"));
    let h = Http::handle(&request(Method::GET, "/about", None), &s);
    assert!(matches!(h, Ok(Handling::Page { ref template, listing_dir: Some(ref d), .. })
        if template == "index.html" && d == "public/about"));
    let h = Http::handle(&request(Method::GET, "/style.css", None), &s);
    assert!(matches!(h, Ok(Handling::File { ref path, ref content_type, cgi: false })
        if path == "public/style.css" && content_type == "text/css"));
    let h = Http::handle(&request(Method::GET, "/public/app.py", None), &s);
    assert!(matches!(h, Ok(Handling::File { ref path, ref content_type, cgi: true })
        if path == "public/app.py" && content_type == "text/plain"));
    let h = Http::handle(&request(Method::GET, "/img/logo.svg", None), &s);
    assert!(matches!(h, Ok(Handling::File { ref path, ref content_type, .. })
        if path == "public/img/logo.svg" && content_type == "image/svg+xml"));
    let h = Http::handle(&request(Method::GET, "/x.tar.gz", None), &s);
    assert!(matches!(h, Ok(Handling::File { ref content_type, .. }) if content_type == "text/plain"));
    let no_listing = server(false);
    let h = Http::handle(&request(Method::GET, "/style.css", None), &no_listing);
    assert!(matches!(h, Err(ref e) if e.status_code == 403 && e.message == "Forbidden"));
}

#[test]
fn auth_redirect_points_to_the_login_route() {
    let s = server(true);
    let r = Http::auth_redirect("/login", &s, "127.0.0.1:8080");
    assert!(matches!(r, Ok(ref b)
        if b == b"HTTP/1.1 301 Found\r\nLocation: http://localhost:8080/login\r\n\r\n"));
    let r = Http::auth_redirect("/secret", &s, "127.0.0.1:8080");
    assert!(matches!(r, Err(ref e) if e.status_code == 404 && e.message == "Not Found"));
}

#[test]
fn failures_get_the_server_error_page_or_the_default() {
    let s = server(true);
    let a = s.error_answer(HttpStatus::from_code(404));
    assert!(matches!(a, ErrorAnswer::Page(ref p) if p == "404.html"));
    let a = s.error_answer(HttpStatus::from_code(403));
    assert!(matches!(a, ErrorAnswer::Status(ref t) if t.status_code == 403 && t.message == "Forbidden"));
    let mut bare = server(true);
    bare.error_pages = None;
    let a = bare.error_answer(HttpStatus::from_code(404));
    assert!(matches!(a, ErrorAnswer::Status(ref t) if t.status_code == 404));
}
