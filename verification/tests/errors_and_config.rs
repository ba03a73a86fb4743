use localhost::errors::{AppErr, HttpStatus, IoErrorKind};
use localhost::loader::{Config, Loader};
use localhost::server::{Route, Server};

fn route(path: &str) -> Route {
    Route {
        path: Some(path.to_string()),
        methods: Some(vec!["GET".to_string()]),
        default_file: None,
        need_session: Some(false),
        redirect: None,
    }
}

fn server(host: &str) -> Server {
    Server {
        host: Some(host.to_string()),
        ip: Some("127.0.0.1".to_string()),
        ports: Some(vec![8080]),
        root: Some("public".to_string()),
        error_pages: None,
        listing: Some(true),
        routes: Some(vec![route("/")]),
    }
}

#[test]
fn status_from_code_names_the_reason() {
    let cases: [(u16, &str); 12] = [
        (200, "OK"),
        (301, "Moved Permanently"),
        (302, "Found"),
        (303, "See Other"),
        (400, "Bad Request"),
        (401, "Unauthorized"),
        (403, "Forbidden"),
        (404, "Not Found"),
        (405, "Method Not Allowed"),
        (413, "Request Entity Too Large"),
        (500, "Internal Server Error"),
        (418, "Internal Server Error"),
    ];
    for (code, text) in cases {
        let s = HttpStatus::from_code(code);
        assert_eq!(s.status_code, code);
        assert_eq!(s.message, text);
    }
}

#[test]
fn status_from_message_goes_through_lower_case() {
    assert_eq!(HttpStatus::from_message("Bad Request".to_string()).status_code, 400);
    assert_eq!(HttpStatus::from_message("FORBIDDEN".to_string()).status_code, 403);
    assert_eq!(HttpStatus::from_message("Payload Too Large".to_string()).status_code, 413);
    assert_eq!(HttpStatus::from_message("whatever".to_string()).status_code, 500);
    let s = HttpStatus::from_message("Method Not Allowed".to_string());
    assert_eq!(s.status_code, 405);
    assert_eq!(s.message, "Method Not Allowed");
}

#[test]
fn status_round_trip_except_not_found() {
    for code in [200u16, 301, 302, 303, 400, 401, 403, 405, 413, 500] {
        let s = HttpStatus::from_code(code);
        assert_eq!(HttpStatus::from_message(s.message).status_code, code);
    }
    // "not found" contains "found", which is tested first.
    assert_eq!(HttpStatus::from_message("Not Found".to_string()).status_code, 302);
    assert_eq!(HttpStatus::code_for_lowercase("not found"), 302);
    assert_eq!(HttpStatus::code_for_lowercase("ok then"), 200);
}

#[test]
fn status_from_app_err() {
    assert_eq!(HttpStatus::from_app_err(AppErr::NoCGI).status_code, 404);
    assert_eq!(HttpStatus::from_app_err(AppErr::ExtNotFound).status_code, 404);
    assert_eq!(HttpStatus::from_app_err(AppErr::NotFound("x".to_string())).status_code, 404);
    assert_eq!(HttpStatus::from_app_err(AppErr::TmplNotFound("t".to_string())).status_code, 404);
    let t = HttpStatus::from_app_err(AppErr::TooLarge);
    assert_eq!((t.status_code, t.message.as_str()), (413, "Request Entity Too Large"));
    let c = HttpStatus::from_app_err(AppErr::new("Unauthorized access"));
    assert_eq!((c.status_code, c.message.as_str()), (401, "Unauthorized access"));
    let o = HttpStatus::from_app_err(AppErr::Buffering);
    assert_eq!((o.status_code, o.message.as_str()), (500, "Internal Server Error"));
}

#[test]
fn app_errors_from_io_and_templates() {
    assert!(matches!(AppErr::new("boom"), AppErr::Custom(m) if m == "boom"));
    assert!(matches!(
        AppErr::from_io(IoErrorKind::WouldBlock, "w".to_string()),
        AppErr::NonBlocking(m) if m == "w"
    ));
    assert!(matches!(
        AppErr::from_io(IoErrorKind::NotFound, "n".to_string()),
        AppErr::NotFound(m) if m == "n"
    ));
    assert!(matches!(
        AppErr::from_io(IoErrorKind::Other, "o".to_string()),
        AppErr::Other(m) if m == "o"
    ));
    assert!(matches!(
        AppErr::from_template(true, "t".to_string()),
        AppErr::TmplNotFound(m) if m == "t"
    ));
    assert!(matches!(
        AppErr::from_template(false, "r".to_string()),
        AppErr::Custom(m) if m == "r"
    ));
    assert!(matches!(AppErr::last_os_error(), AppErr::Other(_)));
}

#[test]
fn config_clean_drops_invalid_servers() {
    let mut broken = server("b");
    broken.ip = None;
    let mut bad_route = server("c");
    bad_route.routes = Some(vec![Route { need_session: None, ..route("/x") }]);
    let mut config = Config {
        size_limit: Some(10),
        servers: vec![server("a"), broken, bad_route, server("d")],
    };
    let removed = config.clean();
    assert_eq!(removed, vec![2, 3]);
    let hosts: Vec<&str> = config.servers.iter().map(|s| s.host()).collect();
    assert_eq!(hosts, vec!["a", "d"]);
    assert_eq!(config.size_limit(), Some(10));
    // Cleaning again removes nothing.
    assert!(config.clean().is_empty());
    assert_eq!(config.servers.len(), 2);
}

#[test]
fn settings_default_limit_and_no_server() {
    let c = Config { size_limit: None, servers: vec![server("a")] };
    match c.settings() {
        Ok((s, limit)) => {
            assert_eq!(s.len(), 1);
            assert_eq!(limit, 2 * 1024 * 1024);
        }
        Err(_) => panic!("expected settings"),
    }
    let empty = Config { size_limit: Some(5), servers: vec![] };
    assert!(matches!(empty.settings(), Err(AppErr::NoServer)));
    let mut broken = server("b");
    broken.routes = None;
    let (r, removed) = Loader::prepare(Config { size_limit: Some(5), servers: vec![broken] });
    assert!(matches!(r, Err(AppErr::NoServer)));
    assert_eq!(removed, vec![1]);
    let (r, removed) = Loader::prepare(Config { size_limit: Some(5), servers: vec![server("z")] });
    assert!(matches!(r, Ok((ref s, 5)) if s.len() == 1));
    assert!(removed.is_empty());
}

#[test]
fn server_validity_and_getters() {
    let s = server("localhost");
    assert!(s.has_valid_config());
    assert_eq!(s.host(), "localhost");
    assert_eq!(s.ip(), "127.0.0.1");
    assert_eq!(s.ports(), &vec![8080]);
    assert_eq!(s.root(), "public");
    assert!(s.listing());
    assert_eq!(s.routes().len(), 1);
    let r = route("/");
    assert!(r.has_valid_config());
    assert_eq!(r.path(), "/");
    assert!(!r.check_session());
    let mut missing = server("x");
    missing.listing = None;
    assert!(!missing.has_valid_config());
}

#[test]
fn app_error_texts() {
    assert_eq!(AppErr::new("boom").to_string(), "Error: boom.\n");
    assert_eq!(AppErr::NotFound("x".to_string()).to_string(), "Not Found: x.\n");
    assert_eq!(AppErr::TooLarge.to_string(), "Request too large\n");
    assert_eq!(AppErr::NoCGI.to_string(), "No Common Gateway Interface!\n");
    assert_eq!(AppErr::DeserializeTOML("t".to_string()).to_string(), "TOML: t.\n");
    assert_eq!(AppErr::NoServer.to_string(), "No server to connect\n");
}
