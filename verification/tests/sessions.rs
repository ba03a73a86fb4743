use localhost::message::{Method, Request, Resource};
use localhost::response::Response;
use localhost::session::{generate_session_id, get_session_id, Http, SessionStore};
use localhost::table::StrMap;

fn request_with_cookie(cookie: Option<&str>) -> Request {
    let mut headers = StrMap::new();
    if let Some(c) = cookie {
        headers.insert("Cookie".to_string(), c.to_string());
    }
    Request {
        resource: Resource::Path("/".to_string()),
        method: Method::GET,
        headers,
        body: Vec::new(),
    }
}

#[test]
fn session_id_from_cookie() {
    assert_eq!(get_session_id("a=b; session_id=XYZ; c=d"), Some("XYZ".to_string()));
    assert_eq!(get_session_id("session_id=1;session_id=2"), Some("1".to_string()));
    assert_eq!(get_session_id("  session_id=abc  "), Some("abc".to_string()));
    assert_eq!(get_session_id("session_id="), Some(String::new()));
    assert_eq!(get_session_id("sid=abc"), None);
    assert_eq!(get_session_id(""), None);
}

#[test]
fn generated_ids_are_alphanumeric() {
    let a = generate_session_id();
    let b = generate_session_id();
    assert_eq!(a.chars().count(), 32);
    assert!(a.chars().all(|c| c.is_ascii_alphanumeric()));
    assert!(b.chars().all(|c| c.is_ascii_alphanumeric()));
}

#[test]
fn store_stamps_cleans_and_validates() {
    let mut store = SessionStore::new(1);
    assert_eq!(store.timeout, 60);
    store.create_session_at("a".to_string(), 100, 100);
    store.create_session_at("b".to_string(), 130, 130);
    assert_eq!(store.stamp("a"), Some(100));
    assert_eq!(store.stamp("b"), Some(130));
    assert!(store.validate_session_at("a", 150, 159));
    assert!(!store.validate_session_at("a", 150, 160));
    // Cleaning at 170 drops "a" (stamped 100) and keeps "b".
    assert!(store.validate_session_at("b", 170, 170));
    assert_eq!(store.stamp("a"), None);
    assert_eq!(store.sessions.len(), 1);
    assert!(!store.validate_session_at("zzz", 170, 170));
}

#[test]
fn clean_keeps_only_live_sessions() {
    let mut store = SessionStore::new(1);
    store.insert("x".to_string(), 10);
    store.insert("y".to_string(), 50);
    store.insert("z".to_string(), 69);
    store.insert("x".to_string(), 20);
    assert_eq!(store.sessions.len(), 3);
    assert_eq!(store.stamp("x"), Some(20));
    let mut seen: Vec<&str> = store.sessions.iter().map(|(k, _)| k.as_str()).collect();
    seen.sort();
    seen.dedup();
    assert_eq!(seen.len(), store.sessions.len());
    store.clean_at(81);
    let ids: Vec<&str> = store.sessions.iter().map(|(k, _)| k.as_str()).collect();
    assert_eq!(ids, vec!["y", "z"]);
    store.clean_at(1000);
    assert!(store.sessions.is_empty());
}

#[test]
fn login_sets_cookie_and_next_request_is_authenticated() {
    let mut http = Http::new(30);
    assert_eq!(http.session_store.timeout, 1800);
    let (response, id) = http.set_cookie(Response::default());
    let headers = response.headers.as_ref().expect("headers");
    let cookie = headers.get("Set-Cookie").expect("cookie").clone();
    assert_eq!(cookie, format!("session_id={}; Path=/; HttpOnly", id));
    assert_eq!(headers.get("Location").map(|s| s.as_str()), Some("/"));
    assert_eq!(get_session_id(&cookie), Some(id.clone()));
    assert!(http.has_valid_session(&request_with_cookie(Some(&format!("session_id={}", id)))));
    assert!(http.has_valid_session(&request_with_cookie(Some(&cookie))));
    assert!(!http.has_valid_session(&request_with_cookie(Some("session_id=other"))));
    assert!(!http.has_valid_session(&request_with_cookie(None)));
    assert!(http.session_store.validate_session(&id));
}

#[test]
fn session_check_with_given_clock() {
    let mut http = Http::new(1);
    http.session_store.create_session_at("abc".to_string(), 0, 1000);
    let req = request_with_cookie(Some("session_id=abc"));
    assert!(http.has_valid_session_at(&req, 1000, 1059));
    assert!(!http.has_valid_session_at(&req, 1000, 1060));
    assert!(!http.has_valid_session_at(&req, 1060, 1060));
    assert!(http.session_store.sessions.is_empty());
}

#[test]
fn create_session_opens_a_valid_session() {
    let mut store = SessionStore::new(5);
    let id = store.create_session();
    assert!(store.stamp(&id).is_some());
    assert!(store.validate_session(&id));
    store.clean();
    assert!(store.stamp(&id).is_some());
}
