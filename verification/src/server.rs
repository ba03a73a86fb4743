//! Server and route configuration, and the router's decisions.
use crate::errors::{status_text, HttpStatus};
use crate::message::{method_text, Method, Request};
use crate::percent::{url_decode, url_decoded};
use crate::session::{checked_session, Http, SessionView};
use crate::table::{lookup, StrMap};
use crate::text::{
    chars_eq, chars_of, contains, decimal, decimal_chars, find_chars, first_occurrence,
    lemma_split_char_len, split_char, split_chars, starts_with, string_from_chars,
};
use vstd::prelude::*;

verus! {

/// One route of a server.
pub struct Route {
    pub path: Option<String>,
    pub methods: Option<Vec<String>>,
    pub default_file: Option<String>,
    pub need_session: Option<bool>,
    pub redirect: Option<StrMap>,
}

/// One configured server.
pub struct Server {
    pub host: Option<String>,
    pub ip: Option<String>,
    pub ports: Option<Vec<usize>>,
    pub root: Option<String>,
    pub error_pages: Option<StrMap>,
    pub listing: Option<bool>,
    pub routes: Option<Vec<Route>>,
}

/// The route is configured for path `p`.
pub open spec fn route_has_path(r: Route, p: Seq<char>) -> bool {
    r.path matches Some(q) && q@ == p
}

/// The first route at or after `i` configured for `p`.
pub open spec fn route_from(rs: Seq<Route>, p: Seq<char>, i: int) -> Option<int>
    decreases rs.len() - i,
{
    if i < 0 || i >= rs.len() {
        None
    } else if route_has_path(rs[i], p) {
        Some(i)
    } else {
        route_from(rs, p, i + 1)
    }
}

/// The route gives a redirection: a non-empty redirect table.
pub open spec fn route_redirects(r: Route) -> bool {
    r.redirect matches Some(t) && t@.len() > 0
}

/// The first route at or after `i` configured for `p` that redirects.
pub open spec fn redirect_from(rs: Seq<Route>, p: Seq<char>, i: int) -> Option<int>
    decreases rs.len() - i,
{
    if i < 0 || i >= rs.len() {
        None
    } else if route_has_path(rs[i], p) && route_redirects(rs[i]) {
        Some(i)
    } else {
        redirect_from(rs, p, i + 1)
    }
}

/// `path` with a leading `/`.
pub open spec fn reformat(path: Seq<char>) -> Seq<char> {
    if starts_with(path, "/"@) {
        path
    } else {
        "/"@ + path
    }
}

/// The route methods include the method as written out.
pub open spec fn method_listed(ms: Seq<String>, m: Method) -> bool {
    exists|j: int| 0 <= j < ms.len() && (#[trigger] ms[j])@ == method_text(m)
}

/// What the router decides for a request.
pub enum Dispatch {
    /// Answer with this error status (through its error page).
    Error(u16),
    /// Log the client in.
    SetCookie,
    /// Redirect to the login route with this route and template.
    Authenticate(String, String),
    /// Serve a page or a file.
    Get,
    /// Take an upload.
    Post,
    /// Delete an uploaded file.
    Delete,
}

/// The dispatch of an admitted request by its method.
pub open spec fn dispatch_by_method(m: Method, d: Dispatch) -> bool {
    match m {
        Method::GET => d is Get,
        Method::POST => d is Post,
        Method::DELETE => d is Delete,
        Method::Uninitialized => d matches Dispatch::Error(c) && c == 405,
    }
}

/// How a failed request is answered.
pub enum ErrorAnswer {
    /// Render this error template of the server.
    Page(String),
    /// Answer with the default error response for this status.
    Status(HttpStatus),
}

/// The outcome of routing `request` with the session store `store` (whose
/// sessions last `timeout` seconds), cleaned at `clean_now` and checked at
/// `check_now`: the dispatch `d` and the store `after`.
pub open spec fn routing_outcome(
    server: &Server,
    request: &Request,
    store: SessionView,
    timeout: u64,
    clean_now: u64,
    check_now: u64,
    d: Dispatch,
    after: SessionView,
) -> bool {
    let p = request.resource.path();
    let m = request.method;
    if server.method_refused(p, m) {
        d matches Dispatch::Error(c) && c == 405 && after == store
    } else if Server::is_login(p, m) {
        d is SetCookie && after == store
    } else if !server.session_flag(reformat(p)) {
        dispatch_by_method(m, d) && after == store
    } else {
        let checked = checked_session(store, timeout, request, clean_now, check_now);
        &&& after == checked.1
        &&& checked.0 ==> dispatch_by_method(m, d)
        &&& !checked.0 ==> server.unauthenticated(p, d)
    }
}

/// What a page request resolves to.
pub enum Handling {
    /// Render a template, listing a directory when one is given.
    Page { template: String, listing_dir: Option<String>, list: bool },
    /// Serve a file with this content type, through the CGI interpreter when
    /// `cgi` holds.
    File { path: String, content_type: String, cgi: bool },
}

impl Route {
    /// The route's configuration is complete.
    pub open spec fn valid(&self) -> bool {
        self.path is Some && self.methods is Some && self.need_session is Some
    }

    pub fn has_valid_config(&self) -> (b: bool)
        ensures
            b == self.valid(),
    {
        self.path.is_some() && self.methods.is_some() && self.need_session.is_some()
    }

    pub fn path(&self) -> (p: &str)
        requires
            self.path is Some,
        ensures
            p@ == self.path->0@,
    {
        self.path.as_ref().unwrap().as_str()
    }

    pub fn check_session(&self) -> (b: bool)
        requires
            self.need_session is Some,
        ensures
            b == self.need_session->0,
    {
        self.need_session.unwrap()
    }
}

/// Some element of `ms` reads as `text`.
fn list_contains(ms: &Vec<String>, text: &String) -> (b: bool)
    ensures
        b == exists|j: int| 0 <= j < ms@.len() && (#[trigger] ms@[j])@ == text@,
{
    let mut i: usize = 0;
    while i < ms.len()
        invariant
            i <= ms@.len(),
            forall|j: int| 0 <= j < i ==> (#[trigger] ms@[j])@ != text@,
        decreases ms@.len() - i,
    {
        if ms[i] == *text {
            return true;
        }
        i = i + 1;
    }
    false
}

impl Server {
    /// The server's configuration is complete, and so is each route's.
    pub open spec fn valid(&self) -> bool {
        &&& self.host is Some
        &&& self.ip is Some
        &&& self.ports is Some
        &&& self.root is Some
        &&& self.listing is Some
        &&& self.routes is Some
        &&& forall|i: int|
            0 <= i < self.routes->0@.len() ==> (#[trigger] self.routes->0@[i]).valid()
    }

    pub fn has_valid_config(&self) -> (b: bool)
        ensures
            b == self.valid(),
    {
        if !(self.host.is_some() && self.ip.is_some() && self.ports.is_some()
            && self.root.is_some() && self.listing.is_some() && self.routes.is_some()) {
            return false;
        }
        let routes = self.routes.as_ref().unwrap();
        let mut i: usize = 0;
        while i < routes.len()
            invariant
                i <= routes@.len(),
                self.routes == Some(*routes),
                forall|j: int| 0 <= j < i ==> (#[trigger] routes@[j]).valid(),
            decreases routes@.len() - i,
        {
            if !routes[i].has_valid_config() {
                assert(!self.routes->0@[i as int].valid());
                return false;
            }
            i = i + 1;
        }
        true
    }

    pub fn host(&self) -> (h: &str)
        requires
            self.host is Some,
        ensures
            h@ == self.host->0@,
    {
        self.host.as_ref().unwrap().as_str()
    }

    pub fn ip(&self) -> (h: &str)
        requires
            self.ip is Some,
        ensures
            h@ == self.ip->0@,
    {
        self.ip.as_ref().unwrap().as_str()
    }

    pub fn ports(&self) -> (p: &Vec<usize>)
        requires
            self.ports is Some,
        ensures
            *p == self.ports->0,
    {
        self.ports.as_ref().unwrap()
    }

    pub fn root(&self) -> (r: &str)
        requires
            self.root is Some,
        ensures
            r@ == self.root->0@,
    {
        self.root.as_ref().unwrap().as_str()
    }

    pub fn listing(&self) -> (b: bool)
        requires
            self.listing is Some,
        ensures
            b == self.listing->0,
    {
        self.listing.unwrap()
    }

    pub fn routes(&self) -> (r: &Vec<Route>)
        requires
            self.routes is Some,
        ensures
            *r == self.routes->0,
    {
        self.routes.as_ref().unwrap()
    }

    /// The first route configured for `p`.
    pub open spec fn first_route(&self, p: Seq<char>) -> Option<int> {
        match self.routes {
            Some(rs) => route_from(rs@, p, 0),
            None => None,
        }
    }

    /// The route at position `i`.
    pub open spec fn route_at(&self, i: int) -> Route {
        self.routes->0@[i]
    }

    /// The error page configured for a status code.
    pub open spec fn error_page_of(&self, code: u16) -> Option<Seq<char>> {
        match self.error_pages {
            Some(t) => lookup(t@, decimal(code as nat)),
            None => None,
        }
    }

    /// The error page configured for a status code.
    pub fn get_error_page(&self, error_code: u16) -> (r: Option<&String>)
        ensures
            match r {
                Some(s) => self.error_page_of(error_code) == Some(s@),
                None => self.error_page_of(error_code) is None,
            },
    {
        match &self.error_pages {
            Some(pages) => {
                let key = string_from_chars(decimal_chars(error_code as u64).as_slice());
                pages.get(key.as_str())
            },
            None => None,
        }
    }

    /// The position of the first route configured for `path`.
    fn route_index(&self, path: &str) -> (r: Option<usize>)
        ensures
            match r {
                Some(i) => self.first_route(path@) == Some(i as int) && i
                    < self.routes->0@.len(),
                None => self.first_route(path@) is None,
            },
    {
        match &self.routes {
            Some(routes) => {
                let p = String::from_str(path);
                let mut i: usize = 0;
                while i < routes.len()
                    invariant
                        i <= routes@.len(),
                        self.routes == Some(*routes),
                        p@ == path@,
                        route_from(routes@, path@, 0) == route_from(routes@, path@, i as int),
                    decreases routes@.len() - i,
                {
                    match &routes[i].path {
                        Some(rp) => {
                            if *rp == p {
                                return Some(i);
                            }
                        },
                        None => {},
                    }
                    i = i + 1;
                }
                None
            },
            None => None,
        }
    }

    /// The answer to a request that failed with `status`: the server's
    /// error page for the status when it has one, the default error
    /// response otherwise.
    pub fn error_answer(&self, status: HttpStatus) -> (r: ErrorAnswer)
        ensures
            match self.error_page_of(status.status_code) {
                Some(p) => r matches ErrorAnswer::Page(q) && q@ == p,
                None => r matches ErrorAnswer::Status(t) && t.status_code == status.status_code
                    && t.message@ == status.message@,
            },
    {
        match self.get_error_page(status.status_code) {
            Some(page) => ErrorAnswer::Page(page.clone()),
            None => ErrorAnswer::Status(status),
        }
    }

    /// The first route configured for `path`.
    pub fn get_route(&self, path: &str) -> (r: Option<&Route>)
        ensures
            match r {
                Some(route) => self.first_route(path@) matches Some(i) && *route == self.route_at(
                    i,
                ),
                None => self.first_route(path@) is None,
            },
    {
        match self.route_index(path) {
            Some(i) => Some(&self.routes.as_ref().unwrap()[i]),
            None => None,
        }
    }

    /// The default file of the first route configured for `path`.
    pub open spec fn default_file_of(&self, p: Seq<char>) -> Option<Seq<char>> {
        match self.first_route(p) {
            Some(i) => match self.route_at(i).default_file {
                Some(f) => Some(f@),
                None => None,
            },
            None => None,
        }
    }

    /// The default file of the first route configured for `path`.
    pub fn find_default_file(&self, path: &str) -> (r: Option<String>)
        ensures
            match r {
                Some(f) => self.default_file_of(path@) == Some(f@),
                None => self.default_file_of(path@) is None,
            },
    {
        match self.route_index(path) {
            Some(i) => match &self.routes.as_ref().unwrap()[i].default_file {
                Some(f) => Some(f.clone()),
                None => None,
            },
            None => None,
        }
    }

    /// Some route is configured for `path`.
    pub fn is_configured_path(&self, path: &str) -> (b: bool)
        ensures
            b == self.first_route(path@) is Some,
    {
        self.route_index(path).is_some()
    }

    /// The redirection of a path: the first entry of the redirect table of the
    /// first route configured for it that has a non-empty one.
    pub open spec fn redirect_of(&self, p: Seq<char>) -> Option<(Seq<char>, Seq<char>)> {
        match self.routes {
            Some(rs) => match redirect_from(rs@, p, 0) {
                Some(i) => Some(rs@[i].redirect->0@[0]),
                None => None,
            },
            None => None,
        }
    }

    /// The redirection of a path.
    pub fn redirect(&self, path: &str) -> (r: Option<(String, String)>)
        ensures
            match r {
                Some((a, b)) => self.redirect_of(path@) == Some((a@, b@)),
                None => self.redirect_of(path@) is None,
            },
    {
        match &self.routes {
            Some(routes) => {
                let p = String::from_str(path);
                let mut i: usize = 0;
                while i < routes.len()
                    invariant
                        i <= routes@.len(),
                        self.routes == Some(*routes),
                        p@ == path@,
                        redirect_from(routes@, path@, 0) == redirect_from(
                            routes@,
                            path@,
                            i as int,
                        ),
                    decreases routes@.len() - i,
                {
                    match &routes[i].path {
                        Some(rp) => {
                            if *rp == p {
                                match &routes[i].redirect {
                                    Some(t) => {
                                        if t.len() > 0 {
                                            return Some(
                                                (t.key_at(0).clone(), t.value_at(0).clone()),
                                            );
                                        }
                                    },
                                    None => {},
                                }
                            }
                        },
                        None => {},
                    }
                    i = i + 1;
                }
                None
            },
            None => None,
        }
    }

    /// `path` with a leading `/`.
    pub fn reformat_path(&self, path: &str) -> (r: String)
        ensures
            r@ == reformat(path@),
    {
        proof {
            reveal_strlit("/");
        }
        let cs = chars_of(path);
        let slash = chars_of("/");
        if crate::text::starts_with_chars(cs.as_slice(), slash.as_slice()) {
            String::from_str(path)
        } else {
            let mut s = String::from_str("/");
            s.append(path);
            s
        }
    }

    /// The session flag of the first route configured for `p` (`false` when
    /// none is).
    pub open spec fn session_flag(&self, p: Seq<char>) -> bool {
        match self.first_route(p) {
            Some(i) => self.route_at(i).need_session->0,
            None => false,
        }
    }

    /// `get_session` can read the flag: the routes are configured, and so is
    /// the flag of the first route for `p`.
    pub open spec fn session_flag_defined(&self, p: Seq<char>) -> bool {
        &&& self.routes is Some
        &&& self.first_route(p) matches Some(i) ==> self.route_at(i).need_session is Some
    }

    /// The route configured for `path` requires a session.
    pub fn get_session(&self, path: &str) -> (b: bool)
        requires
            self.session_flag_defined(path@),
        ensures
            b == self.session_flag(path@),
    {
        match self.route_index(path) {
            Some(i) => self.routes()[i].check_session(),
            None => false,
        }
    }

    /// The route's method list refuses the method.
    pub open spec fn method_refused(&self, p: Seq<char>, m: Method) -> bool {
        match self.first_route(p) {
            Some(i) => match self.route_at(i).methods {
                Some(ms) => !method_listed(ms@, m),
                None => false,
            },
            None => false,
        }
    }

    /// A login: a `POST` to `/auth`.
    pub open spec fn is_login(p: Seq<char>, m: Method) -> bool {
        p == "/auth"@ && m == Method::POST
    }

    /// What the router does when the session check failed.
    pub open spec fn unauthenticated(&self, p: Seq<char>, d: Dispatch) -> bool {
        match self.redirect_of(p) {
            Some((a, b)) => d matches Dispatch::Authenticate(x, y) && x@ == a && y@ == b,
            None => d matches Dispatch::Error(c) && c == 404,
        }
    }

    /// The request's method is allowed by its route.
    fn method_allowed(&self, req: &Request) -> (b: bool)
        ensures
            b == !self.method_refused(req.resource.path(), req.method),
    {
        match self.get_route(req.resource.as_str()) {
            Some(route) => match &route.methods {
                Some(methods) => {
                    let text = req.method.to_string();
                    list_contains(methods, &text)
                },
                None => true,
            },
            None => true,
        }
    }

    /// Routes a request, checking its session against `http` with the clock
    /// readings `clean_now` and `check_now`: a method its route does not list
    /// is refused (405); a `POST` to `/auth` logs in; a path whose route needs
    /// a session, without a valid one, is redirected to its login route (or
    /// is not found); otherwise the method decides.
    pub fn direct_at(&self, request: &Request, http: &mut Http, clean_now: u64, check_now: u64) -> (d:
        Dispatch)
        requires
            !self.method_refused(request.resource.path(), request.method) && !Self::is_login(
                request.resource.path(),
                request.method,
            ) ==> self.session_flag_defined(reformat(request.resource.path())),
        ensures
            ({
                let p = request.resource.path();
                let m = request.method;
                let store = old(http).session_store@;
                let timeout = old(http).session_store.timeout;
                &&& final(http).session_store.timeout == timeout
                &&& if self.method_refused(p, m) {
                    d matches Dispatch::Error(c) && c == 405 && final(http).session_store@ == store
                } else if Self::is_login(p, m) {
                    d is SetCookie && final(http).session_store@ == store
                } else if !self.session_flag(reformat(p)) {
                    dispatch_by_method(m, d) && final(http).session_store@ == store
                } else {
                    let checked = checked_session(store, timeout, request, clean_now, check_now);
                    &&& final(http).session_store@ == checked.1
                    &&& checked.0 ==> dispatch_by_method(m, d)
                    &&& !checked.0 ==> self.unauthenticated(p, d)
                }
            }),
            routing_outcome(
                self,
                request,
                old(http).session_store@,
                old(http).session_store.timeout,
                clean_now,
                check_now,
                d,
                final(http).session_store@,
            ),
    {
        proof {
            reveal_strlit("/auth");
        }
        let path = request.resource.as_str();
        if !self.method_allowed(request) {
            return Dispatch::Error(405);
        }
        let auth = chars_of("/auth");
        let pc = chars_of(path);
        if chars_eq(pc.as_slice(), auth.as_slice()) && request.method == Method::POST {
            return Dispatch::SetCookie;
        }
        let reformatted = self.reformat_path(path);
        let required = self.get_session(reformatted.as_str());
        let session_ok = if !required {
            true
        } else {
            http.has_valid_session_at(request, clean_now, check_now)
        };
        if !session_ok {
            return match self.redirect(path) {
                Some((route, file)) => Dispatch::Authenticate(route, file),
                None => Dispatch::Error(404),
            };
        }
        match request.method {
            Method::GET => Dispatch::Get,
            Method::POST => Dispatch::Post,
            Method::DELETE => Dispatch::Delete,
            Method::Uninitialized => Dispatch::Error(405),
        }
    }

    /// `direct_at` with the current time.
    pub fn direct(&self, request: &Request, http: &mut Http) -> (d: Dispatch)
        requires
            !self.method_refused(request.resource.path(), request.method) && !Self::is_login(
                request.resource.path(),
                request.method,
            ) ==> self.session_flag_defined(reformat(request.resource.path())),
        ensures
            ({
                let p = request.resource.path();
                let m = request.method;
                let store = old(http).session_store@;
                let timeout = old(http).session_store.timeout;
                &&& final(http).session_store.timeout == timeout
                &&& if self.method_refused(p, m) {
                    d matches Dispatch::Error(c) && c == 405 && final(http).session_store@ == store
                } else if Self::is_login(p, m) {
                    d is SetCookie && final(http).session_store@ == store
                } else if !self.session_flag(reformat(p)) {
                    dispatch_by_method(m, d) && final(http).session_store@ == store
                } else {
                    exists|c: u64, t: u64|
                        {
                            &&& final(http).session_store@ == (#[trigger] checked_session(
                                store,
                                timeout,
                                request,
                                c,
                                t,
                            )).1
                            &&& checked_session(store, timeout, request, c, t).0
                                ==> dispatch_by_method(m, d)
                            &&& !checked_session(store, timeout, request, c, t).0
                                ==> self.unauthenticated(p, d)
                        }
                }
            }),
            exists|now: u64|
                routing_outcome(
                    self,
                    request,
                    old(http).session_store@,
                    old(http).session_store.timeout,
                    now,
                    now,
                    d,
                    final(http).session_store@,
                ),
    {
        let now = crate::session::current_timestamp();
        let d = self.direct_at(request, http, now, now);
        proof {
            let _ = checked_session(
                old(http).session_store@,
                old(http).session_store.timeout,
                request,
                now,
                now,
            );
        }
        d
    }

    /// The name of the file a `DELETE` targets: the last `/`-separated
    /// segment of the path, percent-decoded; a name that does not decode is a
    /// bad request.
    pub fn delete_target(&self, req: &Request) -> (r: Result<String, HttpStatus>)
        ensures
            match url_decoded(split_char(req.resource.path(), '/').last()) {
                Some(name) => r matches Ok(s) && s@ == name,
                None => r matches Err(e) && e.status_code == 400 && e.message@ == status_text(400),
            },
    {
        let cs = chars_of(req.resource.as_str());
        let parts = split_chars(cs.as_slice(), '/');
        let last = string_from_chars(parts[parts.len() - 1].as_slice());
        match url_decode(last.as_str()) {
            Some(name) => Ok(name),
            None => Err(HttpStatus::from_code(400)),
        }
    }
}

/// The text of `s` before its first `c`.
pub open spec fn before_char(s: Seq<char>, c: char) -> Seq<char> {
    match first_occurrence(s, seq![c]) {
        Some(i) => s.take(i),
        None => s,
    }
}

/// The file path of a page request: the path after its first `/` when its
/// second segment is `public`, and the path under `public` otherwise.
pub open spec fn public_path(s: Seq<char>) -> Seq<char> {
    match first_occurrence(s, seq!['/']) {
        Some(i) => if before_char(s.skip(i + 1), '/') == "public"@ {
            s.skip(i + 1)
        } else {
            "public"@ + s
        },
        None => "public"@ + s,
    }
}

/// The extension of a path: what follows its last `.` (all of it without one).
pub open spec fn extension(p: Seq<char>) -> Seq<char> {
    split_char(p, '.').last()
}

/// The content type served for an extension.
pub open spec fn content_type_of(ext: Seq<char>) -> Seq<char> {
    if ext == "css"@ {
        "text/css"@
    } else if ext == "js"@ {
        "text/javascript"@
    } else if ext == "html"@ {
        "text/html"@
    } else if ext == "json"@ {
        "application/json"@
    } else if ext == "png"@ {
        "image/png"@
    } else if ext == "jpg"@ || ext == "jpeg"@ {
        "image/jpeg"@
    } else if ext == "gif"@ {
        "image/gif"@
    } else if ext == "py"@ {
        "text/plain"@
    } else if ext == "svg"@ {
        "image/svg+xml"@
    } else if ext == "txt"@ {
        "text/plain"@
    } else if ext == "pdf"@ {
        "application/pdf"@
    } else if ext == "xml"@ {
        "application/xml"@
    } else if ext == "zip"@ {
        "application/zip"@
    } else {
        "text/plain"@
    }
}

/// The directory a page lists: the path itself (`public/` for `/`) when no
/// route gives it a default file or it is `/`.
pub open spec fn listing_dir_of(server: &Server, p: Seq<char>) -> Option<Seq<char>> {
    if server.default_file_of(p) is None || p == "/"@ {
        Some(
            if p == "/"@ {
                "public/"@
            } else {
                p
            },
        )
    } else {
        None
    }
}

/// The handling of a page request with the server's listing flag.
pub open spec fn handling_ok(server: &Server, s: Seq<char>, list: bool, h: Handling) -> bool {
    match server.default_file_of(s) {
        Some(f) => h matches Handling::Page { template, listing_dir, list: l } && template@ == f
            && l == list && opt_view(listing_dir) == listing_dir_of(server, s),
        None => if !contains(s, "."@) {
            h matches Handling::Page { template, listing_dir, list: l } && template@
                == "index.html"@ && l == list && opt_view(listing_dir) == listing_dir_of(
                server,
                public_path(s),
            )
        } else {
            h matches Handling::File { path, content_type, cgi } && path@ == public_path(s)
                && content_type@ == content_type_of(extension(public_path(s))) && cgi == (
            extension(public_path(s)) == "py"@)
        },
    }
}

pub open spec fn opt_view(o: Option<String>) -> Option<Seq<char>> {
    match o {
        Some(s) => Some(s@),
        None => None,
    }
}

fn eq_literal(s: &[char], lit: &str) -> (b: bool)
    ensures
        b == (s@ == lit@),
{
    let l = chars_of(lit);
    chars_eq(s, l.as_slice())
}

/// The content type for an extension.
fn content_type_for(ext: &[char]) -> (t: String)
    ensures
        t@ == content_type_of(ext@),
{
    if eq_literal(ext, "css") {
        String::from_str("text/css")
    } else if eq_literal(ext, "js") {
        String::from_str("text/javascript")
    } else if eq_literal(ext, "html") {
        String::from_str("text/html")
    } else if eq_literal(ext, "json") {
        String::from_str("application/json")
    } else if eq_literal(ext, "png") {
        String::from_str("image/png")
    } else if eq_literal(ext, "jpg") || eq_literal(ext, "jpeg") {
        String::from_str("image/jpeg")
    } else if eq_literal(ext, "gif") {
        String::from_str("image/gif")
    } else if eq_literal(ext, "py") {
        String::from_str("text/plain")
    } else if eq_literal(ext, "svg") {
        String::from_str("image/svg+xml")
    } else if eq_literal(ext, "txt") {
        String::from_str("text/plain")
    } else if eq_literal(ext, "pdf") {
        String::from_str("application/pdf")
    } else if eq_literal(ext, "xml") {
        String::from_str("application/xml")
    } else if eq_literal(ext, "zip") {
        String::from_str("application/zip")
    } else {
        String::from_str("text/plain")
    }
}

/// The directory a page lists.
fn listing_dir(server: &Server, p: &str) -> (r: Option<String>)
    ensures
        opt_view(r) == listing_dir_of(server, p@),
{
    let cs = chars_of(p);
    let root = eq_literal(cs.as_slice(), "/");
    if server.find_default_file(p).is_none() || root {
        if root {
            Some(String::from_str("public/"))
        } else {
            Some(String::from_str(p))
        }
    } else {
        None
    }
}

/// The file path of a page request.
fn public_path_of(s: &str) -> (r: String)
    ensures
        r@ == public_path(s@),
{
    let cs = chars_of(s);
    let slash: Vec<char> = chars_of("/");
    proof {
        reveal_strlit("/");
        assert(slash@ =~= seq!['/']);
    }
    let n = cs.len();
    match find_chars(cs.as_slice(), slash.as_slice(), 0) {
        Some(i) => {
            let ghost rest = s@.skip(i + 1);
            let second_end = match find_chars(cs.as_slice(), slash.as_slice(), i + 1) {
                Some(j) => j,
                None => n,
            };
            proof {
                crate::text::lemma_find_from(s@, seq!['/'], i + 1);
                crate::text::lemma_find_shift(s@, seq!['/'], i + 1);
                assert(cs@.subrange(i + 1, second_end as int) =~= before_char(rest, '/'));
                assert(cs@.subrange(i + 1, n as int) =~= rest);
            }
            let second = crate::text::copy_range(cs.as_slice(), i + 1, second_end);
            if eq_literal(second.as_slice(), "public") {
                let r = crate::text::copy_range(cs.as_slice(), i + 1, n);
                string_from_chars(r.as_slice())
            } else {
                let mut r = String::from_str("public");
                r.append(s);
                r
            }
        },
        None => {
            let mut r = String::from_str("public");
            r.append(s);
            r
        },
    }
}

impl Http {
    /// How a `GET` is served: the default file of the path's route if it has
    /// one; otherwise `index.html` for a path without a `.`, and the file
    /// itself (when listing is allowed) for a path with one.
    pub fn handle(req: &Request, server: &Server) -> (r: Result<Handling, HttpStatus>)
        requires
            server.listing is Some,
        ensures
            ({
                let s = req.resource.path();
                let list = server.listing->0;
                if server.default_file_of(s) is None && contains(s, "."@) && !list {
                    r matches Err(e) && e.status_code == 403 && e.message@ == status_text(403)
                } else {
                    r matches Ok(h) && handling_ok(server, s, list, h)
                }
            }),
    {
        proof {
            reveal_strlit(".");
        }
        let s = req.resource.as_str();
        let list = server.listing();
        let path = public_path_of(s);
        if let Some(default_file) = server.find_default_file(s) {
            return Ok(
                Handling::Page { template: default_file, listing_dir: listing_dir(server, s), list },
            );
        }
        let cs = chars_of(s);
        let dot = chars_of(".");
        if find_chars(cs.as_slice(), dot.as_slice(), 0).is_none() {
            Ok(
                Handling::Page {
                    template: String::from_str("index.html"),
                    listing_dir: listing_dir(server, path.as_str()),
                    list,
                },
            )
        } else {
            if !list {
                return Err(HttpStatus::from_code(403));
            }
            let pc = chars_of(path.as_str());
            let pieces = split_chars(pc.as_slice(), '.');
            let ext = &pieces[pieces.len() - 1];
            let content_type = content_type_for(ext.as_slice());
            let cgi = eq_literal(ext.as_slice(), "py");
            Ok(Handling::File { path, content_type, cgi })
        }
    }
}


/// Where a login redirection points: the server's host, the port of the
/// local address the request came in on, and the route.
pub open spec fn auth_location(host: Seq<char>, addr: Seq<char>, route: Seq<char>) -> Seq<char> {
    "http://"@ + host + ":"@ + split_char(addr, ':').last() + route
}

/// The raw `301` that sends a client to its login route.
pub open spec fn auth_redirect_text(location: Seq<char>) -> Seq<char> {
    "HTTP/1.1 301 Found\r\nLocation: "@ + location + "\r\n\r\n"@
}

fn append_chars(s: &mut String, cs: &[char])
    ensures
        final(s)@ == old(s)@ + cs@,
{
    let t = string_from_chars(cs);
    s.append(t.as_str());
}

impl Http {
    /// The redirection to a login route (written to the client as is): a
    /// route with no default file is not found (404).
    pub fn auth_redirect(route: &str, server: &Server, addr: &str) -> (r: Result<
        Vec<u8>,
        HttpStatus,
    >)
        requires
            server.default_file_of(route@) is Some ==> server.host is Some,
        ensures
            server.default_file_of(route@) is None ==> (r matches Err(e) && e.status_code == 404
                && e.message@ == status_text(404)),
            server.default_file_of(route@) is Some ==> (r matches Ok(b) && b@
                == vstd::utf8::encode_utf8(
                auth_redirect_text(auth_location(server.host->0@, addr@, route@)),
            )),
    {
        if server.find_default_file(route).is_none() {
            return Err(HttpStatus::from_code(404));
        }
        let ac = chars_of(addr);
        let pieces = split_chars(ac.as_slice(), ':');
        let port = &pieces[pieces.len() - 1];
        let mut text = String::from_str("HTTP/1.1 301 Found\r\nLocation: ");
        text.append("http://");
        text.append(server.host());
        text.append(":");
        append_chars(&mut text, port.as_slice());
        text.append(route);
        text.append("\r\n\r\n");
        proof {
            assert(crate::text::views(pieces@)[pieces@.len() - 1] == port@);
            assert(text@ =~= auth_redirect_text(auth_location(server.host->0@, addr@, route@)));
        }
        Ok(crate::text::utf8_bytes(text.as_str()))
    }
}

/// A reformatted path starts with `/`, and reformatting it again changes
/// nothing.
pub proof fn lemma_reformat(path: Seq<char>)
    ensures
        starts_with(reformat(path), "/"@),
        reformat(reformat(path)) == reformat(path),
{
    reveal_strlit("/");
    if !starts_with(path, "/"@) {
        assert(("/"@ + path).take(1) =~= "/"@);
    }
}

/// A request that passes the method, login and session checks goes to the
/// handler of its method: `GET`, `POST` and `DELETE` each to their own, and
/// only a method that is none of these is refused (405).
pub proof fn lemma_dispatch_follows_method(m: Method, d: Dispatch)
    requires
        dispatch_by_method(m, d),
    ensures
        m == Method::GET ==> d is Get,
        m == Method::POST ==> d is Post,
        m == Method::DELETE ==> d is Delete,
        m == Method::Uninitialized ==> (d matches Dispatch::Error(c) && c == 405),
        d is Error <==> m == Method::Uninitialized,
{
}

/// A path that no route is configured for (as written or with a leading
/// `/`) refuses no method and needs no session: any request to it other
/// than a login goes straight to the handler of its method, and the session
/// store is left alone.
pub proof fn lemma_unrouted_dispatch(
    server: &Server,
    request: &Request,
    store: SessionView,
    timeout: u64,
    clean_now: u64,
    check_now: u64,
    d: Dispatch,
    after: SessionView,
)
    requires
        routing_outcome(server, request, store, timeout, clean_now, check_now, d, after),
        server.first_route(request.resource.path()) is None,
        server.first_route(reformat(request.resource.path())) is None,
        !Server::is_login(request.resource.path(), request.method),
    ensures
        after == store,
        request.method == Method::GET ==> d is Get,
        request.method == Method::POST ==> d is Post,
        request.method == Method::DELETE ==> d is Delete,
        request.method == Method::Uninitialized ==> (d matches Dispatch::Error(c) && c == 405),
{
    lemma_dispatch_follows_method(request.method, d);
}

/// The piece of a path after its last `.`: for a path ending in `.` and a
/// piece without `.`, that piece.
pub proof fn lemma_extension_of(p: Seq<char>, e: Seq<char>)
    requires
        forall|i: int| 0 <= i < e.len() ==> e[i] != '.',
    ensures
        extension(p + seq!['.'] + e) == e,
    decreases e.len(),
{
    let s = p + seq!['.'] + e;
    if e.len() == 0 {
        assert(s.drop_last() =~= p);
        lemma_split_char_len(p, '.');
    } else {
        lemma_extension_of(p, e.drop_last());
        assert(s.drop_last() =~= p + seq!['.'] + e.drop_last());
        lemma_split_char_len(s.drop_last(), '.');
        assert(e.drop_last().push(e.last()) =~= e);
    }
}

/// The content type served for each known extension; any other extension
/// is served as plain text.
pub proof fn lemma_content_type_table(ext: Seq<char>)
    ensures
        content_type_of("css"@) == "text/css"@,
        content_type_of("js"@) == "text/javascript"@,
        content_type_of("html"@) == "text/html"@,
        content_type_of("json"@) == "application/json"@,
        content_type_of("png"@) == "image/png"@,
        content_type_of("jpg"@) == "image/jpeg"@,
        content_type_of("jpeg"@) == "image/jpeg"@,
        content_type_of("gif"@) == "image/gif"@,
        content_type_of("py"@) == "text/plain"@,
        content_type_of("svg"@) == "image/svg+xml"@,
        content_type_of("txt"@) == "text/plain"@,
        content_type_of("pdf"@) == "application/pdf"@,
        content_type_of("xml"@) == "application/xml"@,
        content_type_of("zip"@) == "application/zip"@,
        (ext != "css"@ && ext != "js"@ && ext != "html"@ && ext != "json"@ && ext != "png"@ && ext != "jpg"@ && ext != "jpeg"@ && ext != "gif"@ && ext != "py"@ && ext != "svg"@ && ext != "txt"@ && ext != "pdf"@ && ext != "xml"@ && ext != "zip"@) ==> content_type_of(ext) == "text/plain"@,
{
    reveal_strlit("css");
    reveal_strlit("js");
    reveal_strlit("html");
    reveal_strlit("json");
    reveal_strlit("png");
    reveal_strlit("jpg");
    reveal_strlit("jpeg");
    reveal_strlit("gif");
    reveal_strlit("py");
    reveal_strlit("svg");
    reveal_strlit("txt");
    reveal_strlit("pdf");
    reveal_strlit("xml");
    reveal_strlit("zip");
    assert("js"@.len() != "css"@.len());
    assert("html"@.len() != "css"@.len());
    assert("html"@.len() != "js"@.len());
    assert("json"@.len() != "css"@.len());
    assert("json"@.len() != "js"@.len());
    assert("json"@[0] != "html"@[0]);
    assert("png"@[0] != "css"@[0]);
    assert("png"@.len() != "js"@.len());
    assert("png"@.len() != "html"@.len());
    assert("png"@.len() != "json"@.len());
    assert("jpg"@[0] != "css"@[0]);
    assert("jpg"@.len() != "js"@.len());
    assert("jpg"@.len() != "html"@.len());
    assert("jpg"@.len() != "json"@.len());
    assert("jpg"@[0] != "png"@[0]);
    assert("jpeg"@.len() != "css"@.len());
    assert("jpeg"@.len() != "js"@.len());
    assert("jpeg"@[0] != "html"@[0]);
    assert("jpeg"@[1] != "json"@[1]);
    assert("jpeg"@.len() != "png"@.len());
    assert("jpeg"@.len() != "jpg"@.len());
    assert("gif"@[0] != "css"@[0]);
    assert("gif"@.len() != "js"@.len());
    assert("gif"@.len() != "html"@.len());
    assert("gif"@.len() != "json"@.len());
    assert("gif"@[0] != "png"@[0]);
    assert("gif"@[0] != "jpg"@[0]);
    assert("gif"@.len() != "jpeg"@.len());
    assert("py"@.len() != "css"@.len());
    assert("py"@[0] != "js"@[0]);
    assert("py"@.len() != "html"@.len());
    assert("py"@.len() != "json"@.len());
    assert("py"@.len() != "png"@.len());
    assert("py"@.len() != "jpg"@.len());
    assert("py"@.len() != "jpeg"@.len());
    assert("py"@.len() != "gif"@.len());
    assert("svg"@[0] != "css"@[0]);
    assert("svg"@.len() != "js"@.len());
    assert("svg"@.len() != "html"@.len());
    assert("svg"@.len() != "json"@.len());
    assert("svg"@[0] != "png"@[0]);
    assert("svg"@[0] != "jpg"@[0]);
    assert("svg"@.len() != "jpeg"@.len());
    assert("svg"@[0] != "gif"@[0]);
    assert("svg"@.len() != "py"@.len());
    assert("txt"@[0] != "css"@[0]);
    assert("txt"@.len() != "js"@.len());
    assert("txt"@.len() != "html"@.len());
    assert("txt"@.len() != "json"@.len());
    assert("txt"@[0] != "png"@[0]);
    assert("txt"@[0] != "jpg"@[0]);
    assert("txt"@.len() != "jpeg"@.len());
    assert("txt"@[0] != "gif"@[0]);
    assert("txt"@.len() != "py"@.len());
    assert("txt"@[0] != "svg"@[0]);
    assert("pdf"@[0] != "css"@[0]);
    assert("pdf"@.len() != "js"@.len());
    assert("pdf"@.len() != "html"@.len());
    assert("pdf"@.len() != "json"@.len());
    assert("pdf"@[1] != "png"@[1]);
    assert("pdf"@[0] != "jpg"@[0]);
    assert("pdf"@.len() != "jpeg"@.len());
    assert("pdf"@[0] != "gif"@[0]);
    assert("pdf"@.len() != "py"@.len());
    assert("pdf"@[0] != "svg"@[0]);
    assert("pdf"@[0] != "txt"@[0]);
    assert("xml"@[0] != "css"@[0]);
    assert("xml"@.len() != "js"@.len());
    assert("xml"@.len() != "html"@.len());
    assert("xml"@.len() != "json"@.len());
    assert("xml"@[0] != "png"@[0]);
    assert("xml"@[0] != "jpg"@[0]);
    assert("xml"@.len() != "jpeg"@.len());
    assert("xml"@[0] != "gif"@[0]);
    assert("xml"@.len() != "py"@.len());
    assert("xml"@[0] != "svg"@[0]);
    assert("xml"@[0] != "txt"@[0]);
    assert("xml"@[0] != "pdf"@[0]);
    assert("zip"@[0] != "css"@[0]);
    assert("zip"@.len() != "js"@.len());
    assert("zip"@.len() != "html"@.len());
    assert("zip"@.len() != "json"@.len());
    assert("zip"@[0] != "png"@[0]);
    assert("zip"@[0] != "jpg"@[0]);
    assert("zip"@.len() != "jpeg"@.len());
    assert("zip"@[0] != "gif"@[0]);
    assert("zip"@.len() != "py"@.len());
    assert("zip"@[0] != "svg"@[0]);
    assert("zip"@[0] != "txt"@[0]);
    assert("zip"@[0] != "pdf"@[0]);
    assert("zip"@[0] != "xml"@[0]);
}

/// A file whose name ends in `.` and a known extension is served with that
/// extension's content type, whatever comes before; for instance every
/// `.html` file is served as `text/html`.
pub proof fn lemma_served_content_type(p: Seq<char>, e: Seq<char>)
    requires
        forall|i: int| 0 <= i < e.len() ==> e[i] != '.',
    ensures
        e == "css"@ ==> content_type_of(extension(p + seq!['.'] + e)) == "text/css"@,
        e == "js"@ ==> content_type_of(extension(p + seq!['.'] + e)) == "text/javascript"@,
        e == "html"@ ==> content_type_of(extension(p + seq!['.'] + e)) == "text/html"@,
        e == "json"@ ==> content_type_of(extension(p + seq!['.'] + e)) == "application/json"@,
        e == "png"@ ==> content_type_of(extension(p + seq!['.'] + e)) == "image/png"@,
        e == "jpg"@ ==> content_type_of(extension(p + seq!['.'] + e)) == "image/jpeg"@,
        e == "jpeg"@ ==> content_type_of(extension(p + seq!['.'] + e)) == "image/jpeg"@,
        e == "gif"@ ==> content_type_of(extension(p + seq!['.'] + e)) == "image/gif"@,
        e == "py"@ ==> content_type_of(extension(p + seq!['.'] + e)) == "text/plain"@,
        e == "svg"@ ==> content_type_of(extension(p + seq!['.'] + e)) == "image/svg+xml"@,
        e == "txt"@ ==> content_type_of(extension(p + seq!['.'] + e)) == "text/plain"@,
        e == "pdf"@ ==> content_type_of(extension(p + seq!['.'] + e)) == "application/pdf"@,
        e == "xml"@ ==> content_type_of(extension(p + seq!['.'] + e)) == "application/xml"@,
        e == "zip"@ ==> content_type_of(extension(p + seq!['.'] + e)) == "application/zip"@,
{
    lemma_extension_of(p, e);
    lemma_content_type_table(e);
}

} // verus!
