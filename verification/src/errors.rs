//! Application errors and HTTP statuses.
use crate::text::{chars_of, contains, find_chars, first_occurrence, lemma_find_from, match_at};
use vstd::prelude::*;

verus! {

/// The kinds of I/O failure that the server tells apart.
#[derive(Clone, Copy, Debug, PartialEq, Eq, Structural)]
pub enum IoErrorKind {
    WouldBlock,
    NotFound,
    Other,
}

/// The server's errors. Failures of outside crates are carried by their
/// message.
#[derive(Debug)]
pub enum AppErr {
    Custom(String),
    DeserializeTOML(String),
    SerDeJSON(String),
    NonBlocking(String),
    ParseAddr(String),
    TmplNotFound(String),
    Buffering,
    IncompleteRequest,
    TooLarge,
    NotFound(String),
    Other(String),
    EmptyBuffer,
    NoServer,
    NoClient,
    ExtNotFound,
    NoCGI,
}

pub type AppResult<T> = Result<T, AppErr>;

/// The text of an error: its kind, then the carried message, ending with a
/// line feed.
pub open spec fn app_err_text(e: AppErr) -> Seq<char> {
    match e {
        AppErr::Custom(m) => "Error: "@ + m@ + ".\n"@,
        AppErr::DeserializeTOML(m) => "TOML: "@ + m@ + ".\n"@,
        AppErr::SerDeJSON(m) => "JSON: "@ + m@ + ".\n"@,
        AppErr::NonBlocking(m) => "Non-blocking: "@ + m@ + ".\n"@,
        AppErr::ParseAddr(m) => "Address Parsing: "@ + m@ + ".\n"@,
        AppErr::TmplNotFound(m) => "Template: "@ + m@ + ".\n"@,
        AppErr::Buffering => "Incomplete Buffer\n"@,
        AppErr::IncompleteRequest => "Incomplete Request\n"@,
        AppErr::TooLarge => "Request too large\n"@,
        AppErr::NotFound(m) => "Not Found: "@ + m@ + ".\n"@,
        AppErr::Other(m) => "ERROR: "@ + m@ + ".\n"@,
        AppErr::EmptyBuffer => "Empty buffer\n"@,
        AppErr::NoServer => "No server to connect\n"@,
        AppErr::NoClient => "No client to connect\n"@,
        AppErr::ExtNotFound => "File extension not found\n"@,
        AppErr::NoCGI => "No Common Gateway Interface!\n"@,
    }
}

/// `prefix`, then `m`, then `".\n"`.
fn framed(prefix: &str, m: &String) -> (s: String)
    ensures
        s@ == prefix@ + m@ + ".\n"@,
{
    let mut s = String::from_str(prefix);
    s.append(m.as_str());
    s.append(".\n");
    s
}

/// The message of the operating system's last error
/// (`std::io::Error::last_os_error`). It depends on the machine's state, so
/// nothing is stated of it.
#[verifier::external_body]
fn last_os_error_message() -> String {
    std::io::Error::last_os_error().to_string()
}

impl AppErr {
    /// A custom error with the given message.
    pub fn new(msg: &str) -> (e: Self)
        ensures
            e matches AppErr::Custom(m) && m@ == msg@,
    {
        AppErr::Custom(String::from_str(msg))
    }

    /// The error's text (what `Display` writes for it).
    pub fn to_string(&self) -> (s: String)
        ensures
            s@ == app_err_text(*self),
    {
        match self {
            AppErr::Custom(m) => framed("Error: ", m),
            AppErr::DeserializeTOML(m) => framed("TOML: ", m),
            AppErr::SerDeJSON(m) => framed("JSON: ", m),
            AppErr::NonBlocking(m) => framed("Non-blocking: ", m),
            AppErr::ParseAddr(m) => framed("Address Parsing: ", m),
            AppErr::TmplNotFound(m) => framed("Template: ", m),
            AppErr::Buffering => String::from_str("Incomplete Buffer\n"),
            AppErr::IncompleteRequest => String::from_str("Incomplete Request\n"),
            AppErr::TooLarge => String::from_str("Request too large\n"),
            AppErr::NotFound(m) => framed("Not Found: ", m),
            AppErr::Other(m) => framed("ERROR: ", m),
            AppErr::EmptyBuffer => String::from_str("Empty buffer\n"),
            AppErr::NoServer => String::from_str("No server to connect\n"),
            AppErr::NoClient => String::from_str("No client to connect\n"),
            AppErr::ExtNotFound => String::from_str("File extension not found\n"),
            AppErr::NoCGI => String::from_str("No Common Gateway Interface!\n"),
        }
    }

    /// The operating system's last error.
    pub fn last_os_error() -> (e: Self)
        ensures
            e is Other,
    {
        AppErr::Other(last_os_error_message())
    }

    /// The error for an I/O failure of the given kind.
    pub fn from_io(kind: IoErrorKind, message: String) -> (e: Self)
        ensures
            kind == IoErrorKind::WouldBlock ==> (e matches AppErr::NonBlocking(m) && m@ == message@),
            kind == IoErrorKind::NotFound ==> (e matches AppErr::NotFound(m) && m@ == message@),
            kind == IoErrorKind::Other ==> (e matches AppErr::Other(m) && m@ == message@),
    {
        match kind {
            IoErrorKind::WouldBlock => AppErr::NonBlocking(message),
            IoErrorKind::NotFound => AppErr::NotFound(message),
            IoErrorKind::Other => AppErr::Other(message),
        }
    }

    /// The error for a failed template rendering: a missing template is
    /// `TmplNotFound`, any other failure is a custom error with its text.
    pub fn from_template(template_missing: bool, message: String) -> (e: Self)
        ensures
            template_missing ==> (e matches AppErr::TmplNotFound(m) && m@ == message@),
            !template_missing ==> (e matches AppErr::Custom(m) && m@ == message@),
    {
        if template_missing {
            AppErr::TmplNotFound(message)
        } else {
            AppErr::Custom(message)
        }
    }
}

/// An HTTP status: its code and its reason text.
#[derive(Debug)]
pub struct HttpStatus {
    pub status_code: u16,
    pub message: String,
}

pub type HttpResult<T> = Result<T, HttpStatus>;

/// The reason text of a status code; unknown codes read as an internal error.
pub open spec fn status_text(code: u16) -> Seq<char> {
    if code == 200 {
        "OK"@
    } else if code == 301 {
        "Moved Permanently"@
    } else if code == 302 {
        "Found"@
    } else if code == 303 {
        "See Other"@
    } else if code == 400 {
        "Bad Request"@
    } else if code == 401 {
        "Unauthorized"@
    } else if code == 403 {
        "Forbidden"@
    } else if code == 404 {
        "Not Found"@
    } else if code == 405 {
        "Method Not Allowed"@
    } else if code == 413 {
        "Request Entity Too Large"@
    } else {
        "Internal Server Error"@
    }
}

/// The status code that a lower-cased message names: the first phrase, in
/// this order, that the message contains.
pub open spec fn code_of_lowercase(m: Seq<char>) -> u16 {
    if contains(m, "ok"@) {
        200
    } else if contains(m, "moved permanently"@) {
        301
    } else if contains(m, "found"@) {
        302
    } else if contains(m, "see other"@) {
        303
    } else if contains(m, "bad request"@) {
        400
    } else if contains(m, "unauthorized"@) {
        401
    } else if contains(m, "forbidden"@) {
        403
    } else if contains(m, "not found"@) {
        404
    } else if contains(m, "method not allowed"@) {
        405
    } else if contains(m, "too large"@) {
        413
    } else {
        500
    }
}

/// The result of `str::to_lowercase` on a string (Unicode lower-case mapping).
pub uninterp spec fn lowercase(s: Seq<char>) -> Seq<char>;

/// ASCII lower-case mapping of one character.
pub open spec fn ascii_lower(c: char) -> char {
    if 'A' <= c && c <= 'Z' {
        ((c as u32) + 32) as char
    } else {
        c
    }
}

/// `str::to_lowercase`. The result is named by `lowercase`; of an ASCII
/// string, the documented lower-case mapping is the ASCII one.
#[verifier::external_body]
fn to_lowercase(s: &str) -> (r: String)
    ensures
        r@ == lowercase(s@),
        vstd::utf8::is_ascii_chars(s@) ==> r@ == s@.map_values(|c: char| ascii_lower(c)),
{
    s.to_lowercase()
}

fn contains_literal(s: &[char], lit: &str) -> (b: bool)
    requires
        lit@.len() > 0,
    ensures
        b == contains(s@, lit@),
{
    let p = chars_of(lit);
    find_chars(s, p.as_slice(), 0).is_some()
}

impl HttpStatus {
    /// The status of a code, with its reason text (`From<u16>`).
    pub fn from_code(status_code: u16) -> (s: Self)
        ensures
            s.status_code == status_code,
            s.message@ == status_text(status_code),
    {
        let msg = if status_code == 200 {
            "OK"
        } else if status_code == 301 {
            "Moved Permanently"
        } else if status_code == 302 {
            "Found"
        } else if status_code == 303 {
            "See Other"
        } else if status_code == 400 {
            "Bad Request"
        } else if status_code == 401 {
            "Unauthorized"
        } else if status_code == 403 {
            "Forbidden"
        } else if status_code == 404 {
            "Not Found"
        } else if status_code == 405 {
            "Method Not Allowed"
        } else if status_code == 413 {
            "Request Entity Too Large"
        } else {
            "Internal Server Error"
        };
        HttpStatus { status_code, message: String::from_str(msg) }
    }

    /// The code named by an already lower-cased message.
    pub fn code_for_lowercase(lower: &str) -> (code: u16)
        ensures
            code == code_of_lowercase(lower@),
    {
        proof {
            reveal_strlit("ok");
            reveal_strlit("moved permanently");
            reveal_strlit("found");
            reveal_strlit("see other");
            reveal_strlit("bad request");
            reveal_strlit("unauthorized");
            reveal_strlit("forbidden");
            reveal_strlit("not found");
            reveal_strlit("method not allowed");
            reveal_strlit("too large");
        }
        let m = chars_of(lower);
        if contains_literal(&m, "ok") {
            200
        } else if contains_literal(&m, "moved permanently") {
            301
        } else if contains_literal(&m, "found") {
            302
        } else if contains_literal(&m, "see other") {
            303
        } else if contains_literal(&m, "bad request") {
            400
        } else if contains_literal(&m, "unauthorized") {
            401
        } else if contains_literal(&m, "forbidden") {
            403
        } else if contains_literal(&m, "not found") {
            404
        } else if contains_literal(&m, "method not allowed") {
            405
        } else if contains_literal(&m, "too large") {
            413
        } else {
            500
        }
    }

    /// The status named by a message (`From<String>`): the message is kept as
    /// the reason text, and the code comes from its lower-cased form.
    pub fn from_message(message: String) -> (s: Self)
        ensures
            s.status_code == code_of_lowercase(lowercase(message@)),
            vstd::utf8::is_ascii_chars(message@) ==> s.status_code == code_of_lowercase(
                ascii_lowercase(message@),
            ),
            s.message@ == message@,
    {
        let lower = to_lowercase(message.as_str());
        let status_code = Self::code_for_lowercase(lower.as_str());
        HttpStatus { status_code, message }
    }

    /// The status an application error answers with (`From<AppErr>`).
    pub fn from_app_err(err: AppErr) -> (s: Self)
        ensures
            match err {
                AppErr::NoCGI | AppErr::ExtNotFound | AppErr::NotFound(_) | AppErr::TmplNotFound(
                    _,
                ) => s.status_code == 404 && s.message@ == status_text(404),
                AppErr::Custom(m) => s.status_code == code_of_lowercase(lowercase(m@))
                    && s.message@ == m@,
                AppErr::TooLarge => s.status_code == 413 && s.message@ == status_text(413),
                _ => s.status_code == 500 && s.message@ == status_text(500),
            },
    {
        match err {
            AppErr::NoCGI | AppErr::ExtNotFound | AppErr::NotFound(_) | AppErr::TmplNotFound(_) => {
                Self::from_code(404)
            },
            AppErr::Custom(msg) => Self::from_message(msg),
            AppErr::TooLarge => Self::from_code(413),
            _ => Self::from_code(500),
        }
    }
}

/// `s` with its ASCII capitals lower-cased.
pub open spec fn ascii_lowercase(s: Seq<char>) -> Seq<char> {
    s.map_values(|c: char| ascii_lower(c))
}

/// The code that the reason text of `code` reads back as: its own code,
/// except that "Not Found" contains "found" and reads as 302; an unknown
/// code has the text of 500.
pub open spec fn code_read_back(code: u16) -> u16 {
    if code == 404 {
        302
    } else if code == 200 || code == 301 || code == 302 || code == 303 || code == 400 || code
        == 401 || code == 403 || code == 405 || code == 413 {
        code
    } else {
        500
    }
}

proof fn lemma_absent_char(m: Seq<char>, p: Seq<char>, j: int)
    requires
        0 <= j < p.len(),
        forall|i: int| 0 <= i < m.len() ==> m[i] != p[j],
    ensures
        !contains(m, p),
{
    lemma_find_from(m, p, 0);
    if contains(m, p) {
        let k = first_occurrence(m, p)->0;
        assert(m.subrange(k, k + p.len())[j] == m[k + j]);
    }
}

proof fn lemma_too_long(m: Seq<char>, p: Seq<char>)
    requires
        p.len() > m.len(),
    ensures
        !contains(m, p),
{
}

proof fn lemma_contains_at(m: Seq<char>, p: Seq<char>, k: int)
    requires
        match_at(m, p, k),
    ensures
        contains(m, p),
{
    lemma_find_from(m, p, 0);
}

proof fn lemma_read_back_200()
    ensures
        vstd::utf8::is_ascii_chars("OK"@),
        code_of_lowercase(ascii_lowercase("OK"@)) == 200,
{
    reveal_strlit("OK");
    reveal_strlit("ok");
    assert(ascii_lowercase("OK"@) =~= "ok"@);
    lemma_contains_at("ok"@, "ok"@, 0);
    assert("ok"@.subrange(0, 2) =~= "ok"@);
}

proof fn lemma_read_back_301()
    ensures
        vstd::utf8::is_ascii_chars("Moved Permanently"@),
        code_of_lowercase(ascii_lowercase("Moved Permanently"@)) == 301,
{
    reveal_strlit("Moved Permanently");
    reveal_strlit("moved permanently");
    reveal_strlit("ok");
    assert(ascii_lowercase("Moved Permanently"@) =~= "moved permanently"@);
    lemma_absent_char("moved permanently"@, "ok"@, 1);
    lemma_contains_at("moved permanently"@, "moved permanently"@, 0);
    assert("moved permanently"@.subrange(0, 17) =~= "moved permanently"@);
}

proof fn lemma_read_back_302()
    ensures
        vstd::utf8::is_ascii_chars("Found"@),
        code_of_lowercase(ascii_lowercase("Found"@)) == 302,
{
    reveal_strlit("Found");
    reveal_strlit("found");
    reveal_strlit("moved permanently");
    reveal_strlit("ok");
    assert(ascii_lowercase("Found"@) =~= "found"@);
    lemma_absent_char("found"@, "ok"@, 1);
    lemma_too_long("found"@, "moved permanently"@);
    lemma_contains_at("found"@, "found"@, 0);
    assert("found"@.subrange(0, 5) =~= "found"@);
}

proof fn lemma_read_back_303()
    ensures
        vstd::utf8::is_ascii_chars("See Other"@),
        code_of_lowercase(ascii_lowercase("See Other"@)) == 303,
{
    reveal_strlit("See Other");
    reveal_strlit("found");
    reveal_strlit("moved permanently");
    reveal_strlit("ok");
    reveal_strlit("see other");
    assert(ascii_lowercase("See Other"@) =~= "see other"@);
    lemma_absent_char("see other"@, "ok"@, 1);
    lemma_too_long("see other"@, "moved permanently"@);
    lemma_absent_char("see other"@, "found"@, 0);
    lemma_contains_at("see other"@, "see other"@, 0);
    assert("see other"@.subrange(0, 9) =~= "see other"@);
}

proof fn lemma_read_back_400()
    ensures
        vstd::utf8::is_ascii_chars("Bad Request"@),
        code_of_lowercase(ascii_lowercase("Bad Request"@)) == 400,
{
    reveal_strlit("Bad Request");
    reveal_strlit("bad request");
    reveal_strlit("found");
    reveal_strlit("moved permanently");
    reveal_strlit("ok");
    reveal_strlit("see other");
    assert(ascii_lowercase("Bad Request"@) =~= "bad request"@);
    lemma_absent_char("bad request"@, "ok"@, 0);
    lemma_too_long("bad request"@, "moved permanently"@);
    lemma_absent_char("bad request"@, "found"@, 0);
    lemma_absent_char("bad request"@, "see other"@, 4);
    lemma_contains_at("bad request"@, "bad request"@, 0);
    assert("bad request"@.subrange(0, 11) =~= "bad request"@);
}

proof fn lemma_read_back_401()
    ensures
        vstd::utf8::is_ascii_chars("Unauthorized"@),
        code_of_lowercase(ascii_lowercase("Unauthorized"@)) == 401,
{
    reveal_strlit("Unauthorized");
    reveal_strlit("bad request");
    reveal_strlit("found");
    reveal_strlit("moved permanently");
    reveal_strlit("ok");
    reveal_strlit("see other");
    reveal_strlit("unauthorized");
    assert(ascii_lowercase("Unauthorized"@) =~= "unauthorized"@);
    lemma_absent_char("unauthorized"@, "ok"@, 1);
    lemma_too_long("unauthorized"@, "moved permanently"@);
    lemma_absent_char("unauthorized"@, "found"@, 0);
    lemma_absent_char("unauthorized"@, "see other"@, 0);
    lemma_absent_char("unauthorized"@, "bad request"@, 0);
    lemma_contains_at("unauthorized"@, "unauthorized"@, 0);
    assert("unauthorized"@.subrange(0, 12) =~= "unauthorized"@);
}

proof fn lemma_read_back_403()
    ensures
        vstd::utf8::is_ascii_chars("Forbidden"@),
        code_of_lowercase(ascii_lowercase("Forbidden"@)) == 403,
{
    reveal_strlit("Forbidden");
    reveal_strlit("bad request");
    reveal_strlit("forbidden");
    reveal_strlit("found");
    reveal_strlit("moved permanently");
    reveal_strlit("ok");
    reveal_strlit("see other");
    reveal_strlit("unauthorized");
    assert(ascii_lowercase("Forbidden"@) =~= "forbidden"@);
    lemma_absent_char("forbidden"@, "ok"@, 1);
    lemma_too_long("forbidden"@, "moved permanently"@);
    lemma_absent_char("forbidden"@, "found"@, 2);
    lemma_absent_char("forbidden"@, "see other"@, 0);
    lemma_too_long("forbidden"@, "bad request"@);
    lemma_too_long("forbidden"@, "unauthorized"@);
    lemma_contains_at("forbidden"@, "forbidden"@, 0);
    assert("forbidden"@.subrange(0, 9) =~= "forbidden"@);
}

proof fn lemma_read_back_404()
    ensures
        vstd::utf8::is_ascii_chars("Not Found"@),
        code_of_lowercase(ascii_lowercase("Not Found"@)) == 302,
{
    reveal_strlit("Not Found");
    reveal_strlit("found");
    reveal_strlit("moved permanently");
    reveal_strlit("not found");
    reveal_strlit("ok");
    assert(ascii_lowercase("Not Found"@) =~= "not found"@);
    lemma_absent_char("not found"@, "ok"@, 1);
    lemma_too_long("not found"@, "moved permanently"@);
    lemma_contains_at("not found"@, "found"@, 4);
    assert("not found"@.subrange(4, 9) =~= "found"@);
}

proof fn lemma_read_back_405()
    ensures
        vstd::utf8::is_ascii_chars("Method Not Allowed"@),
        code_of_lowercase(ascii_lowercase("Method Not Allowed"@)) == 405,
{
    reveal_strlit("Method Not Allowed");
    reveal_strlit("bad request");
    reveal_strlit("forbidden");
    reveal_strlit("found");
    reveal_strlit("method not allowed");
    reveal_strlit("moved permanently");
    reveal_strlit("not found");
    reveal_strlit("ok");
    reveal_strlit("see other");
    reveal_strlit("unauthorized");
    assert(ascii_lowercase("Method Not Allowed"@) =~= "method not allowed"@);
    lemma_absent_char("method not allowed"@, "ok"@, 1);
    lemma_absent_char("method not allowed"@, "moved permanently"@, 2);
    lemma_absent_char("method not allowed"@, "found"@, 0);
    lemma_absent_char("method not allowed"@, "see other"@, 0);
    lemma_absent_char("method not allowed"@, "bad request"@, 0);
    lemma_absent_char("method not allowed"@, "unauthorized"@, 0);
    lemma_absent_char("method not allowed"@, "forbidden"@, 0);
    lemma_absent_char("method not allowed"@, "not found"@, 4);
    lemma_contains_at("method not allowed"@, "method not allowed"@, 0);
    assert("method not allowed"@.subrange(0, 18) =~= "method not allowed"@);
}

proof fn lemma_read_back_413()
    ensures
        vstd::utf8::is_ascii_chars("Request Entity Too Large"@),
        code_of_lowercase(ascii_lowercase("Request Entity Too Large"@)) == 413,
{
    reveal_strlit("Request Entity Too Large");
    reveal_strlit("bad request");
    reveal_strlit("forbidden");
    reveal_strlit("found");
    reveal_strlit("method not allowed");
    reveal_strlit("moved permanently");
    reveal_strlit("not found");
    reveal_strlit("ok");
    reveal_strlit("request entity too large");
    reveal_strlit("see other");
    reveal_strlit("too large");
    reveal_strlit("unauthorized");
    assert(ascii_lowercase("Request Entity Too Large"@) =~= "request entity too large"@);
    lemma_absent_char("request entity too large"@, "ok"@, 1);
    lemma_absent_char("request entity too large"@, "moved permanently"@, 0);
    lemma_absent_char("request entity too large"@, "found"@, 0);
    lemma_absent_char("request entity too large"@, "see other"@, 6);
    lemma_absent_char("request entity too large"@, "bad request"@, 0);
    lemma_absent_char("request entity too large"@, "unauthorized"@, 5);
    lemma_absent_char("request entity too large"@, "forbidden"@, 0);
    lemma_absent_char("request entity too large"@, "not found"@, 4);
    lemma_absent_char("request entity too large"@, "method not allowed"@, 0);
    lemma_contains_at("request entity too large"@, "too large"@, 15);
    assert("request entity too large"@.subrange(15, 24) =~= "too large"@);
}

proof fn lemma_read_back_500()
    ensures
        vstd::utf8::is_ascii_chars("Internal Server Error"@),
        code_of_lowercase(ascii_lowercase("Internal Server Error"@)) == 500,
{
    reveal_strlit("Internal Server Error");
    reveal_strlit("bad request");
    reveal_strlit("forbidden");
    reveal_strlit("found");
    reveal_strlit("internal server error");
    reveal_strlit("method not allowed");
    reveal_strlit("moved permanently");
    reveal_strlit("not found");
    reveal_strlit("ok");
    reveal_strlit("see other");
    reveal_strlit("too large");
    reveal_strlit("unauthorized");
    assert(ascii_lowercase("Internal Server Error"@) =~= "internal server error"@);
    lemma_absent_char("internal server error"@, "ok"@, 1);
    lemma_absent_char("internal server error"@, "moved permanently"@, 0);
    lemma_absent_char("internal server error"@, "found"@, 0);
    lemma_absent_char("internal server error"@, "see other"@, 6);
    lemma_absent_char("internal server error"@, "bad request"@, 0);
    lemma_absent_char("internal server error"@, "unauthorized"@, 0);
    lemma_absent_char("internal server error"@, "forbidden"@, 0);
    lemma_absent_char("internal server error"@, "not found"@, 4);
    lemma_absent_char("internal server error"@, "method not allowed"@, 0);
    lemma_absent_char("internal server error"@, "too large"@, 7);
}

/// The reason text of a status reads back as its code: the text of every
/// known code but 404 gives the code again, "Not Found" gives 302, and an
/// unknown code gives 500. The texts are ASCII, so their lower-case form is
/// the ASCII one that `HttpStatus::from_message` reads.
pub proof fn lemma_status_round_trip(code: u16)
    ensures
        vstd::utf8::is_ascii_chars(status_text(code)),
        code_of_lowercase(ascii_lowercase(status_text(code))) == code_read_back(code),
{
    if code == 200 {
        lemma_read_back_200();
    } else if code == 301 {
        lemma_read_back_301();
    } else if code == 302 {
        lemma_read_back_302();
    } else if code == 303 {
        lemma_read_back_303();
    } else if code == 400 {
        lemma_read_back_400();
    } else if code == 401 {
        lemma_read_back_401();
    } else if code == 403 {
        lemma_read_back_403();
    } else if code == 404 {
        lemma_read_back_404();
    } else if code == 405 {
        lemma_read_back_405();
    } else if code == 413 {
        lemma_read_back_413();
    } else {
        lemma_read_back_500();
    }
}

} // verus!
