//! HTTP requests: methods, resources, and the parser from raw bytes.
use crate::errors::AppErr;
use crate::table::{lookup, table_insert, Headers, StrMap, TableView};
use crate::text::{
    chars_eq, chars_of, contains, copy_range, find_bytes, find_chars, first_occurrence,
    lemma_find_from_at, match_at,
    lines, lines_of, parse_usize, parse_usize_chars, string_from_chars, trim, trim_range, views,
    words, words_of,
};
use vstd::prelude::*;
use vstd::utf8::{decode_utf8, valid_utf8};

verus! {

/// A request method.
#[derive(Clone, Copy, Debug, PartialEq, Eq, Structural)]
pub enum Method {
    GET,
    POST,
    DELETE,
    Uninitialized,
}

/// The method a request-line token names (`From<&str>`).
pub open spec fn method_of(s: Seq<char>) -> Method {
    if s == "GET"@ {
        Method::GET
    } else if s == "POST"@ {
        Method::POST
    } else if s == "DELETE"@ {
        Method::DELETE
    } else {
        Method::Uninitialized
    }
}

/// How a method is written out (`Display`); `DELETE` is followed by a
/// line feed.
pub open spec fn method_text(m: Method) -> Seq<char> {
    match m {
        Method::GET => "GET"@,
        Method::POST => "POST"@,
        Method::DELETE => "DELETE\n"@,
        Method::Uninitialized => "Uninitialized Method"@,
    }
}

impl Method {
    /// The method a token names.
    pub fn from_chars(s: &[char]) -> (m: Method)
        ensures
            m == method_of(s@),
    {
        if chars_eq(s, chars_of("GET").as_slice()) {
            Method::GET
        } else if chars_eq(s, chars_of("POST").as_slice()) {
            Method::POST
        } else if chars_eq(s, chars_of("DELETE").as_slice()) {
            Method::DELETE
        } else {
            Method::Uninitialized
        }
    }

    /// The method a token names (`From<&str>`).
    pub fn from_str(s: &str) -> (m: Method)
        ensures
            m == method_of(s@),
    {
        Self::from_chars(chars_of(s).as_slice())
    }

    /// The method written out.
    pub fn to_string(&self) -> (s: String)
        ensures
            s@ == method_text(*self),
    {
        match self {
            Method::GET => String::from_str("GET"),
            Method::POST => String::from_str("POST"),
            Method::DELETE => String::from_str("DELETE\n"),
            Method::Uninitialized => String::from_str("Uninitialized Method"),
        }
    }
}

/// What a request asks for.
#[derive(Debug)]
pub enum Resource {
    Path(String),
}

impl Resource {
    /// The requested path.
    pub open spec fn path(&self) -> Seq<char> {
        match self {
            Resource::Path(s) => s@,
        }
    }

    /// The requested path.
    pub fn as_str(&self) -> (s: &str)
        ensures
            s@ == self.path(),
    {
        match self {
            Resource::Path(s) => s.as_str(),
        }
    }
}

/// A parsed request.
pub struct Request {
    pub resource: Resource,
    pub method: Method,
    pub headers: Headers,
    pub body: Vec<u8>,
}

// ---------------------------------------------------------------------
// Request line and header lines
// ---------------------------------------------------------------------

/// The key of a header line: what precedes its first `':'`, trimmed.
pub open spec fn header_key(l: Seq<char>) -> Seq<char> {
    match first_occurrence(l, seq![':']) {
        Some(i) => trim(l.take(i)),
        None => trim(l),
    }
}

/// The value of a header line: what follows its first `':'`, trimmed.
pub open spec fn header_value(l: Seq<char>) -> Seq<char> {
    match first_occurrence(l, seq![':']) {
        Some(i) => trim(l.skip(i + 1)),
        None => Seq::empty(),
    }
}

/// The table that a sequence of header lines builds: every non-empty line is
/// inserted in turn, so a later line replaces an earlier one with its key.
pub open spec fn header_table(ls: Seq<Seq<char>>) -> TableView
    decreases ls.len(),
{
    if ls.len() == 0 {
        Seq::empty()
    } else {
        let t = header_table(ls.drop_last());
        let l = ls.last();
        if l.len() == 0 {
            t
        } else {
            table_insert(t, header_key(l), header_value(l))
        }
    }
}

fn colon() -> (c: Vec<char>)
    ensures
        c@ == seq![':'],
{
    let mut c: Vec<char> = Vec::new();
    c.push(':');
    assert(c@ =~= seq![':']);
    c
}

/// Key and value of a header line, as characters.
pub fn header_pair(l: &[char]) -> (r: (Vec<char>, Vec<char>))
    ensures
        r.0@ == header_key(l@),
        r.1@ == header_value(l@),
{
    let c = colon();
    let n = l.len();
    proof {
        assert(l@.subrange(0, l@.len() as int) =~= l@);
    }
    match find_chars(l, c.as_slice(), 0) {
        Some(i) => {
            proof {
                assert(l@.subrange(0, i as int) =~= l@.take(i as int));
                assert(l@.subrange(i + 1, l@.len() as int) =~= l@.skip(i + 1));
            }
            (trim_range(l, 0, i), trim_range(l, i + 1, n))
        },
        None => {
            let v: Vec<char> = Vec::new();
            (trim_range(l, 0, l.len()), v)
        },
    }
}

/// Splits a header line into its trimmed key and value.
pub fn process_header_line(s: &str) -> (r: (String, String))
    ensures
        r.0@ == header_key(s@),
        r.1@ == header_value(s@),
{
    let cs = chars_of(s);
    let (k, v) = header_pair(cs.as_slice());
    (string_from_chars(k.as_slice()), string_from_chars(v.as_slice()))
}

/// Method and resource of a request line given as characters.
pub fn request_line_parts(s: &[char]) -> (r: (Method, Resource))
    requires
        words(s@).len() >= 2,
    ensures
        r.0 == method_of(words(s@)[0]),
        r.1.path() == words(s@)[1],
{
    let w = words_of(s);
    assert(w@[0]@ == words(s@)[0]);
    assert(w@[1]@ == words(s@)[1]);
    let m = Method::from_chars(w[0].as_slice());
    let p = string_from_chars(w[1].as_slice());
    (m, Resource::Path(p))
}

/// Method and resource of a request line: its first two
/// whitespace-separated words.
pub fn process_req_line(s: &str) -> (r: (Method, Resource))
    requires
        words(s@).len() >= 2,
    ensures
        r.0 == method_of(words(s@)[0]),
        r.1.path() == words(s@)[1],
{
    let cs = chars_of(s);
    request_line_parts(cs.as_slice())
}

// ---------------------------------------------------------------------
// The request parser
// ---------------------------------------------------------------------

/// The bytes that end the header block.
pub open spec fn head_delimiter() -> Seq<u8> {
    seq![13u8, 10u8, 13u8, 10u8]
}

/// Where the header block ends (just after its blank line), if it does.
pub open spec fn head_end(b: Seq<u8>) -> Option<int> {
    match first_occurrence(b, head_delimiter()) {
        Some(p) => Some(p + 4),
        None => None,
    }
}

/// The header block decoded as UTF-8, if it ends and is valid UTF-8.
pub open spec fn head_text(b: Seq<u8>) -> Option<Seq<char>> {
    match head_end(b) {
        Some(e) => if valid_utf8(b.take(e)) {
            Some(decode_utf8(b.take(e)))
        } else {
            None
        },
        None => None,
    }
}

/// The first line of the header block, when it mentions `HTTP`.
pub open spec fn request_line(text: Seq<char>) -> Option<Seq<char>> {
    let ls = lines(text);
    if ls.len() > 0 && contains(ls[0], "HTTP"@) {
        Some(ls[0])
    } else {
        None
    }
}

/// The method of a raw request.
pub open spec fn parsed_method(b: Seq<u8>) -> Method {
    match head_text(b) {
        Some(t) => match request_line(t) {
            Some(l) => method_of(words(l)[0]),
            None => Method::Uninitialized,
        },
        None => Method::Uninitialized,
    }
}

/// The path of a raw request.
pub open spec fn parsed_path(b: Seq<u8>) -> Seq<char> {
    match head_text(b) {
        Some(t) => match request_line(t) {
            Some(l) => words(l)[1],
            None => Seq::empty(),
        },
        None => Seq::empty(),
    }
}

/// The headers of a raw request: all lines after the first.
pub open spec fn parsed_headers(b: Seq<u8>) -> TableView {
    match head_text(b) {
        Some(t) => if lines(t).len() > 0 {
            header_table(lines(t).drop_first())
        } else {
            Seq::empty()
        },
        None => Seq::empty(),
    }
}

/// The body of a raw request: what follows the header block.
pub open spec fn parsed_body(b: Seq<u8>) -> Seq<u8> {
    match head_end(b) {
        Some(e) => b.skip(e),
        None => Seq::empty(),
    }
}

/// The parser does not fail on these bytes: a request line that mentions
/// `HTTP` holds at least two words.
pub open spec fn parsable(b: Seq<u8>) -> bool {
    match head_text(b) {
        Some(t) => match request_line(t) {
            Some(l) => words(l).len() >= 2,
            None => true,
        },
        None => true,
    }
}

/// `String::from_utf8`: a string exactly when the bytes are valid UTF-8.
#[verifier::external_body]
pub(crate) fn utf8_string(bytes: Vec<u8>) -> (r: Option<String>)
    ensures
        r is Some <==> valid_utf8(bytes@),
        r matches Some(s) ==> s@ == decode_utf8(bytes@),
{
    String::from_utf8(bytes).ok()
}

/// The result of `String::from_utf8_lossy`: invalid sequences become
/// U+FFFD.
pub uninterp spec fn lossy_utf8(b: Seq<u8>) -> Seq<char>;

/// `String::from_utf8_lossy`. The result is named by `lossy_utf8`; of valid
/// UTF-8 it is the decoded text.
#[verifier::external_body]
pub(crate) fn lossy_string(bytes: &[u8]) -> (s: String)
    ensures
        s@ == lossy_utf8(bytes@),
        valid_utf8(bytes@) ==> s@ == decode_utf8(bytes@),
{
    String::from_utf8_lossy(bytes).into_owned()
}

/// The position of the first line at or after `i` that contains `p`.
pub open spec fn first_line_with(ls: Seq<Seq<char>>, p: Seq<char>, i: int) -> Option<int>
    decreases ls.len() - i,
{
    if i < 0 || i >= ls.len() {
        None
    } else if contains(ls[i], p) {
        Some(i)
    } else {
        first_line_with(ls, p, i + 1)
    }
}

/// The text between the first and second `':'` of a line (`split(':').nth(1)`).
pub open spec fn second_field(l: Seq<char>) -> Option<Seq<char>> {
    match first_occurrence(l, seq![':']) {
        None => None,
        Some(i) => {
            let r = l.skip(i + 1);
            match first_occurrence(r, seq![':']) {
                None => Some(r),
                Some(j) => Some(r.take(j)),
            }
        },
    }
}

/// The text before the first `':'` of a line (`split(':').nth(0)`).
pub open spec fn first_field(l: Seq<char>) -> Seq<char> {
    match first_occurrence(l, seq![':']) {
        None => l,
        Some(i) => l.take(i),
    }
}

/// The `Content-Length` a request text announces: the field after the first
/// `':'` of the first line that mentions it, parsed as a number; 0 when there
/// is no such line or the field does not parse.
pub open spec fn content_length_of(t: Seq<char>) -> usize {
    let ls = lines(t);
    match first_line_with(ls, "Content-Length"@, 0) {
        None => 0,
        Some(i) => match second_field(ls[i]) {
            None => 0,
            Some(f) => match parse_usize(trim(f)) {
                Some(n) => n,
                None => 0,
            },
        },
    }
}

/// The `Host` of a header table: its value up to the first `':'`, trimmed.
pub open spec fn host_of(t: TableView) -> Seq<char> {
    match lookup(t, "Host"@) {
        Some(h) => trim(first_field(h)),
        None => Seq::empty(),
    }
}

/// What `Request::get` does with a request buffer, given the
/// `Content-Length` that the buffer announces.
pub enum Admission {
    TooLarge,
    Incomplete,
    Complete,
}

pub open spec fn admission(len: nat, content_length: usize, size_limit: u64) -> Admission {
    if size_limit < content_length as u64 {
        Admission::TooLarge
    } else if len < content_length {
        Admission::Incomplete
    } else {
        Admission::Complete
    }
}

impl Request {
    /// The parsed request, in the terms of the spec functions above.
    pub open spec fn parses_from(&self, b: Seq<u8>) -> bool {
        &&& self.resource.path() == parsed_path(b)
        &&& self.method == parsed_method(b)
        &&& self.headers@ == parsed_headers(b)
        &&& self.body@ == parsed_body(b)
    }

    /// The parser's own precondition, for callers that must test it first.
    pub fn can_parse(bytes: &Vec<u8>) -> (b: bool)
        ensures
            b == parsable(bytes@),
    {
        let (text, _) = Self::split_head(bytes.clone());
        match text {
            Some(t) => {
                let cs = chars_of(t.as_str());
                let ls = lines_of(cs.as_slice());
                if ls.len() > 0 && contains_http(ls[0].as_slice()) {
                    let w = words_of(ls[0].as_slice());
                    assert(views(ls@)[0] == ls@[0]@);
                    w.len() >= 2
                } else {
                    true
                }
            },
            None => true,
        }
    }

    /// The decoded header block and the body.
    fn split_head(bytes: Vec<u8>) -> (r: (Option<String>, Vec<u8>))
        ensures
            match r.0 {
                Some(t) => head_text(bytes@) == Some(t@),
                None => head_text(bytes@) is None,
            },
            r.1@ == parsed_body(bytes@),
    {
        let mut delim: Vec<u8> = Vec::new();
        delim.push(13u8);
        delim.push(10u8);
        delim.push(13u8);
        delim.push(10u8);
        assert(delim@ =~= head_delimiter());
        match find_bytes(bytes.as_slice(), delim.as_slice()) {
            None => {
                let empty: Vec<u8> = Vec::new();
                assert(empty@ =~= parsed_body(bytes@));
                (None, empty)
            },
            Some(pos) => {
                let n = bytes.len();
                let mut head = bytes;
                assert(pos + 4 <= n);
                let body = head.split_off(pos + 4);
                assert(head@ =~= bytes@.take(pos + 4));
                assert(body@ =~= bytes@.skip(pos + 4));
                (utf8_string(head), body)
            },
        }
    }

    /// Parses raw request bytes (`From<Vec<u8>>`): the header block ends at
    /// the first blank line; when it is valid UTF-8, its first line gives
    /// method and path if it mentions `HTTP`, and each later non-empty line a
    /// header; the body is everything after the block.
    pub fn parse(bytes: Vec<u8>) -> (r: Request)
        requires
            parsable(bytes@),
        ensures
            r.parses_from(bytes@),
    {
        let ghost b = bytes@;
        let (text, body) = Self::split_head(bytes);
        let mut method = Method::Uninitialized;
        let mut resource = Resource::Path(String::new());
        let mut headers = StrMap::new();
        match text {
            Some(t) => {
                let cs = chars_of(t.as_str());
                let ls = lines_of(cs.as_slice());
                let ghost lv = lines(t@);
                assert(views(ls@) == lv);
                if ls.len() > 0 {
                    assert(lv[0] == ls@[0]@);
                    if contains_http(ls[0].as_slice()) {
                        let (m, r) = request_line_parts(ls[0].as_slice());
                        method = m;
                        resource = r;
                    }
                    let mut i: usize = 1;
                    assert(lv.drop_first().take(0) =~= Seq::<Seq<char>>::empty());
                    while i < ls.len()
                        invariant
                            1 <= i <= ls@.len(),
                            views(ls@) == lv,
                            headers@ == header_table(lv.drop_first().take(i - 1)),
                        decreases ls@.len() - i,
                    {
                        proof {
                            assert(lv.drop_first().take(i as int).drop_last() =~= lv.drop_first().take(
                                i - 1,
                            ));
                            assert(lv.drop_first().take(i as int).last() == ls@[i as int]@);
                        }
                        if ls[i].len() > 0 {
                            let (k, v) = header_pair(ls[i].as_slice());
                            headers.insert(
                                string_from_chars(k.as_slice()),
                                string_from_chars(v.as_slice()),
                            );
                        }
                        i = i + 1;
                    }
                    assert(lv.drop_first().take(i - 1) =~= lv.drop_first());
                }
            },
            None => {
                assert(headers@ =~= parsed_headers(b));
            },
        }
        Request { resource, method, headers, body }
    }

    /// The `Content-Length` a request text announces.
    pub fn content_length(text: &str) -> (n: usize)
        ensures
            n == content_length_of(text@),
    {
        proof {
            reveal_strlit("Content-Length");
        }
        let cs = chars_of(text);
        let ls = lines_of(cs.as_slice());
        let ghost lv = lines(text@);
        let pat = chars_of("Content-Length");
        let mut i: usize = 0;
        while i < ls.len()
            invariant
                i <= ls@.len(),
                views(ls@) == lv,
                lv == lines(text@),
                pat@ == "Content-Length"@,
                pat@.len() > 0,
                first_line_with(lv, "Content-Length"@, 0) == first_line_with(
                    lv,
                    "Content-Length"@,
                    i as int,
                ),
            decreases ls@.len() - i,
        {
            assert(lv[i as int] == ls@[i as int]@);
            if find_chars(ls[i].as_slice(), pat.as_slice(), 0).is_some() {
                assert(contains(lv[i as int], "Content-Length"@));
                assert(first_line_with(lv, "Content-Length"@, i as int) == Some(i as int));
                let line = ls[i].as_slice();
                assert(line@ == lv[i as int]);
                let n = Self::length_field(line);
                return n;
            }
            i = i + 1;
        }
        0
    }

    /// The number in the second `':'`-separated field of a line, or 0.
    fn length_field(l: &[char]) -> (n: usize)
        ensures
            n == (match second_field(l@) {
                None => 0,
                Some(f) => match parse_usize(trim(f)) {
                    Some(n) => n,
                    None => 0usize,
                },
            }),
    {
        let c = colon();
        let n = l.len();
        match find_chars(l, c.as_slice(), 0) {
            None => 0,
            Some(i) => {
                let ghost r = l@.skip(i + 1);
                let f = match find_chars(l, c.as_slice(), i + 1) {
                    None => {
                        assert(first_occurrence(r, seq![':']) is None) by {
                            crate::text::lemma_find_shift(l@, seq![':'], i + 1);
                        }
                        assert(l@.subrange(i + 1, l@.len() as int) =~= r);
                        trim_range(l, i + 1, n)
                    },
                    Some(j) => {
                        proof {
                            crate::text::lemma_find_from(l@, seq![':'], i + 1);
                        }
                        assert(first_occurrence(r, seq![':']) == Some(j - (i + 1))) by {
                            crate::text::lemma_find_shift(l@, seq![':'], i + 1);
                        }
                        assert(l@.subrange(i + 1, j as int) =~= r.take(j - (i + 1)));
                        trim_range(l, i + 1, j)
                    },
                };
                match parse_usize_chars(f.as_slice()) {
                    Some(n) => n,
                    None => 0,
                }
            },
        }
    }

    /// Admits a buffered request (`Request::get`): too large when it
    /// announces more than `size_limit` bytes, incomplete while the buffer is
    /// shorter than it announces, and parsed otherwise.
    pub fn get(req_bytes: &Vec<u8>, size_limit: u64) -> (r: Result<Request, AppErr>)
        requires
            admission(
                req_bytes@.len(),
                content_length_of(lossy_utf8(req_bytes@)),
                size_limit,
            ) is Complete ==> parsable(req_bytes@),
        ensures
            ({
                let cl = content_length_of(lossy_utf8(req_bytes@));
                match admission(req_bytes@.len(), cl, size_limit) {
                    Admission::TooLarge => r matches Err(AppErr::TooLarge),
                    Admission::Incomplete => r matches Err(AppErr::IncompleteRequest),
                    Admission::Complete => r matches Ok(q) && q.parses_from(req_bytes@),
                }
            }),
    {
        let text = lossy_string(req_bytes.as_slice());
        let content_len = Self::content_length(text.as_str());
        Self::accept(req_bytes, content_len, size_limit)
    }

    /// `Request::get` where it does not fail: `None` for a complete request
    /// whose request line the parser cannot take apart.
    pub fn receive(req_bytes: &Vec<u8>, size_limit: u64) -> (r: Option<Result<Request, AppErr>>)
        ensures
            ({
                let cl = content_length_of(lossy_utf8(req_bytes@));
                match admission(req_bytes@.len(), cl, size_limit) {
                    Admission::TooLarge => r matches Some(Err(AppErr::TooLarge)),
                    Admission::Incomplete => r matches Some(Err(AppErr::IncompleteRequest)),
                    Admission::Complete => if parsable(req_bytes@) {
                        r matches Some(Ok(q)) && q.parses_from(req_bytes@)
                    } else {
                        r is None
                    },
                }
            }),
    {
        let text = lossy_string(req_bytes.as_slice());
        let content_len = Self::content_length(text.as_str());
        if size_limit >= content_len as u64 && req_bytes.len() >= content_len && !Self::can_parse(
            req_bytes,
        ) {
            return None;
        }
        Some(Self::accept(req_bytes, content_len, size_limit))
    }

    /// The decision of `Request::get` for a given announced length.
    pub fn accept(req_bytes: &Vec<u8>, content_len: usize, size_limit: u64) -> (r: Result<
        Request,
        AppErr,
    >)
        requires
            admission(req_bytes@.len(), content_len, size_limit) is Complete ==> parsable(
                req_bytes@,
            ),
        ensures
            match admission(req_bytes@.len(), content_len, size_limit) {
                Admission::TooLarge => r matches Err(AppErr::TooLarge),
                Admission::Incomplete => r matches Err(AppErr::IncompleteRequest),
                Admission::Complete => r matches Ok(q) && q.parses_from(req_bytes@),
            },
    {
        if size_limit < content_len as u64 {
            Err(AppErr::TooLarge)
        } else if req_bytes.len() < content_len {
            Err(AppErr::IncompleteRequest)
        } else {
            Ok(Self::parse(req_bytes.clone()))
        }
    }

    /// The host the request names: its `Host` header up to any port, trimmed.
    pub fn host(&self) -> (h: String)
        ensures
            h@ == host_of(self.headers@),
    {
        match self.headers.get("Host") {
            Some(v) => {
                let cs = chars_of(v.as_str());
                let c = colon();
                proof {
                    assert(cs@.subrange(0, cs@.len() as int) =~= cs@);
                }
                let t = match find_chars(cs.as_slice(), c.as_slice(), 0) {
                    Some(i) => {
                        assert(cs@.subrange(0, i as int) =~= cs@.take(i as int));
                        trim_range(cs.as_slice(), 0, i)
                    },
                    None => trim_range(cs.as_slice(), 0, cs.len()),
                };
                string_from_chars(t.as_slice())
            },
            None => String::new(),
        }
    }
}

/// The line mentions `HTTP`.
fn contains_http(l: &[char]) -> (b: bool)
    ensures
        b == contains(l@, "HTTP"@),
{
    proof {
        reveal_strlit("HTTP");
    }
    let p = chars_of("HTTP");
    find_chars(l, p.as_slice(), 0).is_some()
}

/// A header line written as `key:value` reads back as the trimmed key and
/// value, when the key holds no `:`.
pub proof fn lemma_header_line_round_trip(k: Seq<char>, v: Seq<char>)
    requires
        forall|i: int| 0 <= i < k.len() ==> k[i] != ':',
    ensures
        header_key(k + seq![':'] + v) == trim(k),
        header_value(k + seq![':'] + v) == trim(v),
{
    let l = k + seq![':'] + v;
    let n = k.len() as int;
    assert(l.subrange(n, n + 1) =~= seq![':']);
    assert forall|j: int| 0 <= j < n implies !match_at(l, seq![':'], j) by {
        assert(l.subrange(j, j + 1)[0] == k[j]);
    }
    lemma_find_from_at(l, seq![':'], 0, n);
    assert(l.take(n) =~= k);
    assert(l.skip(n + 1) =~= v);
}

/// The request-line tokens `GET`, `POST` and `DELETE` name their methods and
/// nothing else names one; `GET` and `POST` read back from how they are
/// written out, while `DELETE` is written with a line feed that does not.
pub proof fn lemma_method_names(token: Seq<char>)
    ensures
        method_of("GET"@) == Method::GET,
        method_of("POST"@) == Method::POST,
        method_of("DELETE"@) == Method::DELETE,
        token != "GET"@ && token != "POST"@ && token != "DELETE"@ ==> method_of(token)
            == Method::Uninitialized,
        method_of(method_text(Method::GET)) == Method::GET,
        method_of(method_text(Method::POST)) == Method::POST,
        method_of(method_text(Method::DELETE)) == Method::Uninitialized,
{
    reveal_strlit("GET");
    reveal_strlit("POST");
    reveal_strlit("DELETE");
    reveal_strlit("DELETE\n");
    assert("POST"@.len() != "GET"@.len());
    assert("DELETE"@.len() != "GET"@.len());
    assert("DELETE"@.len() != "POST"@.len());
    assert("DELETE\n"@.len() != "GET"@.len());
    assert("DELETE\n"@.len() != "POST"@.len());
    assert("DELETE\n"@.len() != "DELETE"@.len());
}

} // verus!
