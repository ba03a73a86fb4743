//! HTTP responses and their wire format.
use crate::errors::{ascii_lowercase, code_of_lowercase, lowercase, HttpStatus};
use crate::table::{Headers, StrMap, TableView};
use crate::text::{decimal, decimal_chars, push_chars, push_str, string_from_chars, utf8_bytes};
use vstd::prelude::*;
use vstd::utf8::encode_utf8;

verus! {

/// A response: status, optional headers and body.
pub struct Response {
    pub status_code: u16,
    pub status_txt: String,
    pub headers: Option<Headers>,
    pub body: Vec<u8>,
}

/// The headers that mark an HTML body.
pub open spec fn html_table() -> TableView {
    seq![("Content-Type"@, "text/html"@)]
}

/// The header table of an optional header map.
pub open spec fn table_of(h: Option<Headers>) -> Option<TableView> {
    match h {
        Some(t) => Some(t@),
        None => None,
    }
}

/// Header lines as written on the wire: `key:value\r\n` for each entry.
pub open spec fn headers_text(t: TableView) -> Seq<char>
    decreases t.len(),
{
    if t.len() == 0 {
        Seq::empty()
    } else {
        headers_text(t.drop_last()) + t.last().0 + ":"@ + t.last().1 + "\r\n"@
    }
}

/// The header lines of an optional table.
pub open spec fn optional_headers_text(t: Option<TableView>) -> Seq<char> {
    match t {
        Some(t) => headers_text(t),
        None => Seq::empty(),
    }
}

/// The status line and header block of a response.
pub open spec fn response_head(
    code: u16,
    txt: Seq<char>,
    headers: Option<TableView>,
    body_len: nat,
) -> Seq<char> {
    "HTTP/1.1 "@ + decimal(code as nat) + " "@ + txt + "\r\n"@ + optional_headers_text(headers)
        + "Content-Length: "@ + decimal(body_len) + "\r\n\r\n"@
}

/// The page written when no error template can be rendered.
pub open spec fn fallback_page(code: u16, message: Seq<char>) -> Seq<char> {
    "<h1>"@ + decimal(code as nat) + "</h1><p>"@ + message + "</p>"@
}

/// A table holding `Content-Type: text/html`.
pub fn html_headers() -> (h: Headers)
    ensures
        h@ == html_table(),
{
    let mut h = StrMap::new();
    h.insert(String::from_str("Content-Type"), String::from_str("text/html"));
    assert(h@ =~= html_table());
    h
}

impl Default for Response {
    /// A successful, empty response.
    fn default() -> (r: Self)
        ensures
            r.status_code == 200,
            r.status_txt@ == "OK"@,
            r.headers is None,
            r.body@.len() == 0,
    {
        Response {
            status_code: 200,
            status_txt: String::from_str("OK"),
            headers: None,
            body: Vec::new(),
        }
    }
}

impl Response {
    /// Replaces the headers; no headers means an HTML body.
    pub fn set_headers(&mut self, headers: Option<Headers>)
        ensures
            final(self).status_code == old(self).status_code,
            final(self).status_txt@ == old(self).status_txt@,
            final(self).body@ == old(self).body@,
            table_of(final(self).headers) == (match headers {
                Some(h) => Some(h@),
                None => Some(html_table()),
            }),
    {
        match headers {
            Some(h) => {
                self.headers = Some(h);
            },
            None => {
                self.headers = Some(html_headers());
            },
        }
    }

    /// A `200 OK` response with the given headers (HTML when none) and body.
    pub fn ok(headers: Option<Headers>, body: Vec<u8>) -> (r: Self)
        ensures
            r.status_code == 200,
            r.status_txt@ == "OK"@,
            r.body@ == body@,
            table_of(r.headers) == (match headers {
                Some(h) => Some(h@),
                None => Some(html_table()),
            }),
    {
        let mut response = Response::default();
        response.set_headers(headers);
        response.status_txt = String::from_str("OK");
        response.body = body;
        response
    }

    /// The header lines of the response, `key:value\r\n` each.
    pub fn headers(&self) -> (s: String)
        ensures
            s@ == optional_headers_text(table_of(self.headers)),
    {
        match &self.headers {
            Some(h) => {
                let mut acc: Vec<char> = Vec::new();
                let mut i: usize = 0;
                assert(h@.take(0) =~= Seq::<(Seq<char>, Seq<char>)>::empty());
                while i < h.len()
                    invariant
                        i <= h@.len(),
                        acc@ == headers_text(h@.take(i as int)),
                    decreases h@.len() - i,
                {
                    proof {
                        assert(h@.take(i + 1).drop_last() =~= h@.take(i as int));
                        assert(h@.take(i + 1).last() == h@[i as int]);
                    }
                    push_str(&mut acc, h.key_at(i).as_str());
                    push_str(&mut acc, ":");
                    push_str(&mut acc, h.value_at(i).as_str());
                    push_str(&mut acc, "\r\n");
                    i = i + 1;
                }
                assert(h@.take(h@.len() as int) =~= h@);
                string_from_chars(acc.as_slice())
            },
            None => String::new(),
        }
    }

    /// The response on the wire (`From<Response> for Vec<u8>`): status line,
    /// headers, `Content-Length` of the body, a blank line, then the body.
    pub fn into_bytes(self) -> (b: Vec<u8>)
        ensures
            b@ == encode_utf8(
                response_head(
                    self.status_code,
                    self.status_txt@,
                    table_of(self.headers),
                    self.body@.len(),
                ),
            ) + self.body@,
    {
        let header_lines = self.headers();
        let mut head: Vec<char> = Vec::new();
        push_str(&mut head, "HTTP/1.1 ");
        let code = decimal_chars(self.status_code as u64);
        push_chars(&mut head, code.as_slice());
        push_str(&mut head, " ");
        push_str(&mut head, self.status_txt.as_str());
        push_str(&mut head, "\r\n");
        push_str(&mut head, header_lines.as_str());
        push_str(&mut head, "Content-Length: ");
        let len = decimal_chars(self.body.len() as u64);
        push_chars(&mut head, len.as_slice());
        push_str(&mut head, "\r\n\r\n");
        let head_string = string_from_chars(head.as_slice());
        let mut bytes = utf8_bytes(head_string.as_str());
        let mut body = self.body;
        bytes.append(&mut body);
        bytes
    }

    /// The response for a status whose error page was rendered as `page`
    /// (`From<HttpStatus>`); without a page, a minimal HTML page names the
    /// status.
    pub fn from_status_page(status: HttpStatus, page: Option<String>) -> (r: Self)
        ensures
            r.status_code == status.status_code,
            r.status_txt@ == status.message@,
            table_of(r.headers) == Some(html_table()),
            r.body@ == encode_utf8(
                match page {
                    Some(p) => p@,
                    None => fallback_page(status.status_code, status.message@),
                },
            ),
    {
        let body = match page {
            Some(p) => utf8_bytes(p.as_str()),
            None => {
                let mut v: Vec<char> = Vec::new();
                push_str(&mut v, "<h1>");
                let code = decimal_chars(status.status_code as u64);
                push_chars(&mut v, code.as_slice());
                push_str(&mut v, "</h1><p>");
                push_str(&mut v, status.message.as_str());
                push_str(&mut v, "</p>");
                let s = string_from_chars(v.as_slice());
                utf8_bytes(s.as_str())
            },
        };
        Response {
            status_code: status.status_code,
            status_txt: status.message,
            headers: Some(html_headers()),
            body,
        }
    }

    /// The response for the error template `err_page`, rendered as `page`:
    /// its status is the one the template's name reads as.
    pub fn err(err_page: &str, page: String, headers: Option<Headers>) -> (r: Self)
        ensures
            r.status_code == code_of_lowercase(lowercase(err_page@)),
            vstd::utf8::is_ascii_chars(err_page@) ==> r.status_code == code_of_lowercase(
                ascii_lowercase(err_page@),
            ),
            r.status_txt@ == err_page@,
            r.body@ == encode_utf8(page@),
            table_of(r.headers) == (match headers {
                Some(h) => Some(h@),
                None => Some(html_table()),
            }),
    {
        let http_err = HttpStatus::from_message(String::from_str(err_page));
        let mut response = Response::default();
        response.status_code = http_err.status_code;
        response.status_txt = http_err.message;
        response.body = utf8_bytes(page.as_str());
        response.set_headers(headers);
        response
    }
}

/// The header text of a table with one more entry is the text of the table
/// followed by that entry's line, `key:value\r\n`; its length is the sum,
/// over the entries, of the key's and the value's lengths plus three.
pub proof fn lemma_headers_text_push(t: TableView, k: Seq<char>, v: Seq<char>)
    ensures
        headers_text(t.push((k, v))) == headers_text(t) + k + ":"@ + v + "\r\n"@,
        headers_text(t.push((k, v))).len() == headers_text(t).len() + k.len() + v.len() + 3,
{
    reveal_strlit(":");
    reveal_strlit("\r\n");
    assert(t.push((k, v)).drop_last() =~= t);
}

/// The header text of a table: every entry's line, in order.
pub proof fn lemma_headers_text_lines(t: TableView, i: int)
    requires
        0 <= i < t.len(),
    ensures
        headers_text(t.take(i + 1)) == headers_text(t.take(i)) + t[i].0 + ":"@ + t[i].1 + "\r\n"@,
{
    assert(t.take(i + 1) =~= t.take(i).push(t[i]));
    lemma_headers_text_push(t.take(i), t[i].0, t[i].1);
}

} // verus!
