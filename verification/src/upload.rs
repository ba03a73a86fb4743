//! Multipart form uploads: the boundary, the parts, and what each part asks
//! the server to do.
use crate::errors::{status_text, HttpStatus};
use crate::message::{lossy_string, lossy_utf8, Request};
use crate::percent::{url_decode, url_decoded};
use crate::table::lookup;
use crate::text::{
    contains, copy_range, find_bytes, find_bytes_from, first_occurrence, lemma_find_from, match_at,
    push_chars, push_str, starts_with, string_from_chars, utf8_bytes,
};
use vstd::prelude::*;
use vstd::utf8::{decode_utf8, encode_utf8, valid_utf8};

verus! {

/// The upload handler.
pub struct Upload;

/// The capture groups of the leftmost match of `pattern` in `text` (group 0
/// first, `None` for a group that took no part), as the `regex` crate finds
/// them; `None` when there is no match or the pattern does not compile.
pub uninterp spec fn regex_captures(pattern: Seq<char>, text: Seq<char>) -> Option<
    Seq<Option<Seq<char>>>,
>;

pub open spec fn groups_view(r: Option<Vec<Option<String>>>) -> Option<Seq<Option<Seq<char>>>> {
    match r {
        Some(v) => Some(v@.map_values(|g: Option<String>| opt_string_view(g))),
        None => None,
    }
}

pub open spec fn opt_string_view(g: Option<String>) -> Option<Seq<char>> {
    match g {
        Some(s) => Some(s@),
        None => None,
    }
}

/// `Regex::new(pattern)` then `captures(text)`, each group taken as a
/// `String`. The groups are named by `regex_captures`.
#[verifier::external_body]
fn captures(pattern: &str, text: &str) -> (r: Option<Vec<Option<String>>>)
    ensures
        groups_view(r) == regex_captures(pattern@, text@),
{
    let re = regex::Regex::new(pattern).ok()?;
    re.captures(text).map(|c| c.iter().map(|m| m.map(|m| m.as_str().to_string())).collect())
}

/// The pattern that finds the boundary in a `Content-Type` header.
pub open spec fn boundary_pattern() -> Seq<char> {
    "boundary=([^;]+)"@
}

/// The pattern that reads a part's `Content-Disposition`; group 3 is the
/// file name of a file part.
pub open spec fn disposition_pattern() -> Seq<char> {
    "Content-Disposition: form-data; name=\"([^\"]+)\"(; filename=\"([^\"]+)\")?"@
}

/// The boundary that separates the parts of a multipart body with this
/// content type: `--` and the pattern's group.
pub open spec fn boundary_of(content_type: Seq<char>) -> Option<Seq<char>> {
    match regex_captures(boundary_pattern(), content_type) {
        Some(g) => if g.len() > 1 && g[1] is Some {
            Some("--"@ + g[1]->0)
        } else {
            None
        },
        None => None,
    }
}

/// The first stage of an upload: the request must carry a multipart
/// `Content-Type`, a non-empty body and a boundary; the result is the
/// boundary's bytes.
pub open spec fn upload_boundary(req: &Request) -> Option<Seq<u8>> {
    match lookup(req.headers@, "Content-Type"@) {
        Some(ct) => if contains(encode_utf8(ct), encode_utf8("multipart/form-data"@))
            && req.body@.len() > 0 {
            match boundary_of(ct) {
                Some(b) => Some(encode_utf8(b)),
                None => None,
            }
        } else {
            None
        },
        None => None,
    }
}

impl Upload {
    /// Checks a `POST` for a multipart upload and finds its boundary; any
    /// failure is a bad request (400). (The boundary pattern's one group takes
    /// part in every match, so a match without it does not occur.)
    pub fn handle(req: &Request) -> (r: Result<Vec<u8>, HttpStatus>)
        ensures
            match upload_boundary(req) {
                Some(b) => r matches Ok(v) && v@ == b,
                None => r matches Err(e) && e.status_code == 400 && e.message@ == status_text(400),
            },
    {
        match req.headers.get("Content-Type") {
            Some(content_type) => {
                let ct_bytes = utf8_bytes(content_type.as_str());
                let kind = utf8_bytes("multipart/form-data");
                proof {
                    reveal_strlit("multipart/form-data");
                    lemma_encode_nonempty("multipart/form-data"@);
                }
                if find_bytes(ct_bytes.as_slice(), kind.as_slice()).is_none() {
                    return Err(HttpStatus::from_code(400));
                }
                if req.body.len() == 0 {
                    return Err(HttpStatus::from_code(400));
                }
                let groups = captures("boundary=([^;]+)", content_type.as_str());
                match groups {
                    Some(g) => {
                        if g.len() > 1 {
                            match &g[1] {
                                Some(value) => {
                                    let mut b = String::from_str("--");
                                    b.append(value.as_str());
                                    Ok(utf8_bytes(b.as_str()))
                                },
                                None => Err(HttpStatus::from_code(400)),
                            }
                        } else {
                            Err(HttpStatus::from_code(400))
                        }
                    },
                    None => Err(HttpStatus::from_code(400)),
                }
            },
            None => Err(HttpStatus::from_code(400)),
        }
    }
}

proof fn lemma_encode_nonempty(s: Seq<char>)
    requires
        s.len() > 0,
    ensures
        encode_utf8(s).len() > 0,
{
    assert(vstd::utf8::encode_scalar(s[0] as u32).len() >= 1);
}


// ---------------------------------------------------------------------
// Splitting the body at the boundary
// ---------------------------------------------------------------------

/// The pieces of `body` between occurrences of `b`, scanning every position
/// from `i` on, the current piece starting at `start`; a last piece is kept
/// only when it is not empty.
pub open spec fn split_from(body: Seq<u8>, b: Seq<u8>, start: int, i: int) -> Seq<Seq<u8>>
    decreases body.len() - i,
{
    if i < 0 || b.len() == 0 || i + b.len() > body.len() {
        if start < body.len() {
            seq![body.subrange(start, body.len() as int)]
        } else {
            Seq::empty()
        }
    } else if match_at(body, b, i) {
        seq![body.subrange(start, i)] + split_from(body, b, i + b.len(), i + 1)
    } else {
        split_from(body, b, start, i + 1)
    }
}

/// The pieces of `body` between the occurrences of `b`.
pub open spec fn split_at_boundary(body: Seq<u8>, b: Seq<u8>) -> Seq<Seq<u8>> {
    split_from(body, b, 0, 0)
}

/// No two occurrences of `b` in `body` overlap (where they do, the parts
/// between them cannot be cut out).
pub open spec fn no_overlap(body: Seq<u8>, b: Seq<u8>) -> bool {
    forall|i: int, j: int|
        #![trigger match_at(body, b, i), match_at(body, b, j)]
        match_at(body, b, i) && match_at(body, b, j) && i < j ==> j >= i + b.len()
}

/// The byte vectors' contents.
pub open spec fn byte_views(v: Seq<Vec<u8>>) -> Seq<Seq<u8>> {
    v.map_values(|x: Vec<u8>| x@)
}

/// Splits `body` at each occurrence of `boundary`.
pub fn split_by_boundary(body: &[u8], boundary: &[u8]) -> (parts: Vec<Vec<u8>>)
    requires
        boundary@.len() > 0,
        no_overlap(body@, boundary@),
    ensures
        byte_views(parts@) == split_at_boundary(body@, boundary@),
{
    let mut parts: Vec<Vec<u8>> = Vec::new();
    let mut start: usize = 0;
    let mut i: usize = 0;
    let n = body.len();
    let bl = boundary.len();
    while bl <= n && i <= n - bl
        invariant
            n == body@.len(),
            bl == boundary@.len(),
            bl > 0,
            no_overlap(body@, boundary@),
            start <= i + bl,
            start == 0 || (start >= bl && match_at(body@, boundary@, start - bl) && start - bl
                < i),
            start <= n,
            i <= n,
            split_at_boundary(body@, boundary@) == byte_views(parts@) + split_from(
                body@,
                boundary@,
                start as int,
                i as int,
            ),
        decreases n - i,
    {
        if crate::text::bytes_match_at(body, boundary, i) {
            if start > i {
                assert(match_at(body@, boundary@, (start - bl) as int));
                assert(false);
            }
            let piece = copy_range(body, start, i);
            let ghost before = byte_views(parts@);
            parts.push(piece);
            assert(byte_views(parts@) =~= before.push(body@.subrange(start as int, i as int)));
            start = i + bl;
        }
        i = i + 1;
    }
    if start < n {
        let piece = copy_range(body, start, n);
        let ghost before = byte_views(parts@);
        parts.push(piece);
        assert(byte_views(parts@) =~= before.push(body@.subrange(start as int, n as int)));
    } else {
        assert(byte_views(parts@) =~= byte_views(parts@) + Seq::<Seq<u8>>::empty());
    }
    parts
}


/// Whether any two occurrences of `boundary` in `body` overlap.
pub fn boundaries_disjoint(body: &[u8], boundary: &[u8]) -> (b: bool)
    requires
        boundary@.len() > 0,
    ensures
        b == no_overlap(body@, boundary@),
{
    let n = body.len();
    let bl = boundary.len();
    let mut last: Option<usize> = None;
    let mut i: usize = 0;
    while bl <= n && i <= n - bl
        invariant
            n == body@.len(),
            bl == boundary@.len(),
            bl > 0,
            i <= n,
            forall|k: int, j: int|
                #![trigger match_at(body@, boundary@, k), match_at(body@, boundary@, j)]
                0 <= k < j < i && match_at(body@, boundary@, k) && match_at(body@, boundary@, j)
                    ==> j >= k + bl,
            match last {
                Some(p) => p < i && match_at(body@, boundary@, p as int) && forall|k: int|
                    p < k < i ==> !#[trigger] match_at(body@, boundary@, k),
                None => forall|k: int| 0 <= k < i ==> !#[trigger] match_at(body@, boundary@, k),
            },
        decreases n - i,
    {
        if crate::text::bytes_match_at(body, boundary, i) {
            match last {
                Some(p) => {
                    if i < p + bl {
                        assert(match_at(body@, boundary@, p as int) && match_at(
                            body@,
                            boundary@,
                            i as int,
                        ));
                        return false;
                    }
                    assert forall|k: int|
                        0 <= k < i && match_at(body@, boundary@, k) implies i >= k + bl by {
                        if k > p {
                        }
                    }
                },
                None => {},
            }
            last = Some(i);
        }
        i = i + 1;
    }
    assert forall|k: int, j: int|
        #![trigger match_at(body@, boundary@, k), match_at(body@, boundary@, j)]
        match_at(body@, boundary@, k) && match_at(body@, boundary@, j) && k < j implies j >= k
        + bl by {
        assert(j < i);
    }
    true
}

// ---------------------------------------------------------------------
// The file name
// ---------------------------------------------------------------------

/// The bytes of `filename=`.
pub open spec fn filename_key() -> Seq<u8> {
    seq![102u8, 105u8, 108u8, 101u8, 110u8, 97u8, 109u8, 101u8, 61u8]
}

/// The bytes of a line break.
pub open spec fn crlf() -> Seq<u8> {
    seq![13u8, 10u8]
}

/// The raw file name in `part`: what follows the first `filename=` up to
/// the end of its line, without surrounding double quotes.
pub open spec fn raw_filename(part: Seq<u8>) -> Option<Seq<u8>> {
    match first_occurrence(part, filename_key()) {
        None => None,
        Some(s) => {
            let end = match first_occurrence(part.skip(s), crlf()) {
                Some(p) => s + p,
                None => part.len() as int,
            };
            let raw = part.subrange(s + 9, end);
            Some(
                if raw.len() >= 2 && raw[0] == 34u8 && raw.last() == 34u8 {
                    raw.subrange(1, raw.len() - 1)
                } else {
                    raw
                },
            )
        },
    }
}

/// Bytes read as Latin-1 characters.
pub open spec fn latin1(b: Seq<u8>) -> Seq<char> {
    b.map_values(|x: u8| x as char)
}

/// The text of a raw file name: UTF-8 when valid, Latin-1 otherwise.
pub open spec fn filename_text(raw: Seq<u8>) -> Seq<char> {
    if valid_utf8(raw) {
        decode_utf8(raw)
    } else {
        latin1(raw)
    }
}

/// The file name in `part`, percent-decoded; `None` when there is none or it
/// does not decode.
pub open spec fn filename_of(part: Seq<u8>) -> Option<Seq<char>> {
    match raw_filename(part) {
        Some(r) => url_decoded(filename_text(r)),
        None => None,
    }
}

/// A file name present in `part` decodes (where it does not, no name can be
/// given to what is saved).
pub open spec fn filename_decodes(part: Seq<u8>) -> bool {
    raw_filename(part) is Some ==> filename_of(part) is Some
}

fn filename_key_bytes() -> (v: Vec<u8>)
    ensures
        v@ == filename_key(),
{
    let v = vec![102u8, 105u8, 108u8, 101u8, 110u8, 97u8, 109u8, 101u8, 61u8];
    assert(v@ =~= filename_key());
    v
}

fn crlf_bytes() -> (v: Vec<u8>)
    ensures
        v@ == crlf(),
{
    let v = vec![13u8, 10u8];
    assert(v@ =~= crlf());
    v
}

/// The file name in `part`, or `None` when there is none or it does not
/// decode.
pub fn decoded_filename(part: &[u8]) -> (r: Option<String>)
    ensures
        opt_string_view(r) == filename_of(part@),
{
    let key = filename_key_bytes();
    let nl = crlf_bytes();
    let n = part.len();
    match find_bytes(part, key.as_slice()) {
        None => None,
        Some(s) => {
            let end = match find_bytes_from(part, nl.as_slice(), s) {
                Some(p) => p,
                None => n,
            };
            proof {
                lemma_find_from(part@, filename_key(), 0);
                crate::text::lemma_find_shift(part@, crlf(), s as int);
                lemma_find_from(part@, crlf(), s as int);
                if end < s + 9 {
                    assert(part@.subrange(s as int, s + 9) =~= filename_key());
                    assert(part@[end as int] == 13u8);
                    assert(part@[end as int] == part@.subrange(s as int, s + 9)[end - s]);
                    assert(false);
                }
            }
            let raw0 = copy_range(part, s + 9, end);
            let rl = raw0.len();
            let raw = if rl >= 2 && raw0[0] == 34u8 && raw0[rl - 1] == 34u8 {
                copy_range(raw0.as_slice(), 1, rl - 1)
            } else {
                raw0
            };
            let text = match crate::message::utf8_string(raw.clone()) {
                Some(t) => t,
                None => {
                    let mut cs: Vec<char> = Vec::new();
                    let mut i: usize = 0;
                    while i < raw.len()
                        invariant
                            i <= raw@.len(),
                            cs@ == latin1(raw@.take(i as int)),
                        decreases raw@.len() - i,
                    {
                        cs.push(raw[i] as char);
                        i = i + 1;
                        assert(cs@ =~= latin1(raw@.take(i as int)));
                    }
                    assert(raw@.take(i as int) =~= raw@);
                    string_from_chars(cs.as_slice())
                },
            };
            url_decode(text.as_str())
        },
    }
}

/// The file name in `part`: what follows `filename=` on its line, without
/// surrounding quotes, read as UTF-8 (Latin-1 when it is not) and
/// percent-decoded.
pub fn extract_filename(part: &[u8]) -> (r: Option<String>)
    requires
        filename_decodes(part@),
    ensures
        opt_string_view(r) == filename_of(part@),
        raw_filename(part@) is Some <==> r is Some,
{
    decoded_filename(part)
}


// ---------------------------------------------------------------------
// The parts
// ---------------------------------------------------------------------

/// What the server does with one part of an upload.
pub enum UploadAction {
    /// Write `content` to the upload directory under `name`.
    Save { name: String, content: Vec<u8> },
    /// Report a form field with this line.
    Field(String),
}

/// An action as (saves a file, name or report line, file content).
pub open spec fn action_view(a: UploadAction) -> (bool, Seq<char>, Seq<u8>) {
    match a {
        UploadAction::Save { name, content } => (true, name@, content@),
        UploadAction::Field(t) => (false, t@, Seq::empty()),
    }
}

pub open spec fn actions_view(v: Seq<UploadAction>) -> Seq<(bool, Seq<char>, Seq<u8>)> {
    v.map_values(|a: UploadAction| action_view(a))
}

/// The bytes of `--`.
pub open spec fn dashes() -> Seq<u8> {
    seq![45u8, 45u8]
}

/// The bytes of the blank line that ends a part's headers.
pub open spec fn blank_line() -> Seq<u8> {
    seq![13u8, 10u8, 13u8, 10u8]
}

/// A part that is looked at: not empty, and not the closing `--`.
pub open spec fn eligible(part: Seq<u8>) -> bool {
    !(starts_with(part, dashes()) || part.len() == 0)
}

/// The `Content-Disposition` groups of a part (read lossily as UTF-8).
pub open spec fn disposition(part: Seq<u8>) -> Option<Seq<Option<Seq<char>>>> {
    regex_captures(disposition_pattern(), lossy_utf8(part))
}

/// The part has a `Content-Disposition`, so the body's file name is read
/// for it.
pub open spec fn needs_name(part: Seq<u8>) -> bool {
    eligible(part) && disposition(part) is Some
}

/// The content of a part: what follows its first blank line.
pub open spec fn part_content(part: Seq<u8>) -> Option<Seq<u8>> {
    match first_occurrence(part, blank_line()) {
        Some(k) => Some(part.skip(k + 4)),
        None => None,
    }
}

/// `str::trim_end_matches("\r\n")`.
pub open spec fn strip_crlf(s: Seq<char>) -> Seq<char>
    decreases s.len(),
{
    if s.len() >= 2 && s[s.len() - 2] == '\r' && s.last() == '\n' {
        strip_crlf(s.subrange(0, s.len() - 2))
    } else {
        s
    }
}

/// The report line of a form field.
pub open spec fn field_line(name: Seq<char>, value: Seq<char>) -> Seq<char> {
    "Form field: "@ + name + " = "@ + value
}

/// What a part asks for, with `name` the body's file name: a file part
/// (its disposition names a file) is saved under `name`; another part is a
/// form field, reported when its content is valid UTF-8.
pub open spec fn part_action(part: Seq<u8>, name: Seq<char>) -> Option<(bool, Seq<char>, Seq<u8>)> {
    if !eligible(part) {
        None
    } else {
        match disposition(part) {
            None => None,
            Some(g) => match part_content(part) {
                None => None,
                Some(c) => if g.len() > 3 && g[3] is Some {
                    Some((true, name, c))
                } else if valid_utf8(c) {
                    Some((false, field_line(name, strip_crlf(decode_utf8(c))), Seq::empty()))
                } else {
                    None
                },
            },
        }
    }
}

/// The actions of the parts from position `i` on.
pub open spec fn plan_from(parts: Seq<Seq<u8>>, name: Seq<char>, i: int) -> Seq<
    (bool, Seq<char>, Seq<u8>),
>
    decreases parts.len() - i,
{
    if i < 0 || i >= parts.len() {
        Seq::empty()
    } else {
        match part_action(parts[i], name) {
            Some(a) => seq![a] + plan_from(parts, name, i + 1),
            None => plan_from(parts, name, i + 1),
        }
    }
}

/// The body's file name, or nothing.
pub open spec fn name_or_empty(body: Seq<u8>) -> Seq<char> {
    match filename_of(body) {
        Some(n) => n,
        None => Seq::empty(),
    }
}

/// The actions of an upload body: one for each part after the first that
/// asks for one.
pub open spec fn upload_plan(body: Seq<u8>, boundary: Seq<u8>) -> Seq<(bool, Seq<char>, Seq<u8>)> {
    plan_from(split_at_boundary(body, boundary), name_or_empty(body), 1)
}

/// The body can be taken apart: the boundary is not
/// empty, its occurrences do not overlap, and when a part needs the file
/// name, the body has one that decodes.
pub open spec fn plan_safe(body: Seq<u8>, boundary: Seq<u8>) -> bool {
    &&& boundary.len() > 0
    &&& no_overlap(body, boundary)
    &&& (exists|i: int|
        1 <= i < split_at_boundary(body, boundary).len() && needs_name(
            #[trigger] split_at_boundary(body, boundary)[i],
        )) ==> filename_of(body) is Some
}

fn strip_crlf_chars(s: Vec<char>) -> (r: Vec<char>)
    ensures
        r@ == strip_crlf(s@),
{
    let mut v = s;
    while v.len() >= 2 && v[v.len() - 2] == '\r' && v[v.len() - 1] == '\n'
        invariant
            strip_crlf(s@) == strip_crlf(v@),
        decreases v@.len(),
    {
        let ghost before = v@;
        let k = v.len() - 2;
        v.truncate(k);
        assert(v@ =~= before.subrange(0, before.len() - 2));
    }
    v
}

fn starts_with_dashes(part: &[u8]) -> (b: bool)
    ensures
        b == starts_with(part@, dashes()),
{
    if part.len() < 2 {
        return false;
    }
    let b = part[0] == 45u8 && part[1] == 45u8;
    assert(b == (part@.take(2) =~= dashes()));
    b
}

/// What one part asks for, given the body's file name.
fn part_action_of(part: &[u8], name: &Option<String>) -> (r: Option<UploadAction>)
    requires
        needs_name(part@) ==> name is Some,
    ensures
        match r {
            Some(a) => part_action(part@, opt_or_empty(*name)) == Some(action_view(a)),
            None => part_action(part@, opt_or_empty(*name)) is None,
        },
{
    if part.len() == 0 || starts_with_dashes(part) {
        return None;
    }
    let text = lossy_string(part);
    let groups = captures(
        "Content-Disposition: form-data; name=\"([^\"]+)\"(; filename=\"([^\"]+)\")?",
        text.as_str(),
    );
    match groups {
        None => None,
        Some(g) => {
            let is_file = g.len() > 3 && g[3].is_some();
            proof {
                assert(is_file == (groups_view(Some(g))->0.len() > 3
                    && groups_view(Some(g))->0[3] is Some));
            }
            let blank = vec![13u8, 10u8, 13u8, 10u8];
            assert(blank@ =~= blank_line());
            match find_bytes(part, blank.as_slice()) {
                None => None,
                Some(k) => {
                    let content = copy_range(part, k + 4, part.len());
                    assert(content@ =~= part@.skip(k + 4));
                    let field_name = match name {
                        Some(n) => n.clone(),
                        None => {
                            assert(false);
                            String::new()
                        },
                    };
                    if is_file {
                        Some(UploadAction::Save { name: field_name, content })
                    } else {
                        match crate::message::utf8_string(content) {
                            Some(value) => {
                                let vcs = crate::text::chars_of(value.as_str());
                                let stripped = strip_crlf_chars(vcs);
                                let mut line: Vec<char> = Vec::new();
                                push_str(&mut line, "Form field: ");
                                push_str(&mut line, field_name.as_str());
                                push_str(&mut line, " = ");
                                push_chars(&mut line, stripped.as_slice());
                                Some(UploadAction::Field(string_from_chars(line.as_slice())))
                            },
                            None => None,
                        }
                    }
                },
            }
        },
    }
}

pub open spec fn opt_or_empty(o: Option<String>) -> Seq<char> {
    match o {
        Some(s) => s@,
        None => Seq::empty(),
    }
}

impl Upload {
    /// The actions of an upload body whose parts are separated by
    /// `boundary`.
    pub fn plan_parts(body: &[u8], boundary: &[u8]) -> (r: Vec<UploadAction>)
        requires
            plan_safe(body@, boundary@),
        ensures
            actions_view(r@) == upload_plan(body@, boundary@),
    {
        let parts = split_by_boundary(body, boundary);
        let ghost pv = split_at_boundary(body@, boundary@);
        let name = decoded_filename(body);
        let mut actions: Vec<UploadAction> = Vec::new();
        let mut i: usize = parts.len();
        while i > 1
            invariant
                1 <= i <= parts@.len() || (i == parts@.len() && parts@.len() <= 1),
                byte_views(parts@) == pv,
                opt_string_view(name) == filename_of(body@),
                plan_safe(body@, boundary@),
                pv == split_at_boundary(body@, boundary@),
                actions_view(actions@) == plan_from(pv, name_or_empty(body@), i as int),
            decreases i,
        {
            i = i - 1;
            assert(pv[i as int] == parts@[i as int]@);
            proof {
                if needs_name(pv[i as int]) {
                    assert(filename_of(body@) is Some);
                }
            }
            assert(opt_or_empty(name) == name_or_empty(body@));
            let a = part_action_of(parts[i].as_slice(), &name);
            let ghost before = actions_view(actions@);
            match a {
                Some(act) => {
                    actions.insert(0, act);
                    assert(actions_view(actions@) =~= seq![action_view(act)] + before);
                },
                None => {},
            }
        }
        if parts.len() <= 1 {
            assert(actions_view(actions@) =~= plan_from(pv, name_or_empty(body@), 1));
        }
        actions
    }

    /// The actions of an upload body, or `None` where it cannot be taken
    /// apart (see `plan_safe`).
    pub fn try_plan_parts(body: &[u8], boundary: &[u8]) -> (r: Option<Vec<UploadAction>>)
        ensures
            r is Some <==> plan_safe(body@, boundary@),
            r matches Some(v) ==> actions_view(v@) == upload_plan(body@, boundary@),
    {
        if boundary.len() == 0 {
            return None;
        }
        if !boundaries_disjoint(body, boundary) {
            return None;
        }
        let name = decoded_filename(body);
        if name.is_none() {
            let parts = split_by_boundary(body, boundary);
            let ghost pv = split_at_boundary(body@, boundary@);
            let mut i: usize = 1;
            while i < parts.len()
                invariant
                    1 <= i,
                    byte_views(parts@) == pv,
                    pv == split_at_boundary(body@, boundary@),
                    filename_of(body@) is None,
                    forall|j: int| 1 <= j < i && j < pv.len() ==> !needs_name(#[trigger] pv[j]),
                decreases parts@.len() - i,
            {
                assert(pv[i as int] == parts@[i as int]@);
                let part = parts[i].as_slice();
                if part.len() > 0 && !starts_with_dashes(part) {
                    let text = lossy_string(part);
                    let groups = captures(
                        "Content-Disposition: form-data; name=\"([^\"]+)\"(; filename=\"([^\"]+)\")?",
                        text.as_str(),
                    );
                    if groups.is_some() {
                        assert(needs_name(split_at_boundary(body@, boundary@)[i as int]));
                        return None;
                    }
                }
                i = i + 1;
            }
        }
        Some(Self::plan_parts(body, boundary))
    }
}

/// The pieces from `split_from` hold no occurrence of `b`, given that none
/// starts between `start` and `i` and that, when `start` lies ahead of `i`,
/// an occurrence just ended at `start`.
proof fn lemma_split_from_clean(body: Seq<u8>, b: Seq<u8>, start: int, i: int)
    requires
        b.len() > 0,
        0 <= i,
        0 <= start,
        no_overlap(body, b),
        forall|j: int| start <= j < i ==> !match_at(body, b, j),
        start > i ==> start - b.len() < i && match_at(body, b, start - b.len()),
    ensures
        forall|k: int|
            0 <= k < split_from(body, b, start, i).len() ==> !contains(
                #[trigger] split_from(body, b, start, i)[k],
                b,
            ),
    decreases body.len() - i,
{
    let r = split_from(body, b, start, i);
    if start > i {
        assert forall|j: int| i <= j < start implies !match_at(body, b, j) by {
            if match_at(body, b, j) {
                assert(match_at(body, b, start - b.len()));
            }
        }
    }
    if i + b.len() > body.len() {
        if start < body.len() {
            assert forall|j: int| start <= j < body.len() implies !match_at(body, b, j) by {
                if j >= i {
                    assert(j + b.len() > body.len());
                }
            }
            lemma_piece_clean(body, b, start, body.len() as int);
            assert(r =~= seq![body.subrange(start, body.len() as int)]);
        } else {
            assert(r.len() == 0);
        }
    } else if match_at(body, b, i) {
        assert(start <= i);
        lemma_piece_clean(body, b, start, i);
        lemma_split_from_clean(body, b, i + b.len(), i + 1);
        let rest = split_from(body, b, i + b.len(), i + 1);
        assert forall|k: int| 0 <= k < r.len() implies !contains(#[trigger] r[k], b) by {
            if k > 0 {
                assert(r[k] == rest[k - 1]);
            }
        }
    } else {
        lemma_split_from_clean(body, b, start, i + 1);
        assert(r == split_from(body, b, start, i + 1));
    }
}

/// `body[start..end]` holds no occurrence of `b` when none starts in
/// `start..end`.
proof fn lemma_piece_clean(body: Seq<u8>, b: Seq<u8>, start: int, end: int)
    requires
        b.len() > 0,
        0 <= start <= end <= body.len(),
        forall|j: int| start <= j < end ==> !match_at(body, b, j),
    ensures
        !contains(body.subrange(start, end), b),
{
    let piece = body.subrange(start, end);
    lemma_find_from(piece, b, 0);
    if contains(piece, b) {
        let k = first_occurrence(piece, b)->0;
        assert(body.subrange(start + k, start + k + b.len()) =~= piece.subrange(k, k + b.len()));
        assert(match_at(body, b, start + k));
    }
}

/// Where the occurrences of a non-empty boundary do not overlap, no part
/// that the body splits into holds the boundary.
pub proof fn lemma_parts_hold_no_boundary(body: Seq<u8>, b: Seq<u8>)
    requires
        b.len() > 0,
        no_overlap(body, b),
    ensures
        forall|k: int|
            0 <= k < split_at_boundary(body, b).len() ==> !contains(
                #[trigger] split_at_boundary(body, b)[k],
                b,
            ),
{
    lemma_split_from_clean(body, b, 0, 0);
}

/// The parts joined back together with `b` between each two.
pub open spec fn join_parts(ps: Seq<Seq<u8>>, b: Seq<u8>) -> Seq<u8>
    decreases ps.len(),
{
    if ps.len() == 0 {
        Seq::empty()
    } else if ps.len() == 1 {
        ps[0]
    } else {
        ps[0] + b + join_parts(ps.drop_first(), b)
    }
}

/// `body` ends with `b`.
pub open spec fn ends_with(body: Seq<u8>, b: Seq<u8>) -> bool {
    b.len() <= body.len() && match_at(body, b, body.len() - b.len())
}

/// `split_from` keeping the last piece even when it is empty.
spec fn split_full(body: Seq<u8>, b: Seq<u8>, start: int, i: int) -> Seq<Seq<u8>>
    decreases body.len() - i,
{
    if i < 0 || b.len() == 0 || i + b.len() > body.len() {
        seq![body.subrange(start, body.len() as int)]
    } else if match_at(body, b, i) {
        seq![body.subrange(start, i)] + split_full(body, b, i + b.len(), i + 1)
    } else {
        split_full(body, b, start, i + 1)
    }
}

proof fn lemma_join_push(ps: Seq<Seq<u8>>, b: Seq<u8>, x: Seq<u8>)
    requires
        ps.len() >= 1,
    ensures
        join_parts(ps.push(x), b) == join_parts(ps, b) + b + x,
    decreases ps.len(),
{
    let q = ps.push(x);
    if ps.len() == 1 {
        assert(q.drop_first() =~= seq![x]);
        assert(join_parts(seq![x], b) == x);
    } else {
        assert(q.drop_first() =~= ps.drop_first().push(x));
        lemma_join_push(ps.drop_first(), b, x);
        assert(ps[0] + b + (join_parts(ps.drop_first(), b) + b + x) =~= ps[0] + b + join_parts(
            ps.drop_first(),
            b,
        ) + b + x);
    }
}

/// What `split_full` gives from a scanning state: the pieces join back to
/// the rest of the body; `split_from` is the same with an empty last piece
/// dropped; and the last piece is empty exactly when the scan starts at the
/// end or an occurrence not yet passed ends the body.
proof fn lemma_split_full(body: Seq<u8>, b: Seq<u8>, start: int, i: int)
    requires
        b.len() > 0,
        0 <= i,
        0 <= start <= body.len(),
        no_overlap(body, b),
        start > i ==> start - b.len() < i && match_at(body, b, start - b.len()),
    ensures
        split_full(body, b, start, i).len() >= 1,
        join_parts(split_full(body, b, start, i), b) == body.subrange(start, body.len() as int),
        split_from(body, b, start, i) == (if split_full(body, b, start, i).last().len() == 0 {
            split_full(body, b, start, i).drop_last()
        } else {
            split_full(body, b, start, i)
        }),
        (split_full(body, b, start, i).last().len() == 0) <==> (start == body.len() || (body.len()
            - b.len() >= i && match_at(body, b, body.len() - b.len()))),
    decreases body.len() - i,
{
    let f = split_full(body, b, start, i);
    if i + b.len() > body.len() {
        assert(join_parts(f, b) == f[0]);
        if start == body.len() {
            assert(split_from(body, b, start, i) =~= f.drop_last());
        }
    } else if match_at(body, b, i) {
        if start > i {
            assert(match_at(body, b, start - b.len()));
            assert(false);
        }
        lemma_split_full(body, b, i + b.len(), i + 1);
        let rest = split_full(body, b, i + b.len(), i + 1);
        let piece = body.subrange(start, i);
        assert(f == seq![piece] + rest);
        assert(f.drop_first() =~= rest);
        assert(f[0] == piece);
        assert(join_parts(f, b) == piece + b + join_parts(rest, b));
        assert(body.subrange(i, i + b.len()) =~= b);
        assert(piece + b + body.subrange(i + b.len(), body.len() as int) =~= body.subrange(
            start,
            body.len() as int,
        ));
        assert(f.last() == rest.last());
        if rest.last().len() == 0 {
            assert(f.drop_last() =~= seq![piece] + rest.drop_last());
        }
    } else {
        lemma_split_full(body, b, start, i + 1);
    }
}

/// Joining the parts of a split with the boundary, and adding the boundary
/// when the body ends with it, gives the body back.
pub proof fn lemma_parts_join_back(body: Seq<u8>, b: Seq<u8>)
    requires
        b.len() > 0,
        no_overlap(body, b),
    ensures
        join_parts(split_at_boundary(body, b), b) + (if ends_with(body, b) {
            b
        } else {
            Seq::empty()
        }) == body,
{
    lemma_split_full(body, b, 0, 0);
    let f = split_full(body, b, 0, 0);
    assert(body.subrange(0, body.len() as int) =~= body);
    if f.last().len() == 0 {
        if body.len() == 0 {
            assert(split_at_boundary(body, b) =~= Seq::<Seq<u8>>::empty());
        } else {
            assert(ends_with(body, b));
            if f.len() == 1 {
                assert(join_parts(f, b) == f[0]);
                assert(false);
            }
            assert(f.drop_last().push(f.last()) =~= f);
            lemma_join_push(f.drop_last(), b, f.last());
            assert(f.last() =~= Seq::<u8>::empty());
            assert(join_parts(f.drop_last(), b) + b + Seq::<u8>::empty() =~= join_parts(
                f.drop_last(),
                b,
            ) + b);
        }
    } else {
        assert(!ends_with(body, b));
        assert(join_parts(f, b) + Seq::<u8>::empty() =~= join_parts(f, b));
    }
}

/// The number of positions at or after `i` where `b` occurs in `body`.
pub open spec fn occurrences_from(body: Seq<u8>, b: Seq<u8>, i: int) -> nat
    decreases body.len() - i,
{
    if i < 0 || b.len() == 0 || i + b.len() > body.len() {
        0
    } else {
        (if match_at(body, b, i) {
            1nat
        } else {
            0nat
        }) + occurrences_from(body, b, i + 1)
    }
}

proof fn lemma_split_full_len(body: Seq<u8>, b: Seq<u8>, start: int, i: int)
    requires
        b.len() > 0,
        0 <= i,
        0 <= start <= body.len(),
        no_overlap(body, b),
        start > i ==> start - b.len() < i && match_at(body, b, start - b.len()),
    ensures
        split_full(body, b, start, i).len() == occurrences_from(body, b, i) + 1,
    decreases body.len() - i,
{
    if i + b.len() > body.len() {
    } else if match_at(body, b, i) {
        if start > i {
            assert(match_at(body, b, start - b.len()));
            assert(false);
        }
        lemma_split_full_len(body, b, i + b.len(), i + 1);
    } else {
        lemma_split_full_len(body, b, start, i + 1);
    }
}

/// A split gives one part more than the boundary occurs, less the empty
/// part after a boundary that ends the body (or the one part of an empty
/// body).
pub proof fn lemma_parts_count(body: Seq<u8>, b: Seq<u8>)
    requires
        b.len() > 0,
        no_overlap(body, b),
    ensures
        split_at_boundary(body, b).len() == occurrences_from(body, b, 0) + (if body.len() == 0
            || ends_with(body, b) {
            0int
        } else {
            1int
        }),
{
    lemma_split_full(body, b, 0, 0);
    lemma_split_full_len(body, b, 0, 0);
}

} // verus!
