//! The Common Gateway Interface: what a script's output means.
use crate::table::{table_insert, Headers, StrMap, TableView};
use crate::text::{
    chars_of, copy_range, find_chars, first_occurrence, lines, lines_of, push_chars,
    string_from_chars,
    utf8_bytes, views,
};
use vstd::prelude::*;
use vstd::utf8::encode_utf8;

verus! {

/// The CGI configuration: interpreters by extension.
pub struct Cgi {
    pub interpreters: Option<StrMap>,
}

/// The separator of a CGI header line.
pub open spec fn colon_space() -> Seq<char> {
    seq![':', ' ']
}

/// What a script's output lines give: headers until the first empty line,
/// then body lines, each followed by a line feed. A header line without
/// `": "` is dropped.
pub open spec fn cgi_fold(ls: Seq<Seq<char>>) -> (TableView, Seq<char>, bool)
    decreases ls.len(),
{
    if ls.len() == 0 {
        (Seq::empty(), Seq::empty(), false)
    } else {
        let (h, b, in_body) = cgi_fold(ls.drop_last());
        let l = ls.last();
        if in_body {
            (h, b + l + seq!['\n'], true)
        } else if l.len() == 0 {
            (h, b, true)
        } else {
            match first_occurrence(l, colon_space()) {
                Some(i) => (table_insert(h, l.take(i), l.skip(i + 2)), b, false),
                None => (h, b, false),
            }
        }
    }
}

impl Cgi {
    /// Reads a script's output: header lines, an empty line, then the body.
    pub fn parse_output(output: &str) -> (r: (Headers, Vec<u8>))
        ensures
            r.0@ == cgi_fold(lines(output@)).0,
            r.1@ == encode_utf8(cgi_fold(lines(output@)).1),
    {
        let cs = chars_of(output);
        let ls = lines_of(cs.as_slice());
        let ghost lv = lines(output@);
        let mut headers = StrMap::new();
        let mut body: Vec<char> = Vec::new();
        let mut in_body = false;
        let mut sep: Vec<char> = Vec::new();
        sep.push(':');
        sep.push(' ');
        assert(sep@ =~= colon_space());
        let mut i: usize = 0;
        assert(lv.take(0) =~= Seq::<Seq<char>>::empty());
        while i < ls.len()
            invariant
                i <= ls@.len(),
                views(ls@) == lv,
                sep@ == colon_space(),
                (headers@, body@, in_body) == cgi_fold(lv.take(i as int)),
            decreases ls@.len() - i,
        {
            proof {
                assert(lv.take(i + 1).drop_last() =~= lv.take(i as int));
                assert(lv.take(i + 1).last() == ls@[i as int]@);
            }
            let line = ls[i].as_slice();
            if in_body {
                push_chars(&mut body, line);
                body.push('\n');
            } else if line.len() == 0 {
                in_body = true;
            } else {
                match find_chars(line, sep.as_slice(), 0) {
                    Some(k) => {
                        let key = copy_range(line, 0, k);
                        let value = copy_range(line, k + 2, line.len());
                        assert(key@ =~= line@.take(k as int));
                        assert(value@ =~= line@.skip(k + 2));
                        headers.insert(
                            string_from_chars(key.as_slice()),
                            string_from_chars(value.as_slice()),
                        );
                    },
                    None => {},
                }
            }
            i = i + 1;
        }
        assert(lv.take(i as int) =~= lv);
        let text = string_from_chars(body.as_slice());
        (headers, utf8_bytes(text.as_str()))
    }
}

/// Lines, each followed by a line feed.
pub open spec fn terminated(bs: Seq<Seq<char>>) -> Seq<char>
    decreases bs.len(),
{
    if bs.len() == 0 {
        Seq::empty()
    } else {
        bs[0] + seq!['\n'] + terminated(bs.drop_first())
    }
}

proof fn lemma_terminated_push(bs: Seq<Seq<char>>, l: Seq<char>)
    ensures
        terminated(bs.push(l)) == terminated(bs) + l + seq!['\n'],
    decreases bs.len(),
{
    let q = bs.push(l);
    if bs.len() == 0 {
        assert(q.drop_first() =~= Seq::<Seq<char>>::empty());
        assert(terminated(q.drop_first()) == Seq::<char>::empty());
        assert(q[0] == l);
        assert(terminated(q) =~= l + seq!['\n']);
    } else {
        assert(q.drop_first() =~= bs.drop_first().push(l));
        lemma_terminated_push(bs.drop_first(), l);
        assert(terminated(q) =~= terminated(bs) + l + seq!['\n']);
    }
}

/// Header lines alone (none of them empty) give no body and leave the
/// reader among the headers.
proof fn lemma_cgi_headers_only(hs: Seq<Seq<char>>)
    requires
        forall|i: int| 0 <= i < hs.len() ==> hs[i].len() > 0,
    ensures
        cgi_fold(hs).1 == Seq::<char>::empty(),
        !cgi_fold(hs).2,
    decreases hs.len(),
{
    if hs.len() > 0 {
        lemma_cgi_headers_only(hs.drop_last());
    }
}

/// Script output made of header lines, an empty line, then body lines:
/// the headers are those of the header lines alone, and the body is every
/// body line, empty ones included, each followed by a line feed.
pub proof fn lemma_cgi_body(hs: Seq<Seq<char>>, bs: Seq<Seq<char>>)
    requires
        forall|i: int| 0 <= i < hs.len() ==> hs[i].len() > 0,
    ensures
        cgi_fold(hs + seq![Seq::<char>::empty()] + bs).0 == cgi_fold(hs).0,
        cgi_fold(hs + seq![Seq::<char>::empty()] + bs).1 == terminated(bs),
        cgi_fold(hs + seq![Seq::<char>::empty()] + bs).2,
    decreases bs.len(),
{
    let ls = hs + seq![Seq::<char>::empty()] + bs;
    if bs.len() == 0 {
        lemma_cgi_headers_only(hs);
        assert(ls.drop_last() =~= hs);
    } else {
        lemma_cgi_body(hs, bs.drop_last());
        assert(ls.drop_last() =~= hs + seq![Seq::<char>::empty()] + bs.drop_last());
        assert(bs.drop_last().push(bs.last()) =~= bs);
        lemma_terminated_push(bs.drop_last(), bs.last());
    }
}

} // verus!
