//! Percent-decoding of file names, through the `urlencoding` crate.
use vstd::prelude::*;
use vstd::utf8::{decode_utf8, encode_utf8, valid_utf8};

verus! {

/// The value of a hexadecimal digit byte.
pub open spec fn hex_value(b: u8) -> Option<u8> {
    if 48 <= b && b <= 57 {
        Some((b - 48) as u8)
    } else if 65 <= b && b <= 70 {
        Some((b - 55) as u8)
    } else if 97 <= b && b <= 102 {
        Some((b - 87) as u8)
    } else {
        None
    }
}

/// `urlencoding::decode_binary`: each `%` followed by two hexadecimal digits
/// becomes the byte they spell; any other byte, and a `%` that does not start
/// such an escape, is kept; `+` is kept.
pub open spec fn percent_decode(b: Seq<u8>) -> Seq<u8>
    decreases b.len(),
{
    if b.len() == 0 {
        Seq::empty()
    } else if b[0] != 37 {
        seq![b[0]] + percent_decode(b.skip(1))
    } else if b.len() < 3 {
        b
    } else {
        match (hex_value(b[1]), hex_value(b[2])) {
            (Some(h), Some(l)) => seq![(h * 16 + l) as u8] + percent_decode(b.skip(3)),
            (Some(_), None) => seq![37u8, b[1]] + percent_decode(b.skip(2)),
            (None, _) => seq![37u8] + percent_decode(b.skip(1)),
        }
    }
}

/// The text that `urlencoding::decode` gives for `s`, if the decoded bytes
/// are valid UTF-8.
pub open spec fn url_decoded(s: Seq<char>) -> Option<Seq<char>> {
    let d = percent_decode(encode_utf8(s));
    if valid_utf8(d) {
        Some(decode_utf8(d))
    } else {
        None
    }
}

/// `urlencoding::decode`: percent-decodes the UTF-8 bytes of `s`, then reads
/// them as UTF-8 (`Err` when they are not).
#[verifier::external_body]
pub(crate) fn url_decode(s: &str) -> (r: Option<String>)
    ensures
        match r {
            Some(d) => url_decoded(s@) == Some(d@),
            None => url_decoded(s@) is None,
        },
{
    urlencoding::decode(s).ok().map(|d| d.into_owned())
}

/// Bytes without `%` are left as they are by percent-decoding.
pub proof fn lemma_percent_decode_plain(b: Seq<u8>)
    requires
        forall|i: int| 0 <= i < b.len() ==> b[i] != 37,
    ensures
        percent_decode(b) == b,
    decreases b.len(),
{
    if b.len() > 0 {
        lemma_percent_decode_plain(b.skip(1));
        assert(seq![b[0]] + b.skip(1) =~= b);
    }
}

/// An escape `%` followed by two hexadecimal digits becomes the byte whose
/// value they spell, `16 * high + low`, and decoding goes on after it.
pub proof fn lemma_percent_decode_escape(h: u8, l: u8, rest: Seq<u8>)
    requires
        hex_value(h) is Some,
        hex_value(l) is Some,
    ensures
        percent_decode(seq![37u8, h, l] + rest) == seq![
            (hex_value(h)->0 * 16 + hex_value(l)->0) as u8,
        ] + percent_decode(rest),
        hex_value(h)->0 < 16 && hex_value(l)->0 < 16,
{
    let b = seq![37u8, h, l] + rest;
    assert(b.skip(3) =~= rest);
}

} // verus!
