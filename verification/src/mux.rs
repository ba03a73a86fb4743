//! The decisions of the connection loop: which server a request goes to,
//! and what to do with a client's buffered bytes.
use crate::errors::AppErr;
use crate::message::{
    admission, content_length_of, host_of, lossy_utf8, parsable, parsed_headers, Admission,
    Request,
};
use crate::server::Server;
use crate::text::{chars_of, contains, find_chars};
use vstd::prelude::*;

verus! {

/// Scanning `servers` from `i` for the first whose host `host` contains:
/// `Some(Some(i))` when found, `Some(None)` when none is, and `None` when the
/// scan reaches a server without a host, which the server cannot route with.
pub open spec fn scan_from(servers: Seq<Server>, host: Seq<char>, i: int) -> Option<Option<int>>
    decreases servers.len() - i,
{
    if i < 0 || i >= servers.len() {
        Some(None)
    } else {
        match servers[i].host {
            None => None,
            Some(h) => if contains(host, h@) {
                Some(Some(i))
            } else {
                scan_from(servers, host, i + 1)
            },
        }
    }
}

/// `str::contains` with a string pattern, the empty pattern included.
fn str_contains(s: &str, p: &str) -> (b: bool)
    ensures
        b == contains(s@, p@),
{
    let sc = chars_of(s);
    let pc = chars_of(p);
    if pc.len() == 0 {
        assert(crate::text::match_at(s@, p@, 0)) by {
            assert(s@.subrange(0, 0) =~= p@);
        }
        return true;
    }
    find_chars(sc.as_slice(), pc.as_slice(), 0).is_some()
}

/// The first server whose host `host` contains, or `None` when the scan
/// meets a server without a host.
pub fn try_find_server(servers: &Vec<Server>, host: &str) -> (r: Option<Option<usize>>)
    ensures
        match r {
            None => scan_from(servers@, host@, 0) is None,
            Some(None) => scan_from(servers@, host@, 0) == Some(None::<int>),
            Some(Some(i)) => scan_from(servers@, host@, 0) == Some(Some(i as int)),
        },
{
    let mut i: usize = 0;
    while i < servers.len()
        invariant
            i <= servers@.len(),
            scan_from(servers@, host@, 0) == scan_from(servers@, host@, i as int),
        decreases servers@.len() - i,
    {
        match &servers[i].host {
            None => {
                return None;
            },
            Some(h) => {
                if str_contains(host, h.as_str()) {
                    return Some(Some(i));
                }
            },
        }
        i = i + 1;
    }
    Some(None)
}

/// The first server whose host the request's host contains.
pub fn find_server(servers: &Vec<Server>, host: &str) -> (r: Option<usize>)
    requires
        scan_from(servers@, host@, 0) is Some,
    ensures
        scan_from(servers@, host@, 0) == Some(
            match r {
                Some(i) => Some(i as int),
                None => None,
            },
        ),
{
    match try_find_server(servers, host) {
        Some(r) => r,
        None => None,
    }
}

/// What the connection loop does with a client's buffer.
pub enum Step {
    /// Keep reading.
    Wait,
    /// Answer with this error status.
    Respond(u16),
    /// Route the request to the server at this position.
    Route(usize, Request),
    /// The request cannot be handled at all: the server stops.
    Fault,
}

/// Decides what to do with a client's buffered bytes: a request announcing
/// more than the size limit is refused (413); an incomplete one is waited
/// for; a complete one goes to the first server its host names, or is a bad
/// request (400) when none does.
pub fn plan_request(servers: &Vec<Server>, buf: &Vec<u8>, size_limit: u64) -> (r: Step)
    ensures
        ({
            let cl = content_length_of(lossy_utf8(buf@));
            match admission(buf@.len(), cl, size_limit) {
                Admission::TooLarge => r matches Step::Respond(c) && c == 413,
                Admission::Incomplete => r is Wait,
                Admission::Complete => if !parsable(buf@) {
                    r is Fault
                } else {
                    match scan_from(servers@, host_of(parsed_headers(buf@)), 0) {
                        None => r is Fault,
                        Some(None) => r matches Step::Respond(c) && c == 400,
                        Some(Some(i)) => r matches Step::Route(j, q) && j == i && q.parses_from(
                            buf@,
                        ),
                    }
                },
            }
        }),
{
    match Request::receive(buf, size_limit) {
        None => Step::Fault,
        Some(Err(AppErr::TooLarge)) => Step::Respond(413),
        Some(Err(_)) => Step::Wait,
        Some(Ok(request)) => {
            let host = request.host();
            match try_find_server(servers, host.as_str()) {
                None => Step::Fault,
                Some(None) => Step::Respond(400),
                Some(Some(i)) => Step::Route(i, request),
            }
        },
    }
}

} // verus!
