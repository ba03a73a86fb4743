//! Login sessions: the session store, session cookies and session ids.
use crate::message::Request;
use crate::table::{lookup, Headers, StrMap};
use crate::text::{
    chars_of, copy_range, is_ws, split_char, split_chars, starts_with, starts_with_chars,
    push_str, string_from_chars, trim, trim_chars, views,
};
use rand::distributions::DistString;
use vstd::prelude::*;

verus! {

/// The abstract content of a session store: session ids with the time (in
/// seconds) at which each was stamped.
pub type SessionView = Seq<(Seq<char>, u64)>;

/// A session stamped at `stamp` is still valid at `now`: it is not stamped
/// in the future, and less than `timeout` seconds old. (The age of a stamp
/// later than the clock has no unsigned value; such a stamp counts as
/// expired.)
pub open spec fn live(stamp: u64, now: u64, timeout: u64) -> bool {
    stamp <= now && now - stamp < timeout
}

/// The sessions of `s` that are live at `now`, in order.
pub open spec fn keep_live(s: SessionView, now: u64, timeout: u64) -> SessionView
    decreases s.len(),
{
    if s.len() == 0 {
        Seq::empty()
    } else {
        let init = keep_live(s.drop_last(), now, timeout);
        if live(s.last().1, now, timeout) {
            init.push(s.last())
        } else {
            init
        }
    }
}

/// The position of the first session with id `k` at or after `i`.
pub open spec fn session_from(s: SessionView, k: Seq<char>, i: int) -> Option<int>
    decreases s.len() - i,
{
    if i < 0 || i >= s.len() {
        None
    } else if s[i].0 == k {
        Some(i)
    } else {
        session_from(s, k, i + 1)
    }
}

/// The stamp of session `k`.
pub open spec fn stamp_of(s: SessionView, k: Seq<char>) -> Option<u64> {
    match session_from(s, k, 0) {
        Some(i) => Some(s[i].1),
        None => None,
    }
}

/// `s` after `HashMap::insert(k, stamp)`.
pub open spec fn session_insert(s: SessionView, k: Seq<char>, stamp: u64) -> SessionView {
    match session_from(s, k, 0) {
        Some(i) => s.update(i, (k, stamp)),
        None => s.push((k, stamp)),
    }
}

/// Session `k` of `s` is valid at `now`.
pub open spec fn session_valid(s: SessionView, k: Seq<char>, now: u64, timeout: u64) -> bool {
    match stamp_of(s, k) {
        Some(t) => live(t, now, timeout),
        None => false,
    }
}

/// The stores of logged-in sessions.
pub struct SessionStore {
    pub sessions: Vec<(String, u64)>,
    /// How long a session lasts, in seconds.
    pub timeout: u64,
}

/// The server's session state.
pub struct Http {
    pub session_store: SessionStore,
}

impl View for SessionStore {
    type V = SessionView;

    open spec fn view(&self) -> SessionView {
        self.sessions@.map_values(|e: (String, u64)| (e.0@, e.1))
    }
}

/// The current time in whole seconds since the Unix epoch
/// (`UNIX_EPOCH.elapsed()`; 0 when the clock reads earlier than the epoch).
/// It depends on the clock, so nothing is stated of it.
#[verifier::external_body]
pub(crate) fn current_timestamp() -> u64 {
    std::time::UNIX_EPOCH.elapsed().map(|d| d.as_secs()).unwrap_or(0)
}

/// `len` characters drawn by `rand`'s `Alphanumeric` distribution
/// (`Alphanumeric.sample_string(&mut thread_rng(), len)`): each is an ASCII
/// letter or digit. Which ones is left to chance.
#[verifier::external_body]
fn random_alphanumeric(len: usize) -> (s: String)
    ensures
        s@.len() == len,
        forall|i: int| 0 <= i < s@.len() ==> is_alphanumeric(#[trigger] s@[i]),
{
    rand::distributions::Alphanumeric.sample_string(&mut rand::thread_rng(), len)
}

/// An ASCII letter or digit.
pub open spec fn is_alphanumeric(c: char) -> bool {
    ('A' <= c && c <= 'Z') || ('a' <= c && c <= 'z') || ('0' <= c && c <= '9')
}

/// A fresh session id: 32 random ASCII letters and digits.
pub fn generate_session_id() -> (id: String)
    ensures
        id@.len() == 32,
        forall|i: int| 0 <= i < id@.len() ==> is_alphanumeric(#[trigger] id@[i]),
{
    random_alphanumeric(32)
}

/// The value of the `session_id` cookie in a `Cookie` header: the first
/// `;`-separated item that, trimmed, starts with `session_id=`.
pub open spec fn session_id_from(pieces: Seq<Seq<char>>, i: int) -> Option<Seq<char>>
    decreases pieces.len() - i,
{
    if i < 0 || i >= pieces.len() {
        None
    } else if starts_with(trim(pieces[i]), "session_id="@) {
        Some(trim(pieces[i]).skip(11))
    } else {
        session_id_from(pieces, i + 1)
    }
}

pub open spec fn cookie_session_id(cookie: Seq<char>) -> Option<Seq<char>> {
    session_id_from(split_char(cookie, ';'), 0)
}

/// The session id a `Cookie` header carries.
pub fn get_session_id(cookie: &str) -> (r: Option<String>)
    ensures
        match r {
            Some(s) => cookie_session_id(cookie@) == Some(s@),
            None => cookie_session_id(cookie@) is None,
        },
{
    proof {
        reveal_strlit("session_id=");
    }
    let cs = chars_of(cookie);
    let pieces = split_chars(cs.as_slice(), ';');
    let ghost pv = split_char(cookie@, ';');
    let prefix = chars_of("session_id=");
    let mut i: usize = 0;
    while i < pieces.len()
        invariant
            i <= pieces@.len(),
            views(pieces@) == pv,
            pv == split_char(cookie@, ';'),
            prefix@ == "session_id="@,
            prefix@.len() == 11,
            session_id_from(pv, 0) == session_id_from(pv, i as int),
        decreases pieces@.len() - i,
    {
        assert(pv[i as int] == pieces@[i as int]@);
        let t = trim_chars(pieces[i].as_slice());
        if starts_with_chars(t.as_slice(), prefix.as_slice()) {
            let id = copy_range(t.as_slice(), 11, t.len());
            assert(id@ =~= t@.skip(11));
            return Some(string_from_chars(id.as_slice()));
        }
        i = i + 1;
    }
    None
}

impl SessionStore {
    /// An empty store whose sessions last `timeout_minutes` minutes.
    pub fn new(timeout_minutes: u64) -> (s: Self)
        requires
            timeout_minutes * 60 <= u64::MAX,
        ensures
            s@.len() == 0,
            ids_unique(s@),
            s.timeout == timeout_minutes * 60,
    {
        let s = SessionStore { sessions: Vec::new(), timeout: timeout_minutes * 60 };
        assert(s@ =~= Seq::<(Seq<char>, u64)>::empty());
        s
    }

    /// Drops the sessions that are not live at `now`.
    pub fn clean_at(&mut self, now: u64)
        ensures
            ids_unique(old(self)@) ==> ids_unique(final(self)@),
            final(self)@ == keep_live(old(self)@, now, old(self).timeout),
            final(self).timeout == old(self).timeout,
    {
        proof {
            if ids_unique(self@) {
                lemma_keep_live_unique(self@, now, self.timeout);
            }
        }
        let timeout = self.timeout;
        let mut kept: Vec<(String, u64)> = Vec::new();
        let mut i: usize = 0;
        assert(self@.take(0) =~= Seq::<(Seq<char>, u64)>::empty());
        while i < self.sessions.len()
            invariant
                i <= self@.len(),
                timeout == self.timeout,
                self@ == old(self)@,
                kept@.map_values(|e: (String, u64)| (e.0@, e.1)) == keep_live(
                    self@.take(i as int),
                    now,
                    timeout,
                ),
            decreases self@.len() - i,
        {
            proof {
                assert(self@.take(i + 1).drop_last() =~= self@.take(i as int));
                assert(self@.take(i + 1).last() == self@[i as int]);
            }
            let ghost before = kept@.map_values(|e: (String, u64)| (e.0@, e.1));
            let stamp = self.sessions[i].1;
            if stamp <= now && now - stamp < timeout {
                let id = self.sessions[i].0.clone();
                let ghost ev = (id@, stamp);
                assert(ev == self@[i as int]);
                kept.push((id, stamp));
                assert(kept@.map_values(|e: (String, u64)| (e.0@, e.1)) =~= before.push(ev));
            }
            i = i + 1;
        }
        assert(self@.take(i as int) =~= self@);
        self.sessions = kept;
    }

    /// `clean_at` the current time.
    pub fn clean(&mut self)
        ensures
            ids_unique(old(self)@) ==> ids_unique(final(self)@),
            exists|now: u64| final(self)@ == keep_live(old(self)@, now, old(self).timeout),
            final(self).timeout == old(self).timeout,
    {
        let now = current_timestamp();
        self.clean_at(now);
    }

    /// The position of session `id`.
    fn position(&self, id: &str) -> (r: Option<usize>)
        ensures
            r matches Some(i) ==> session_from(self@, id@, 0) == Some(i as int) && i
                < self@.len(),
            r is None ==> session_from(self@, id@, 0) is None,
    {
        let key = String::from_str(id);
        let mut i: usize = 0;
        while i < self.sessions.len()
            invariant
                i <= self@.len(),
                key@ == id@,
                session_from(self@, id@, 0) == session_from(self@, id@, i as int),
            decreases self@.len() - i,
        {
            assert(self@[i as int].0 == self.sessions@[i as int].0@);
            if self.sessions[i].0 == key {
                return Some(i);
            }
            i = i + 1;
        }
        None
    }

    /// Records session `id` stamped at `stamp` (`HashMap::insert`).
    pub fn insert(&mut self, id: String, stamp: u64)
        ensures
            ids_unique(old(self)@) ==> ids_unique(final(self)@),
            final(self)@ == session_insert(old(self)@, id@, stamp),
            final(self).timeout == old(self).timeout,
    {
        let ghost k = id@;
        proof {
            if ids_unique(self@) {
                lemma_store_ids_unique(self@, k, stamp, 0, 0);
            }
        }
        match self.position(id.as_str()) {
            Some(i) => {
                self.sessions.set(i, (id, stamp));
                assert(self@ =~= old(self)@.update(i as int, (k, stamp)));
            },
            None => {
                self.sessions.push((id, stamp));
                assert(self@ =~= old(self)@.push((k, stamp)));
            },
        }
    }

    /// The stamp of session `id`.
    pub fn stamp(&self, id: &str) -> (r: Option<u64>)
        ensures
            r == stamp_of(self@, id@),
    {
        match self.position(id) {
            Some(i) => Some(self.sessions[i].1),
            None => None,
        }
    }

    /// Cleans at `clean_now`, then records session `id` stamped at `stamp`.
    pub fn create_session_at(&mut self, id: String, clean_now: u64, stamp: u64)
        ensures
            ids_unique(old(self)@) ==> ids_unique(final(self)@),
            final(self)@ == session_insert(
                keep_live(old(self)@, clean_now, old(self).timeout),
                id@,
                stamp,
            ),
            final(self).timeout == old(self).timeout,
    {
        self.clean_at(clean_now);
        self.insert(id, stamp);
    }

    /// Opens a session: cleans the store, draws a fresh id and stamps it
    /// with the current time.
    pub fn create_session(&mut self) -> (id: String)
        ensures
            ids_unique(old(self)@) ==> ids_unique(final(self)@),
            id@.len() == 32,
            forall|i: int| 0 <= i < id@.len() ==> is_alphanumeric(#[trigger] id@[i]),
            exists|c: u64, t: u64|
                final(self)@ == session_insert(keep_live(old(self)@, c, old(self).timeout), id@, t),
            exists|now: u64|
                final(self)@ == session_insert(
                    keep_live(old(self)@, now, old(self).timeout),
                    id@,
                    now,
                ),
            final(self).timeout == old(self).timeout,
    {
        let now = current_timestamp();
        self.clean_at(now);
        let session_id = generate_session_id();
        let result = String::from_str(session_id.as_str());
        self.insert(session_id, now);
        result
    }

    /// Cleans at `clean_now`, then tells whether session `id` is live at
    /// `check_now`.
    pub fn validate_session_at(&mut self, id: &str, clean_now: u64, check_now: u64) -> (b: bool)
        ensures
            ids_unique(old(self)@) ==> ids_unique(final(self)@),
            final(self)@ == keep_live(old(self)@, clean_now, old(self).timeout),
            final(self).timeout == old(self).timeout,
            b == session_valid(final(self)@, id@, check_now, old(self).timeout),
    {
        self.clean_at(clean_now);
        match self.stamp(id) {
            Some(t) => t <= check_now && check_now - t < self.timeout,
            None => false,
        }
    }

    /// Cleans the store and tells whether session `id` is still valid, both
    /// at the current time.
    pub fn validate_session(&mut self, session_id: &str) -> (b: bool)
        ensures
            ids_unique(old(self)@) ==> ids_unique(final(self)@),
            final(self).timeout == old(self).timeout,
            exists|c: u64, t: u64|
                final(self)@ == keep_live(old(self)@, c, old(self).timeout) && b == session_valid(
                    final(self)@,
                    session_id@,
                    t,
                    old(self).timeout,
                ),
            exists|now: u64|
                final(self)@ == keep_live(old(self)@, now, old(self).timeout) && b == session_valid(
                    final(self)@,
                    session_id@,
                    now,
                    old(self).timeout,
                ),
    {
        let now = current_timestamp();
        self.validate_session_at(session_id, now, now)
    }
}

/// The session id of a request: from its `Cookie` header.
pub open spec fn request_session_id(req: &Request) -> Option<Seq<char>> {
    match lookup(req.headers@, "Cookie"@) {
        Some(c) => cookie_session_id(c),
        None => None,
    }
}

/// The session check of a request against store `s`: without a session
/// id, it fails and leaves the store; with one, the store is cleaned at
/// `clean_now` and the session must be valid at `check_now`.
pub open spec fn checked_session(
    s: SessionView,
    timeout: u64,
    req: &Request,
    clean_now: u64,
    check_now: u64,
) -> (bool, SessionView) {
    match request_session_id(req) {
        None => (false, s),
        Some(id) => {
            let k = keep_live(s, clean_now, timeout);
            (session_valid(k, id, check_now, timeout), k)
        },
    }
}

impl Http {
    /// Session state whose sessions last `timeout_minutes` minutes.
    pub fn new(timeout_minutes: u64) -> (h: Self)
        requires
            timeout_minutes * 60 <= u64::MAX,
        ensures
            h.session_store@.len() == 0,
            ids_unique(h.session_store@),
            h.session_store.timeout == timeout_minutes * 60,
    {
        Http { session_store: SessionStore::new(timeout_minutes) }
    }

    /// The request carries the id of a session that is valid at
    /// `check_now`, after cleaning at `clean_now`; the store is cleaned only
    /// when there is an id to check.
    pub fn has_valid_session_at(&mut self, req: &Request, clean_now: u64, check_now: u64) -> (b:
        bool)
        ensures
            ids_unique(old(self).session_store@) ==> ids_unique(final(self).session_store@),
            final(self).session_store.timeout == old(self).session_store.timeout,
            (b, final(self).session_store@) == checked_session(
                old(self).session_store@,
                old(self).session_store.timeout,
                req,
                clean_now,
                check_now,
            ),
    {
        match req.headers.get("Cookie") {
            Some(cookie) => match get_session_id(cookie.as_str()) {
                Some(session_id) => self.session_store.validate_session_at(
                    session_id.as_str(),
                    clean_now,
                    check_now,
                ),
                None => false,
            },
            None => false,
        }
    }

    /// The request carries the id of a session that is valid now.
    pub fn has_valid_session(&mut self, req: &Request) -> (b: bool)
        ensures
            ids_unique(old(self).session_store@) ==> ids_unique(final(self).session_store@),
            final(self).session_store.timeout == old(self).session_store.timeout,
            exists|c: u64, t: u64|
                (b, final(self).session_store@) == #[trigger] checked_session(
                    old(self).session_store@,
                    old(self).session_store.timeout,
                    req,
                    c,
                    t,
                ),
            exists|now: u64|
                (b, final(self).session_store@) == #[trigger] checked_session(
                    old(self).session_store@,
                    old(self).session_store.timeout,
                    req,
                    now,
                    now,
                ),
    {
        let now = current_timestamp();
        self.has_valid_session_at(req, now, now)
    }

    /// Logs a client in: opens a session and sets, on the redirection
    /// `response`, the headers `Set-Cookie: session_id=<id>; Path=/; HttpOnly`
    /// and `Location: /`.
    pub fn set_cookie(&mut self, response: crate::response::Response) -> (r: (
        crate::response::Response,
        String,
    ))
        ensures
            ids_unique(old(self).session_store@) ==> ids_unique(final(self).session_store@),
            r.1@.len() == 32,
            forall|i: int| 0 <= i < r.1@.len() ==> is_alphanumeric(#[trigger] r.1@[i]),
            exists|c: u64, t: u64|
                final(self).session_store@ == session_insert(
                    keep_live(old(self).session_store@, c, old(self).session_store.timeout),
                    r.1@,
                    t,
                ),
            exists|now: u64|
                final(self).session_store@ == session_insert(
                    keep_live(old(self).session_store@, now, old(self).session_store.timeout),
                    r.1@,
                    now,
                ),
            final(self).session_store.timeout == old(self).session_store.timeout,
            r.0.status_code == response.status_code,
            r.0.status_txt@ == response.status_txt@,
            r.0.body@ == response.body@,
            crate::response::table_of(r.0.headers) == Some(cookie_headers(r.1@)),
    {
        let session_id = self.session_store.create_session();
        let headers = cookie_header_map(session_id.as_str());
        let mut response = response;
        response.set_headers(Some(headers));
        (response, session_id)
    }
}

/// The headers that log a client in with session `id`.
pub open spec fn cookie_headers(id: Seq<char>) -> crate::table::TableView {
    seq![
        ("Set-Cookie"@, "session_id="@ + id + "; Path=/; HttpOnly"@),
        ("Location"@, "/"@),
    ]
}

fn cookie_header_map(id: &str) -> (h: Headers)
    ensures
        h@ == cookie_headers(id@),
{
    proof {
        reveal_strlit("Set-Cookie");
        reveal_strlit("Location");
    }
    let mut v: Vec<char> = chars_of("session_id=");
    push_str(&mut v, id);
    push_str(&mut v, "; Path=/; HttpOnly");
    let mut h = StrMap::new();
    proof {
        reveal_with_fuel(crate::table::key_from, 3);
        reveal_strlit("Set-Cookie");
        reveal_strlit("Location");
        assert("Set-Cookie"@.len() == 10);
        assert("Location"@.len() == 8);
        assert("Set-Cookie"@ != "Location"@);
    }
    h.insert(String::from_str("Set-Cookie"), string_from_chars(v.as_slice()));
    h.insert(String::from_str("Location"), String::from_str("/"));
    assert(h@ =~= cookie_headers(id@));
    h
}


// ---------------------------------------------------------------------
// Laws of the session store
// ---------------------------------------------------------------------

proof fn lemma_session_from(s: SessionView, k: Seq<char>, i: int)
    requires
        0 <= i,
    ensures
        session_from(s, k, i) matches Some(j) ==> i <= j < s.len() && s[j].0 == k && forall|m: int|
            i <= m < j ==> s[m].0 != k,
        session_from(s, k, i) is None ==> forall|m: int| i <= m < s.len() ==> s[m].0 != k,
    decreases s.len() - i,
{
    if i < s.len() && s[i].0 != k {
        lemma_session_from(s, k, i + 1);
    }
}

/// The first entry with key `k` is at `j`.
proof fn lemma_session_from_at(s: SessionView, k: Seq<char>, j: int)
    requires
        0 <= j < s.len(),
        s[j].0 == k,
        forall|m: int| 0 <= m < j ==> s[m].0 != k,
    ensures
        session_from(s, k, 0) == Some(j),
{
    lemma_session_from(s, k, 0);
    match session_from(s, k, 0) {
        Some(x) => {
            if x < j {
                assert(s[x].0 != k);
            }
        },
        None => {
            assert(s[j].0 != k);
        },
    }
}

/// Every entry kept by `keep_live` is an entry of the store.
proof fn lemma_keep_live_from(s: SessionView, now: u64, timeout: u64)
    ensures
        forall|j: int|
            0 <= j < keep_live(s, now, timeout).len() ==> exists|m: int|
                0 <= m < s.len() && #[trigger] keep_live(s, now, timeout)[j] == s[m],
    decreases s.len(),
{
    if s.len() > 0 {
        let init = keep_live(s.drop_last(), now, timeout);
        lemma_keep_live_from(s.drop_last(), now, timeout);
        assert forall|j: int|
            0 <= j < keep_live(s, now, timeout).len() implies exists|m: int|
                0 <= m < s.len() && #[trigger] keep_live(s, now, timeout)[j] == s[m] by {
            if j < init.len() {
                let m = choose|m: int| 0 <= m < s.drop_last().len() && init[j] == s.drop_last()[m];
                assert(keep_live(s, now, timeout)[j] == s[m]);
            } else {
                assert(keep_live(s, now, timeout)[j] == s[s.len() - 1]);
            }
        }
    }
}

/// After cleaning at `now`, every session left is live at `now`.
pub proof fn lemma_clean_keeps_only_live(s: SessionView, now: u64, timeout: u64)
    ensures
        forall|j: int|
            0 <= j < keep_live(s, now, timeout).len() ==> live(
                #[trigger] keep_live(s, now, timeout)[j].1,
                now,
                timeout,
            ),
    decreases s.len(),
{
    if s.len() > 0 {
        lemma_clean_keeps_only_live(s.drop_last(), now, timeout);
        let init = keep_live(s.drop_last(), now, timeout);
        if live(s.last().1, now, timeout) {
            let r = init.push(s.last());
            assert(keep_live(s, now, timeout) == r);
            assert forall|j: int| 0 <= j < r.len() implies live(#[trigger] r[j].1, now, timeout) by {
                if j < init.len() {
                    assert(r[j] == init[j]);
                }
            }
        }
    }
}

/// Cleaning keeps a session that is live at the cleaning time, with its stamp.
pub proof fn lemma_clean_keeps_live_session(s: SessionView, k: Seq<char>, now: u64, timeout: u64)
    requires
        stamp_of(s, k) matches Some(t) && live(t, now, timeout),
    ensures
        stamp_of(keep_live(s, now, timeout), k) == stamp_of(s, k),
    decreases s.len(),
{
    lemma_session_from(s, k, 0);
    let i = session_from(s, k, 0)->0;
    let n = s.len() as int;
    let init = keep_live(s.drop_last(), now, timeout);
    if i < n - 1 {
        lemma_session_from_at(s.drop_last(), k, i);
        lemma_clean_keeps_live_session(s.drop_last(), k, now, timeout);
        lemma_session_from(init, k, 0);
        let j = session_from(init, k, 0)->0;
        if live(s.last().1, now, timeout) {
            assert(keep_live(s, now, timeout) == init.push(s.last()));
            lemma_session_from_at(init.push(s.last()), k, j);
        }
    } else {
        lemma_keep_live_from(s.drop_last(), now, timeout);
        assert forall|m: int| 0 <= m < init.len() implies init[m].0 != k by {
            let x = choose|x: int| 0 <= x < s.drop_last().len() && #[trigger] init[m]
                == s.drop_last()[x];
            assert(s[x].0 != k);
        }
        assert(keep_live(s, now, timeout) == init.push(s.last()));
        lemma_session_from_at(init.push(s.last()), k, init.len() as int);
    }
}

/// An inserted session carries its stamp.
pub proof fn lemma_insert_stamp(s: SessionView, k: Seq<char>, t: u64)
    ensures
        stamp_of(session_insert(s, k, t), k) == Some(t),
{
    lemma_session_from(s, k, 0);
    match session_from(s, k, 0) {
        Some(i) => {
            lemma_session_from_at(s.update(i, (k, t)), k, i);
        },
        None => {
            lemma_session_from_at(s.push((k, t)), k, s.len() as int);
        },
    }
}

/// A session opened with stamp `t` is valid at any later check `u` within
/// the timeout, when the store is cleaned in between at a time `c` also within
/// the timeout.
pub proof fn lemma_new_session_valid(
    s: SessionView,
    id: Seq<char>,
    c0: u64,
    t: u64,
    c: u64,
    u: u64,
    timeout: u64,
)
    requires
        t <= c,
        c - t < timeout,
        t <= u,
        u - t < timeout,
    ensures
        session_valid(
            keep_live(session_insert(keep_live(s, c0, timeout), id, t), c, timeout),
            id,
            u,
            timeout,
        ),
{
    let s1 = session_insert(keep_live(s, c0, timeout), id, t);
    lemma_insert_stamp(keep_live(s, c0, timeout), id, t);
    lemma_clean_keeps_live_session(s1, id, c, timeout);
}


proof fn lemma_split_without_sep(s: Seq<char>, c: char)
    requires
        forall|i: int| 0 <= i < s.len() ==> s[i] != c,
    ensures
        split_char(s, c) == seq![s],
    decreases s.len(),
{
    if s.len() == 0 {
        assert(s =~= Seq::<char>::empty());
    } else {
        lemma_split_without_sep(s.drop_last(), c);
        assert(s.drop_last().push(s.last()) =~= s);
    }
}

proof fn lemma_split_first_piece(a: Seq<char>, b: Seq<char>, c: char)
    requires
        forall|i: int| 0 <= i < a.len() ==> a[i] != c,
    ensures
        split_char(a + seq![c] + b, c).len() >= 2,
        split_char(a + seq![c] + b, c)[0] == a,
    decreases b.len(),
{
    let s = a + seq![c] + b;
    if b.len() == 0 {
        assert(s.drop_last() =~= a);
        lemma_split_without_sep(a, c);
    } else {
        lemma_split_first_piece(a, b.drop_last(), c);
        assert(s.drop_last() =~= a + seq![c] + b.drop_last());
    }
}

proof fn lemma_trim_plain(s: Seq<char>)
    requires
        s.len() > 0,
        !is_ws(s[0]),
        !is_ws(s.last()),
    ensures
        trim(s) == s,
{
}

/// The cookie that `set_cookie` hands out, and the bare `session_id=<id>`
/// cookie a client sends back, both give the session id `id` again, for an
/// id made of ASCII letters and digits as `generate_session_id` makes it.
pub proof fn lemma_cookie_round_trip(id: Seq<char>)
    requires
        forall|i: int| 0 <= i < id.len() ==> is_alphanumeric(#[trigger] id[i]),
    ensures
        cookie_session_id("session_id="@ + id) == Some(id),
        cookie_session_id(cookie_headers(id)[0].1) == Some(id),
{
    reveal_strlit("session_id=");
    reveal_strlit("; Path=/; HttpOnly");
    let a = "session_id="@ + id;
    assert forall|i: int| 0 <= i < a.len() implies a[i] != ';' && !is_ws(a[i]) by {
        if i >= 11 {
            assert(a[i] == id[i - 11]);
            assert(is_alphanumeric(id[i - 11]));
        }
    }
    assert(starts_with(a, "session_id="@)) by {
        assert(a.take(11) =~= "session_id="@);
    }
    assert(a.skip(11) =~= id);
    lemma_trim_plain(a);
    lemma_split_without_sep(a, ';');
    let rest = "; Path=/; HttpOnly"@.skip(1);
    assert(cookie_headers(id)[0].1 =~= a + seq![';'] + rest);
    lemma_split_first_piece(a, rest, ';');
}

/// Logging in and coming back: after a session `id` is opened with stamp
/// `t`, a request whose `Cookie` header is `session_id=<id>` passes the
/// session check, cleaned at `c` and checked at `u`, both within the timeout
/// of `t`.
pub proof fn lemma_login_then_authenticated(
    s: SessionView,
    id: Seq<char>,
    c0: u64,
    t: u64,
    req: &Request,
    c: u64,
    u: u64,
    timeout: u64,
)
    requires
        forall|i: int| 0 <= i < id.len() ==> is_alphanumeric(#[trigger] id[i]),
        lookup(req.headers@, "Cookie"@) == Some("session_id="@ + id),
        t <= c,
        c - t < timeout,
        t <= u,
        u - t < timeout,
    ensures
        checked_session(session_insert(keep_live(s, c0, timeout), id, t), timeout, req, c, u).0,
{
    lemma_cookie_round_trip(id);
    lemma_new_session_valid(s, id, c0, t, c, u, timeout);
}

/// No two sessions of the store share an id.
pub open spec fn ids_unique(s: SessionView) -> bool {
    forall|i: int, j: int| 0 <= i < j < s.len() ==> s[i].0 != s[j].0
}

/// Recording a session and cleaning the store both keep the session ids
/// distinct, as the keys of a map are.
pub proof fn lemma_store_ids_unique(s: SessionView, k: Seq<char>, t: u64, now: u64, timeout: u64)
    requires
        ids_unique(s),
    ensures
        ids_unique(session_insert(s, k, t)),
        ids_unique(keep_live(s, now, timeout)),
{
    lemma_session_from(s, k, 0);
    let s2 = session_insert(s, k, t);
    assert forall|i: int, j: int| 0 <= i < j < s2.len() implies s2[i].0 != s2[j].0 by {
        match session_from(s, k, 0) {
            Some(m) => {
                if i == m {
                    assert(s[j].0 != s[m].0);
                } else if j == m {
                    assert(s[i].0 != s[m].0);
                }
            },
            None => {},
        }
    }
    lemma_keep_live_unique(s, now, timeout);
}

proof fn lemma_keep_live_unique(s: SessionView, now: u64, timeout: u64)
    requires
        ids_unique(s),
    ensures
        ids_unique(keep_live(s, now, timeout)),
    decreases s.len(),
{
    if s.len() > 0 {
        let init = keep_live(s.drop_last(), now, timeout);
        lemma_keep_live_unique(s.drop_last(), now, timeout);
        lemma_keep_live_from(s.drop_last(), now, timeout);
        if live(s.last().1, now, timeout) {
            let r = init.push(s.last());
            assert forall|i: int, j: int| 0 <= i < j < r.len() implies r[i].0 != r[j].0 by {
                assert(r[i] == init[i]);
                if j == init.len() {
                    let m = choose|m: int|
                        0 <= m < s.drop_last().len() && #[trigger] init[i] == s.drop_last()[m];
                    assert(s[m] == init[i]);
                    assert(s[m].0 != s[s.len() - 1].0);
                } else {
                    assert(r[j] == init[j]);
                }
            }
            assert(keep_live(s, now, timeout) == r);
        }
    }
}

/// Recording session `id` leaves the stamp of every other session as it
/// was.
pub proof fn lemma_insert_stamp_other(s: SessionView, id: Seq<char>, t: u64, k: Seq<char>)
    requires
        k != id,
    ensures
        stamp_of(session_insert(s, id, t), k) == stamp_of(s, k),
{
    lemma_session_from(s, k, 0);
    lemma_session_from(s, id, 0);
    let s2 = session_insert(s, id, t);
    lemma_session_from(s2, k, 0);
    match session_from(s, k, 0) {
        Some(j) => {
            assert(s2[j].0 == k);
            assert forall|m: int| 0 <= m < j implies s2[m].0 != k by {
                assert(s[m].0 != k);
            }
            lemma_session_from_at(s2, k, j);
        },
        None => {
            assert forall|m: int| 0 <= m < s2.len() implies s2[m].0 != k by {
                if m < s.len() {
                    assert(s[m].0 != k);
                }
            }
            if session_from(s2, k, 0) is Some {
                let x = session_from(s2, k, 0)->0;
                assert(s2[x].0 != k);
            }
        },
    }
}

/// Opening a session at time `now` logs no one else out: every other
/// session that is live at `now` keeps its stamp, and so is still valid
/// at `now`; the new session is valid at `now` too.
pub proof fn lemma_open_keeps_live_sessions(
    s: SessionView,
    id: Seq<char>,
    now: u64,
    timeout: u64,
    k: Seq<char>,
)
    requires
        k != id,
        session_valid(s, k, now, timeout),
    ensures
        stamp_of(session_insert(keep_live(s, now, timeout), id, now), k) == stamp_of(s, k),
        session_valid(session_insert(keep_live(s, now, timeout), id, now), k, now, timeout),
        timeout > 0 ==> session_valid(
            session_insert(keep_live(s, now, timeout), id, now),
            id,
            now,
            timeout,
        ),
{
    lemma_clean_keeps_live_session(s, k, now, timeout);
    lemma_insert_stamp_other(keep_live(s, now, timeout), id, now, k);
    lemma_insert_stamp(keep_live(s, now, timeout), id, now);
}

} // verus!
