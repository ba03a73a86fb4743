//! String-keyed tables (HTTP headers, error pages, redirections).
//!
//! A table keeps its entries in insertion order; a key names the first
//! entry that carries it, and inserting an existing key replaces that
//! entry's value, so no key is held twice.
use vstd::prelude::*;

verus! {

/// The abstract content of a table: its entries in order.
pub type TableView = Seq<(Seq<char>, Seq<char>)>;

/// The position of the first entry at or after `i` whose key is `k`.
pub open spec fn key_from(t: TableView, k: Seq<char>, i: int) -> Option<int>
    decreases t.len() - i,
{
    if i < 0 || i >= t.len() {
        None
    } else if t[i].0 == k {
        Some(i)
    } else {
        key_from(t, k, i + 1)
    }
}

/// The position of the entry whose key is `k`.
pub open spec fn key_index(t: TableView, k: Seq<char>) -> Option<int> {
    key_from(t, k, 0)
}

/// The value stored under `k`.
pub open spec fn lookup(t: TableView, k: Seq<char>) -> Option<Seq<char>> {
    match key_index(t, k) {
        Some(i) => Some(t[i].1),
        None => None,
    }
}

/// `t` after `HashMap::insert(k, v)`.
pub open spec fn table_insert(t: TableView, k: Seq<char>, v: Seq<char>) -> TableView {
    match key_index(t, k) {
        Some(i) => t.update(i, (k, v)),
        None => t.push((k, v)),
    }
}

/// No key occurs twice.
pub open spec fn keys_unique(t: TableView) -> bool {
    forall|i: int, j: int| 0 <= i < j < t.len() ==> t[i].0 != t[j].0
}

/// A table from strings to strings, in the role of a
/// `HashMap<String, String>`.
pub struct StrMap {
    entries: Vec<(String, String)>,
}

/// HTTP headers.
pub type Headers = StrMap;

impl StrMap {
    /// No key occurs twice, as in a map.
    #[verifier::type_invariant]
    spec fn well_formed(self) -> bool {
        keys_unique(self@)
    }
}

impl View for StrMap {
    type V = TableView;

    closed spec fn view(&self) -> TableView {
        self.entries@.map_values(|e: (String, String)| (e.0@, e.1@))
    }
}

pub proof fn lemma_key_from<'a>(t: TableView, k: Seq<char>, i: int)
    requires
        0 <= i,
    ensures
        key_from(t, k, i) matches Some(j) ==> i <= j < t.len() && t[j].0 == k && forall|m: int|
            i <= m < j ==> t[m].0 != k,
        key_from(t, k, i) is None ==> forall|m: int| i <= m < t.len() ==> t[m].0 != k,
    decreases t.len() - i,
{
    if i < t.len() && t[i].0 != k {
        lemma_key_from(t, k, i + 1);
    }
}

/// Inserting a key makes it map to the new value.
pub proof fn lemma_insert_lookup_same(t: TableView, k: Seq<char>, v: Seq<char>)
    ensures
        lookup(table_insert(t, k, v), k) == Some(v),
{
    lemma_key_from(t, k, 0);
    let t2 = table_insert(t, k, v);
    lemma_key_from(t2, k, 0);
    match key_index(t, k) {
        Some(i) => {
            assert(t2 == t.update(i, (k, v)));
            assert(t2[i].0 == k);
            match key_index(t2, k) {
                Some(j) => {
                    if j < i {
                        assert(t2[j] == t[j]);
                    }
                },
                None => {},
            }
        },
        None => {
            assert(t2 == t.push((k, v)));
            assert(t2[t.len() as int].0 == k);
            match key_index(t2, k) {
                Some(j) => {
                    if j < t.len() {
                        assert(t2[j] == t[j]);
                    }
                },
                None => {},
            }
        },
    }
}

/// Inserting a key leaves every other key's value unchanged.
pub proof fn lemma_insert_lookup_other(t: TableView, k: Seq<char>, v: Seq<char>, k2: Seq<char>)
    requires
        k2 != k,
    ensures
        lookup(table_insert(t, k, v), k2) == lookup(t, k2),
{
    lemma_key_from(t, k, 0);
    lemma_key_from(t, k2, 0);
    let t2 = table_insert(t, k, v);
    lemma_key_from(t2, k2, 0);
    assert(t2.len() >= t.len());
    assert(forall|m: int| 0 <= m < t.len() ==> t2[m].0 == k2 ==> t2[m] == t[m]);
    assert(forall|m: int| t.len() <= m < t2.len() ==> t2[m].0 == k);
    match key_index(t, k2) {
        Some(i) => {
            assert(t2[i] == t[i]);
            match key_index(t2, k2) {
                Some(j) => {
                    assert(t2[j] == t[j]);
                },
                None => {},
            }
        },
        None => {
            match key_index(t2, k2) {
                Some(j) => {
                    assert(t2[j] == t[j]);
                },
                None => {},
            }
        },
    }
}

/// Inserting keeps keys unique.
pub proof fn lemma_insert_unique(t: TableView, k: Seq<char>, v: Seq<char>)
    requires
        keys_unique(t),
    ensures
        keys_unique(table_insert(t, k, v)),
{
    lemma_key_from(t, k, 0);
    let t2 = table_insert(t, k, v);
    assert forall|i: int, j: int| 0 <= i < j < t2.len() implies t2[i].0 != t2[j].0 by {
        match key_index(t, k) {
            Some(m) => {
                if i == m {
                    assert(t[j].0 != t[m].0);
                } else if j == m {
                    assert(t[i].0 != t[m].0);
                }
            },
            None => {},
        }
    }
}

impl StrMap {
    /// An empty table.
    pub fn new() -> (m: Self)
        ensures
            m@ == Seq::<(Seq<char>, Seq<char>)>::empty(),
            keys_unique(m@),
    {
        let m = StrMap { entries: Vec::new() };
        assert(m@ =~= Seq::<(Seq<char>, Seq<char>)>::empty());
        m
    }

    /// Number of entries.
    pub fn len(&self) -> (n: usize)
        ensures
            n == self@.len(),
    {
        self.entries.len()
    }

    /// The key of the `i`-th entry.
    pub fn key_at(&self, i: usize) -> (k: &String)
        requires
            i < self@.len(),
        ensures
            k@ == self@[i as int].0,
    {
        &self.entries[i].0
    }

    /// The value of the `i`-th entry.
    pub fn value_at(&self, i: usize) -> (v: &String)
        requires
            i < self@.len(),
        ensures
            v@ == self@[i as int].1,
    {
        &self.entries[i].1
    }

    /// The position of the entry whose key is `k`.
    pub fn index_of(&self, k: &str) -> (r: Option<usize>)
        ensures
            r matches Some(i) ==> key_index(self@, k@) == Some(i as int) && i < self@.len(),
            r is None ==> key_index(self@, k@) is None,
    {
        let key = String::from_str(k);
        let mut i: usize = 0;
        while i < self.entries.len()
            invariant
                i <= self@.len(),
                key@ == k@,
                key_index(self@, k@) == key_from(self@, k@, i as int),
            decreases self@.len() - i,
        {
            if self.entries[i].0 == key {
                assert(self@[i as int].0 == self.entries@[i as int].0@);
                return Some(i);
            }
            assert(self@[i as int].0 == self.entries@[i as int].0@);
            i = i + 1;
        }
        None
    }

    /// `HashMap::get`.
    pub fn get(&self, k: &str) -> (v: Option<&String>)
        ensures
            match v {
                Some(s) => lookup(self@, k@) == Some(s@),
                None => lookup(self@, k@) is None,
            },
    {
        proof {
            lemma_key_from(self@, k@, 0);
        }
        match self.index_of(k) {
            Some(i) => {
                assert(self@[i as int].1 == self.entries@[i as int].1@);
                Some(&self.entries[i].1)
            },
            None => None,
        }
    }

    /// `HashMap::insert`, dropping the old value.
    pub fn insert(&mut self, k: String, v: String)
        ensures
            final(self)@ == table_insert(old(self)@, k@, v@),
            keys_unique(final(self)@),
    {
        proof {
            use_type_invariant(&*self);
            lemma_key_from(old(self)@, k@, 0);
            lemma_insert_unique(old(self)@, k@, v@);
        }
        let ghost kv = k@;
        let ghost vv = v@;
        let pos = self.index_of(k.as_str());
        let mut entries: Vec<(String, String)> = Vec::new();
        std::mem::swap(&mut entries, &mut self.entries);
        let ghost before = entries@.map_values(|e: (String, String)| (e.0@, e.1@));
        assert(before == old(self)@);
        match pos {
            Some(i) => {
                entries.set(i, (k, v));
                assert(entries@.map_values(|e: (String, String)| (e.0@, e.1@)) =~= before.update(
                    i as int,
                    (kv, vv),
                ));
            },
            None => {
                entries.push((k, v));
                assert(entries@.map_values(|e: (String, String)| (e.0@, e.1@)) =~= before.push(
                    (kv, vv),
                ));
            },
        }
        self.entries = entries;
    }
}

} // verus!
