//! A small string-to-string map that keeps its entries in insertion order.
use vstd::prelude::*;
use crate::text::{chars_of, str_eq};

verus! {

/// The position of the first entry whose key is `k`, searching from `i`.
pub open spec fn key_index_from(s: Seq<(Seq<char>, Seq<char>)>, k: Seq<char>, i: int) -> Option<
    int,
>
    decreases s.len() - i,
{
    if i < 0 || i >= s.len() {
        None
    } else if s[i].0 == k {
        Some(i)
    } else {
        key_index_from(s, k, i + 1)
    }
}

/// The position of the entry whose key is `k`.
pub open spec fn key_index(s: Seq<(Seq<char>, Seq<char>)>, k: Seq<char>) -> Option<int> {
    key_index_from(s, k, 0)
}

/// The value stored under `k`.
pub open spec fn lookup(s: Seq<(Seq<char>, Seq<char>)>, k: Seq<char>) -> Option<Seq<char>> {
    match key_index(s, k) {
        Some(i) => Some(s[i].1),
        None => None,
    }
}

/// `s` with `k` mapped to `v`: the entry for `k` is replaced in place, or a new
/// entry is appended.
pub open spec fn assoc_insert(s: Seq<(Seq<char>, Seq<char>)>, k: Seq<char>, v: Seq<char>) -> Seq<
    (Seq<char>, Seq<char>),
> {
    match key_index(s, k) {
        Some(i) => s.update(i, (k, v)),
        None => s.push((k, v)),
    }
}

/// No key occurs twice.
pub open spec fn keys_distinct(s: Seq<(Seq<char>, Seq<char>)>) -> bool {
    forall|i: int, j: int| 0 <= i < j < s.len() ==> s[i].0 != s[j].0
}

/// The first-occurrence search, characterized.
pub proof fn lemma_key_index_from(s: Seq<(Seq<char>, Seq<char>)>, k: Seq<char>, i: int)
    requires
        0 <= i,
    ensures
        key_index_from(s, k, i) matches Some(n) ==> i <= n < s.len() && s[n].0 == k && forall|
            j: int,
        |
            i <= j < n ==> s[j].0 != k,
        key_index_from(s, k, i) is None ==> forall|j: int| i <= j < s.len() ==> s[j].0 != k,
    decreases s.len() - i,
{
    if i < s.len() && s[i].0 != k {
        lemma_key_index_from(s, k, i + 1);
    }
}

/// Inserting keeps keys distinct, and a lookup of the inserted key gives the value.
pub proof fn lemma_insert_lookup(s: Seq<(Seq<char>, Seq<char>)>, k: Seq<char>, v: Seq<char>)
    requires
        keys_distinct(s),
    ensures
        keys_distinct(assoc_insert(s, k, v)),
        lookup(assoc_insert(s, k, v), k) == Some(v),
        forall|k2: Seq<char>| k2 != k ==> lookup(assoc_insert(s, k, v), k2) == lookup(s, k2),
{
    lemma_key_index_from(s, k, 0);
    let t = assoc_insert(s, k, v);
    lemma_key_index_from(t, k, 0);
    match key_index(s, k) {
        Some(n) => {
            assert(t[n].0 == k);
            if key_index(t, k) != Some(n) {
                let m = key_index(t, k)->Some_0;
                assert(m < n ==> t[m] == s[m]);
            }
        },
        None => {
            assert(t[s.len() as int].0 == k);
            if key_index(t, k) != Some(s.len() as int) {
                let m = key_index(t, k)->Some_0;
                assert(m < s.len() ==> t[m] == s[m]);
            }
        },
    }
    assert forall|k2: Seq<char>| k2 != k implies lookup(t, k2) == lookup(s, k2) by {
        lemma_key_index_from(s, k2, 0);
        lemma_key_index_from(t, k2, 0);
        assert forall|j: int| 0 <= j < t.len() && t[j].0 == k2 implies j < s.len() && t[j]
            == s[j] by {
            match key_index(s, k) {
                Some(n) => {
                    if j == n {
                        assert(t[j].0 == k);
                    }
                },
                None => {
                    if j == s.len() {
                        assert(t[j].0 == k);
                    }
                },
            }
        }
        match key_index(s, k) {
            Some(n) => {
                assert(s[n].0 == k);
            },
            None => {
            },
        }
        if let Some(a) = key_index(s, k2) {
            match key_index(s, k) {
                Some(n) => {
                    assert(a != n);
                    assert(t[a] == s[a]);
                },
                None => {
                    assert(t[a] == s[a]);
                },
            }
        }
    }
}

/// A map from strings to strings whose entries keep their insertion order;
/// no key occurs twice.
#[derive(Debug)]
pub struct StrMap {
    entries: Vec<(String, String)>,
}

impl View for StrMap {
    type V = Seq<(Seq<char>, Seq<char>)>;

    closed spec fn view(&self) -> Seq<(Seq<char>, Seq<char>)> {
        Seq::new(self.entries@.len(), |i: int| (self.entries@[i].0@, self.entries@[i].1@))
    }
}

impl StrMap {
    /// No key occurs twice.
    #[verifier::type_invariant]
    spec fn keys_unique(self) -> bool {
        keys_distinct(self@)
    }

    /// An empty map.
    pub fn new() -> (m: StrMap)
        ensures
            m@ == Seq::<(Seq<char>, Seq<char>)>::empty(),
    {
        let m = StrMap { entries: Vec::new() };
        assert(m@ =~= Seq::<(Seq<char>, Seq<char>)>::empty());
        m
    }

    /// The number of entries.
    pub fn len(&self) -> (n: usize)
        ensures
            n == self@.len(),
    {
        self.entries.len()
    }

    fn find_key(&self, k: &str) -> (r: Option<usize>)
        ensures
            match r {
                Some(i) => key_index(self@, k@) == Some(i as int) && i < self@.len(),
                None => key_index(self@, k@) is None,
            },
    {
        proof {
            lemma_key_index_from(self@, k@, 0);
        }
        let mut i: usize = 0;
        while i < self.entries.len()
            invariant
                i <= self@.len(),
                key_index(self@, k@) == key_index_from(self@, k@, i as int),
            decreases self@.len() - i,
        {
            if str_eq(self.entries[i].0.as_str(), k) {
                return Some(i);
            }
            i = i + 1;
        }
        None
    }

    /// The value stored under `k`, if any.
    pub fn get(&self, k: &str) -> (r: Option<String>)
        ensures
            match r {
                Some(v) => lookup(self@, k@) == Some(v@),
                None => lookup(self@, k@) is None,
            },
    {
        match self.find_key(k) {
            Some(i) => Some(self.entries[i].1.clone()),
            None => None,
        }
    }

    /// Whether some entry has key `k`.
    pub fn contains_key(&self, k: &str) -> (r: bool)
        ensures
            r == (lookup(self@, k@) is Some),
    {
        self.find_key(k).is_some()
    }

    /// Maps `k` to `v`, replacing the value of an existing entry in place.
    pub fn insert(&mut self, k: String, v: String)
        ensures
            final(self)@ == assoc_insert(old(self)@, k@, v@),
    {
        proof {
            use_type_invariant(&*self);
        }
        let ghost s = self@;
        proof {
            lemma_insert_lookup(s, k@, v@);
        }
        let found = self.find_key(k.as_str());
        let mut entries: Vec<(String, String)> = Vec::new();
        std::mem::swap(&mut entries, &mut self.entries);
        match found {
            Some(i) => {
                entries.set(i, (k, v));
            },
            None => {
                entries.push((k, v));
            },
        }
        assert(Seq::new(entries@.len(), |j: int| (entries@[j].0@, entries@[j].1@)) =~= assoc_insert(
            s,
            k@,
            v@,
        ));
        self.entries = entries;
    }

    /// The key of the `i`-th entry.
    pub fn key_at(&self, i: usize) -> (r: &String)
        requires
            i < self@.len(),
        ensures
            r@ == self@[i as int].0,
    {
        &self.entries[i].0
    }

    /// The value of the `i`-th entry.
    pub fn value_at(&self, i: usize) -> (r: &String)
        requires
            i < self@.len(),
        ensures
            r@ == self@[i as int].1,
    {
        &self.entries[i].1
    }
}

} // verus!
