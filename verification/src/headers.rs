//! Header fields: names with their values, each name once, in the order in
//! which the names first came.

use vstd::prelude::*;
use crate::text::str_eq;

verus! {

/// What a set of headers holds: its names and values, in order.
pub type Entries = Seq<(Seq<char>, Seq<char>)>;

/// Some entry of `s` has the name `k`.
pub open spec fn has_key(s: Entries, k: Seq<char>) -> bool {
    exists|i: int| 0 <= i < s.len() && (#[trigger] s[i]).0 == k
}

/// No name occurs twice in `s`.
pub open spec fn distinct_keys(s: Entries) -> bool {
    forall|i: int, j: int| 0 <= i < j < s.len() ==> (#[trigger] s[i]).0 != (#[trigger] s[j]).0
}

/// The place of an entry of `s` with the name `k`.
pub open spec fn key_index(s: Entries, k: Seq<char>) -> int {
    choose|i: int| 0 <= i < s.len() && (#[trigger] s[i]).0 == k
}

/// The value that `s` holds under the name `k`.
pub open spec fn lookup(s: Entries, k: Seq<char>) -> Option<Seq<char>> {
    if has_key(s, k) {
        Some(s[key_index(s, k)].1)
    } else {
        None
    }
}

/// `s` with the value `v` under the name `k`: in the place of the value that
/// `s` held under it, or at the end where it held none.
pub open spec fn insert(s: Entries, k: Seq<char>, v: Seq<char>) -> Entries {
    if has_key(s, k) {
        s.update(key_index(s, k), (k, v))
    } else {
        s.push((k, v))
    }
}

/// In a sequence without repeated names, the entry with a given name is
/// found at one place only.
pub proof fn lemma_key_index(s: Entries, k: Seq<char>, i: int)
    requires
        distinct_keys(s),
        0 <= i < s.len(),
        s[i].0 == k,
    ensures
        has_key(s, k),
        key_index(s, k) == i,
        lookup(s, k) == Some(s[i].1),
{
    let j = key_index(s, k);
    if i < j {
        assert(s[i].0 != s[j].0);
    } else if j < i {
        assert(s[j].0 != s[i].0);
    }
}

/// Inserting keeps names from occurring twice, and what is inserted is then
/// found under its name, everything else where it was.
pub proof fn lemma_insert(s: Entries, k: Seq<char>, v: Seq<char>)
    requires
        distinct_keys(s),
    ensures
        distinct_keys(insert(s, k, v)),
        lookup(insert(s, k, v), k) == Some(v),
        forall|other: Seq<char>| other != k ==> lookup(insert(s, k, v), other) == lookup(s, other),
{
    let t = insert(s, k, v);
    if has_key(s, k) {
        let i = key_index(s, k);
        assert forall|a: int, b: int| 0 <= a < b < t.len() implies (#[trigger] t[a]).0 != (
        #[trigger] t[b]).0 by {
            assert(t[a].0 == s[a].0 && t[b].0 == s[b].0);
        }
        lemma_key_index(t, k, i);
        assert forall|other: Seq<char>| other != k implies lookup(t, other) == lookup(
            s,
            other,
        ) by {
            if has_key(s, other) {
                let j = key_index(s, other);
                lemma_key_index(t, other, j);
            } else if has_key(t, other) {
                let j = key_index(t, other);
                assert(0 <= j < t.len() && t[j].0 == other);
                assert(s[j].0 == other);
            }
        }
    } else {
        let n = s.len() as int;
        assert forall|a: int, b: int| 0 <= a < b < t.len() implies (#[trigger] t[a]).0 != (
        #[trigger] t[b]).0 by {
            if b == n {
                assert(s[a].0 != k);
            } else {
                assert(t[a].0 == s[a].0 && t[b].0 == s[b].0);
            }
        }
        lemma_key_index(t, k, n);
        assert forall|other: Seq<char>| other != k implies lookup(t, other) == lookup(
            s,
            other,
        ) by {
            if has_key(s, other) {
                let j = key_index(s, other);
                lemma_key_index(t, other, j);
            } else if has_key(t, other) {
                let j = key_index(t, other);
                assert(0 <= j < t.len() && t[j].0 == other);
                assert(s[j].0 == other);
            }
        }
    }
}

/// A name that stands in a set of headers stays in it when a value is put
/// under any name.
pub proof fn lemma_insert_keeps_names(s: Entries, k: Seq<char>, v: Seq<char>, name: Seq<char>)
    requires
        has_key(s, name) || name == k,
    ensures
        has_key(insert(s, k, v), name),
{
    let t = insert(s, k, v);
    if has_key(s, k) {
        let i = key_index(s, k);
        if name == k {
            assert(t[i].0 == name);
        } else {
            let j = key_index(s, name);
            assert(0 <= j < s.len() && s[j].0 == name);
            assert(t[j].0 == name);
        }
    } else {
        if name == k {
            assert(t[s.len() as int].0 == name);
        } else {
            let j = key_index(s, name);
            assert(t[j].0 == name);
        }
    }
}

/// Header fields. No name occurs twice; names are told apart character by
/// character. Two sets of headers are equal where they hold the same names
/// with the same values in the same order.
#[derive(Debug, PartialEq)]
pub struct Headers {
    entries: Vec<(String, String)>,
}

impl View for Headers {
    type V = Entries;

    closed spec fn view(&self) -> Entries {
        entries_view(self.entries@)
    }
}

/// The characters of stored names and values.
spec fn entries_view(stored: Seq<(String, String)>) -> Entries {
    Seq::new(stored.len(), |i: int| (stored[i].0@, stored[i].1@))
}

impl Headers {
    #[verifier::type_invariant]
    spec fn well_formed(&self) -> bool {
        distinct_keys(self@)
    }

    /// No headers at all.
    pub fn new() -> (r: Headers)
        ensures
            r@ == Entries::empty(),
    {
        let r = Headers { entries: Vec::new() };
        r
    }

    /// The number of names.
    pub fn len(&self) -> (n: usize)
        ensures
            n == self@.len(),
            distinct_keys(self@),
    {
        proof {
            use_type_invariant(self);
        }
        self.entries.len()
    }

    /// The name at place `i`.
    pub fn key_at(&self, i: usize) -> (k: &String)
        requires
            i < self@.len(),
        ensures
            k@ == self@[i as int].0,
    {
        &self.entries[i].0
    }

    /// The value at place `i`.
    pub fn value_at(&self, i: usize) -> (v: &String)
        requires
            i < self@.len(),
        ensures
            v@ == self@[i as int].1,
    {
        &self.entries[i].1
    }

    /// The place of the entry with the name `key`.
    fn position(&self, key: &str) -> (r: Option<usize>)
        ensures
            distinct_keys(self@),
            match r {
                Some(i) => i < self@.len() && self@[i as int].0 == key@ && has_key(self@, key@)
                    && key_index(self@, key@) == i,
                None => !has_key(self@, key@),
            },
    {
        proof {
            use_type_invariant(self);
        }
        let mut i: usize = 0;
        while i < self.entries.len()
            invariant
                i <= self.entries.len(),
                self@.len() == self.entries.len(),
                distinct_keys(self@),
                forall|j: int| 0 <= j < i ==> (#[trigger] self@[j]).0 != key@,
            decreases self.entries.len() - i,
        {
            if str_eq(self.entries[i].0.as_str(), key) {
                proof {
                    lemma_key_index(self@, key@, i as int);
                }
                return Some(i);
            }
            i += 1;
        }
        None
    }

    /// Tells whether there is a value under the name `key`.
    pub fn contains_key(&self, key: &str) -> (r: bool)
        ensures
            r == has_key(self@, key@),
    {
        self.position(key).is_some()
    }

    /// The value under the name `key`.
    pub fn get(&self, key: &str) -> (r: Option<&String>)
        ensures
            match r {
                Some(v) => lookup(self@, key@) == Some(v@),
                None => lookup(self@, key@) is None,
            },
    {
        match self.position(key) {
            Some(i) => Some(&self.entries[i].1),
            None => None,
        }
    }

    /// Puts `value` under the name `key`, in the place of the value that
    /// stood under it, or at the end.
    pub fn insert(&mut self, key: String, value: String)
        ensures
            final(self)@ == insert(old(self)@, key@, value@),
            distinct_keys(final(self)@),
    {
        proof {
            use_type_invariant(&*self);
            lemma_insert(self@, key@, value@);
        }
        let ghost before = self@;
        let place = self.position(key.as_str());
        let mut entries: Vec<(String, String)> = Vec::new();
        core::mem::swap(&mut self.entries, &mut entries);
        match place {
            Some(i) => {
                entries.set(i, (key, value));
            },
            None => {
                entries.push((key, value));
            },
        }
        assert(entries_view(entries@) =~= insert(before, key@, value@));
        core::mem::swap(&mut self.entries, &mut entries);
    }
}

impl Clone for Headers {
    fn clone(&self) -> (r: Headers)
        ensures
            r@ == self@,
    {
        proof {
            use_type_invariant(self);
        }
        let mut entries: Vec<(String, String)> = Vec::new();
        let mut i: usize = 0;
        while i < self.entries.len()
            invariant
                i <= self.entries.len(),
                entries@.len() == i,
                forall|j: int|
                    0 <= j < i ==> (#[trigger] entries@[j]).0@ == self.entries@[j].0@
                        && entries@[j].1@ == self.entries@[j].1@,
            decreases self.entries.len() - i,
        {
            entries.push((self.entries[i].0.clone(), self.entries[i].1.clone()));
            i += 1;
        }
        assert(entries_view(entries@) =~= self@);
        Headers { entries }
    }
}

} // verus!
