//! Associative containers used by the application object and the router.
//!
//! All of them are association lists under the hood, so their behaviour
//! can be stated exactly: [`Dict`] is a map with last-insert-wins keys,
//! [`MultiDict`] keeps several values per key, and [`Headers`] is an
//! ordered header list with case-insensitive keys.

use vstd::prelude::*;

verus! {

use crate::utils::str_eq;

/// Index of the first entry of `es` whose key reads `k`, or `-1`.
pub open spec fn key_idx<V>(es: Seq<(String, V)>, k: Seq<char>) -> int
    decreases es.len(),
{
    if es.len() == 0 {
        -1
    } else if es[0].0@ == k {
        0
    } else {
        let r = key_idx(es.drop_first(), k);
        if r < 0 {
            -1
        } else {
            r + 1
        }
    }
}

/// Some entry of `es` has key `k`.
pub open spec fn has_key<V>(es: Seq<(String, V)>, k: Seq<char>) -> bool {
    exists|i: int| 0 <= i < es.len() && es[i].0@ == k
}

/// `key_idx` finds the first entry with the given key, and finds one
/// exactly when one exists.
pub proof fn lemma_key_idx<V>(es: Seq<(String, V)>, k: Seq<char>)
    ensures
        key_idx(es, k) == -1 ==> !has_key(es, k),
        key_idx(es, k) != -1 ==> 0 <= key_idx(es, k) < es.len() && es[key_idx(es, k)].0@ == k
            && (forall|i: int| 0 <= i < key_idx(es, k) ==> es[i].0@ != k),
    decreases es.len(),
{
    if es.len() > 0 && es[0].0@ != k {
        let d = es.drop_first();
        lemma_key_idx(d, k);
        assert(forall|i: int| 0 <= i < d.len() ==> #[trigger] d[i] == es[i + 1]);
        let r = key_idx(d, k);
        if r == -1 {
            if has_key(es, k) {
                let w = choose|w: int| 0 <= w < es.len() && es[w].0@ == k;
                assert(d[w - 1].0@ == k);
            }
        } else {
            assert(es[r + 1] == d[r]);
            assert forall|i: int| 0 <= i < r + 1 implies es[i].0@ != k by {
                if i >= 1 {
                    assert(es[i] == d[i - 1]);
                }
            }
        }
    }
}

/// A string-keyed map with at most one entry per key; inserting an
/// existing key replaces its value.
pub struct Dict<V> {
    entries: Vec<(String, V)>,
}

impl<V> Dict<V> {
    /// The underlying entries.
    pub closed spec fn entries(&self) -> Seq<(String, V)> {
        self.entries@
    }

    /// Each key occurs at most once.
    pub open spec fn wf(&self) -> bool {
        forall|i: int, j: int|
            0 <= i < j < self.entries().len() ==> self.entries()[i].0@ != self.entries()[j].0@
    }

    /// The map holds key `k`.
    pub open spec fn contains_key(&self, k: Seq<char>) -> bool {
        has_key(self.entries(), k)
    }

    /// The value stored under `k` (meaningful when `contains_key(k)`).
    pub open spec fn spec_get(&self, k: Seq<char>) -> V {
        self.entries()[key_idx(self.entries(), k)].1
    }

    /// Number of entries.
    pub open spec fn spec_len(&self) -> nat {
        self.entries().len()
    }

    /// Create an empty map.
    pub fn new() -> (r: Dict<V>)
        ensures
            r.wf(),
            r.entries() == Seq::<(String, V)>::empty(),
            forall|k: Seq<char>| !r.contains_key(k),
    {
        let d = Dict { entries: Vec::new() };
        proof {
            assert(d.entries@ =~= Seq::<(String, V)>::empty());
        }
        d
    }

    /// Number of entries.
    pub fn len(&self) -> (r: usize)
        ensures
            r == self.spec_len(),
    {
        self.entries.len()
    }

    /// Look a key up.
    pub fn get(&self, key: &str) -> (r: Option<&V>)
        ensures
            match r {
                Some(v) => self.contains_key(key@) && *v == self.spec_get(key@),
                None => !self.contains_key(key@),
            },
    {
        proof {
            lemma_key_idx(self.entries@, key@);
        }
        let mut i: usize = 0;
        while i < self.entries.len()
            invariant
                i <= self.entries@.len(),
                forall|j: int| 0 <= j < i ==> self.entries@[j].0@ != key@,
            decreases self.entries@.len() - i,
        {
            let p = &self.entries[i];
            if str_eq(p.0.as_str(), key) {
                proof {
                    lemma_key_idx(self.entries@, key@);
                    assert(key_idx(self.entries@, key@) == i);
                }
                return Some(&p.1);
            }
            i += 1;
        }
        None
    }

    /// Insert a value, replacing any previous value under the same key.
    pub fn insert(&mut self, key: String, value: V)
        requires
            old(self).wf(),
        ensures
            final(self).wf(),
            final(self).contains_key(key@),
            final(self).spec_get(key@) == value,
            forall|k: Seq<char>|
                k != key@ ==> final(self).contains_key(k) == old(self).contains_key(k),
            forall|k: Seq<char>|
                k != key@ && old(self).contains_key(k) ==> final(self).spec_get(k) == old(self).spec_get(k),
            final(self).spec_len() == old(self).spec_len() + (if old(self).contains_key(key@) {
                0int
            } else {
                1int
            }),
    {
        let ghost es0 = self.entries@;
        let found = self.find(key.as_str());
        let ghost fi: int = match found {
            Some(i) => i as int,
            None => es0.len() as int,
        };
        match found {
            Some(i) => {
                self.entries.remove(i);
            },
            None => {},
        }
        let ghost es1 = self.entries@;
        self.entries.push((key, value));
        proof {
            let esf = self.entries@;
            // es1 holds exactly the old entries with any `key` entry removed.
            if fi < es0.len() {
                assert(es0[fi].0@ == key@);
                assert(forall|j: int| 0 <= j < fi ==> es1[j] == es0[j]);
                assert(forall|j: int| fi <= j < es1.len() ==> es1[j] == es0[j + 1]);
            } else {
                assert(es1 == es0);
            }
            lemma_key_idx(es0, key@);
            assert forall|j: int| 0 <= j < es1.len() implies es1[j].0@ != key@ by {
                if fi < es0.len() {
                    if j < fi {
                        assert(es1[j] == es0[j]);
                    } else {
                        assert(es1[j] == es0[j + 1]);
                        assert(es0[j + 1].0@ != es0[fi].0@);
                    }
                } else {
                    // no entry carried the key at all
                    assert(es1[j] == es0[j]);
                    if es0[j].0@ == key@ {
                        assert(has_key(es0, key@));
                    }
                }
            }
            assert(esf[es1.len() as int] == (key, value));
            assert(forall|j: int| 0 <= j < es1.len() ==> esf[j] == es1[j]);
            // well-formedness of the result
            assert forall|i: int, j: int|
                0 <= i < j < esf.len() implies esf[i].0@ != esf[j].0@ by {
                if j < es1.len() {
                    let i0: int = if i < fi { i } else { i + 1 };
                    let j0: int = if j < fi { j } else { j + 1 };
                    assert(es1[i] == es0[i0] && es1[j] == es0[j0]);
                } else {
                    assert(es1[i].0@ != key@);
                }
            }
            // lookup of `key` lands on the new last entry
            lemma_key_idx(esf, key@);
            let rk = key_idx(esf, key@);
            assert(esf[es1.len() as int].0@ == key@);
            assert(rk != -1);
            assert(rk == es1.len()) by {
                if rk < es1.len() {
                    assert(esf[rk] == es1[rk]);
                }
            }
            // other keys are untouched
            assert forall|k: Seq<char>| k != key@ implies final(self).contains_key(k) == old(self).contains_key(k) by {
                if has_key(esf, k) {
                    let w = choose|w: int| 0 <= w < esf.len() && esf[w].0@ == k;
                    assert(w < es1.len());
                    assert(es0[if w < fi { w } else { w + 1 }].0@ == k);
                }
                if has_key(es0, k) {
                    let w = choose|w: int| 0 <= w < es0.len() && es0[w].0@ == k;
                    assert(w != fi);
                    let w1: int = if w < fi { w } else { w - 1 };
                    assert(es1[w1].0@ == k);
                }
            }
            assert forall|k: Seq<char>| k != key@ && old(self).contains_key(k) implies final(self).spec_get(k) == old(self).spec_get(k) by {
                lemma_key_idx(es0, k);
                lemma_key_idx(esf, k);
                let r0 = key_idx(es0, k);
                let rf = key_idx(esf, k);
                assert(r0 != -1);
                assert(es0[r0].0@ == k);
                assert(rf != -1) by {
                    if rf == -1 {
                        let w1: int = if r0 < fi { r0 } else { r0 - 1 };
                        assert(esf[w1].0@ == k);
                    }
                }
                assert(rf < es1.len());
                assert(esf[rf] == es0[if rf < fi { rf } else { rf + 1 }]);
                // both indices name an entry with key `k`; under wf they agree
                let o: int = if rf < fi { rf } else { rf + 1 };
                assert(es0[o].0@ == k);
                assert(o == r0);
            }
        }
    }

    /// Position of `key` among the entries, if present.
    fn find(&self, key: &str) -> (r: Option<usize>)
        ensures
            match r {
                Some(i) => i < self.entries().len() && self.entries()[i as int].0@ == key@
                    && key_idx(self.entries(), key@) == i,
                None => !self.contains_key(key@),
            },
    {
        proof {
            lemma_key_idx(self.entries@, key@);
        }
        let mut i: usize = 0;
        while i < self.entries.len()
            invariant
                i <= self.entries@.len(),
                forall|j: int| 0 <= j < i ==> self.entries@[j].0@ != key@,
            decreases self.entries@.len() - i,
        {
            let p = &self.entries[i];
            if str_eq(p.0.as_str(), key) {
                proof {
                    lemma_key_idx(self.entries@, key@);
                    assert(key_idx(self.entries@, key@) == i);
                }
                return Some(i);
            }
            i += 1;
        }
        None
    }
}

/// A map from keys to lists of values, as submitted form data has them.
pub struct MultiDict<T> {
    entries: Vec<(String, Vec<T>)>,
}

impl<T> MultiDict<T> {
    /// The underlying entries.
    pub closed spec fn entries(&self) -> Seq<(String, Vec<T>)> {
        self.entries@
    }

    /// Keys occur at most once and no value list is empty.
    pub open spec fn wf(&self) -> bool {
        (forall|i: int, j: int|
            0 <= i < j < self.entries().len() ==> self.entries()[i].0@ != self.entries()[j].0@)
            && (forall|i: int| 0 <= i < self.entries().len() ==> self.entries()[i].1@.len() > 0)
    }

    /// The map holds key `k`.
    pub open spec fn contains_key(&self, k: Seq<char>) -> bool {
        has_key(self.entries(), k)
    }

    /// The value list stored under `k` (meaningful when `contains_key(k)`).
    pub open spec fn spec_list(&self, k: Seq<char>) -> Seq<T> {
        self.entries()[key_idx(self.entries(), k)].1@
    }

    /// Create an empty multi dict.
    pub fn new() -> (r: MultiDict<T>)
        ensures
            r.wf(),
            r.entries() == Seq::<(String, Vec<T>)>::empty(),
            forall|k: Seq<char>| !r.contains_key(k),
    {
        let d = MultiDict { entries: Vec::new() };
        proof {
            assert(d.entries@ =~= Seq::<(String, Vec<T>)>::empty());
        }
        d
    }

    /// Number of distinct keys.
    pub fn len(&self) -> (r: usize)
        ensures
            r == self.entries().len(),
    {
        self.entries.len()
    }

    /// Position of `key` among the entries, if present.
    fn find(&self, key: &str) -> (r: Option<usize>)
        ensures
            match r {
                Some(i) => i < self.entries().len() && self.entries()[i as int].0@ == key@
                    && key_idx(self.entries(), key@) == i,
                None => !self.contains_key(key@),
            },
    {
        proof {
            lemma_key_idx(self.entries@, key@);
        }
        let mut i: usize = 0;
        while i < self.entries.len()
            invariant
                i <= self.entries@.len(),
                forall|j: int| 0 <= j < i ==> self.entries@[j].0@ != key@,
            decreases self.entries@.len() - i,
        {
            let p = &self.entries[i];
            if str_eq(p.0.as_str(), key) {
                proof {
                    lemma_key_idx(self.entries@, key@);
                    assert(key_idx(self.entries@, key@) == i);
                }
                return Some(i);
            }
            i += 1;
        }
        None
    }

    /// Return the first value for this key.
    pub fn get(&self, key: &str) -> (r: Option<&T>)
        requires
            self.wf(),
        ensures
            match r {
                Some(v) => self.contains_key(key@) && *v == self.spec_list(key@)[0],
                None => !self.contains_key(key@),
            },
    {
        match self.find(key) {
            Some(i) => {
                let p = &self.entries[i];
                Some(&p.1[0])
            },
            None => None,
        }
    }

    /// Return the list of values for a given key.
    pub fn getlist(&self, key: &str) -> (r: Option<&Vec<T>>)
        ensures
            match r {
                Some(l) => self.contains_key(key@) && l@ == self.spec_list(key@),
                None => !self.contains_key(key@),
            },
    {
        match self.find(key) {
            Some(i) => {
                let p = &self.entries[i];
                Some(&p.1)
            },
            None => None,
        }
    }

    /// Removes an existing key first and add the value.
    pub fn set(&mut self, key: &str, value: T)
        requires
            old(self).wf(),
        ensures
            final(self).wf(),
            final(self).contains_key(key@),
            final(self).spec_list(key@) =~= seq![value],
            forall|k: Seq<char>|
                k != key@ ==> final(self).contains_key(k) == old(self).contains_key(k),
            forall|k: Seq<char>|
                k != key@ && old(self).contains_key(k) ==> final(self).spec_list(k) == old(self).spec_list(k),
    {
        let mut list: Vec<T> = Vec::new();
        list.push(value);
        self.replace_list(key.to_owned(), list);
    }

    /// Adds a new value for the key.
    pub fn add(&mut self, key: String, value: T)
        requires
            old(self).wf(),
        ensures
            final(self).wf(),
            final(self).contains_key(key@),
            final(self).spec_list(key@) =~= if old(self).contains_key(key@) {
                old(self).spec_list(key@).push(value)
            } else {
                seq![value]
            },
            forall|k: Seq<char>|
                k != key@ ==> final(self).contains_key(k) == old(self).contains_key(k),
            forall|k: Seq<char>|
                k != key@ && old(self).contains_key(k) ==> final(self).spec_list(k) == old(self).spec_list(k),
    {
        match self.find(key.as_str()) {
            Some(i) => {
                let ghost eso = self.entries@;
                let ghost opair = eso[i as int];
                let pair = self.entries.remove(i);
                let mut list = pair.1;
                list.push(value);
                self.entries.insert(i, (pair.0, list));
                proof {
                    lemma_remove_insert(eso, i as int, self.entries@[i as int]);
                    self.lemma_update_at(eso, i as int, opair, opair.1@.push(value), key@);
                }
            },
            None => {
                let mut list: Vec<T> = Vec::new();
                list.push(value);
                self.append_new(key, list);
            },
        }
    }

    /// After replacing the entry at `i` (which held `key`) by one with the
    /// same key and its value list extended by `value`, all lookups behave
    /// as an in-place list update.
    proof fn lemma_update_at(
        &self,
        eso: Seq<(String, Vec<T>)>,
        i: int,
        opair: (String, Vec<T>),
        nlist: Seq<T>,
        key: Seq<char>,
    )
        requires
            0 <= i < eso.len(),
            opair == eso[i],
            opair.0@ == key,
            key_idx(eso, key) == i,
            nlist.len() > 0,
            forall|a: int, b: int| 0 <= a < b < eso.len() ==> eso[a].0@ != eso[b].0@,
            forall|a: int| 0 <= a < eso.len() ==> eso[a].1@.len() > 0,
            self.entries().len() == eso.len(),
            self.entries()[i].0@ == opair.0@,
            self.entries()[i].1@ == nlist,
            forall|j: int| 0 <= j < eso.len() && j != i ==> self.entries()[j] == eso[j],
        ensures
            self.wf(),
            self.contains_key(key),
            self.spec_list(key) == nlist,
            forall|k: Seq<char>| has_key(eso, k) == self.contains_key(k),
            forall|k: Seq<char>|
                k != key && has_key(eso, k) ==> self.spec_list(k) == eso[key_idx(eso, k)].1@,
    {
        let esn = self.entries();
        assert(forall|j: int| 0 <= j < eso.len() ==> esn[j].0@ == eso[j].0@);
        lemma_same_keys_get(eso, esn, key);
        lemma_key_idx_same(eso, esn, key);
        assert(esn[i].0@ == key);
    }

    /// Replace (or create) the whole value list of `key`.
    fn replace_list(&mut self, key: String, list: Vec<T>)
        requires
            old(self).wf(),
            list@.len() > 0,
        ensures
            final(self).wf(),
            final(self).contains_key(key@),
            final(self).spec_list(key@) == list@,
            forall|k: Seq<char>|
                k != key@ ==> final(self).contains_key(k) == old(self).contains_key(k),
            forall|k: Seq<char>|
                k != key@ && old(self).contains_key(k) ==> final(self).spec_list(k) == old(self).spec_list(k),
    {
        match self.find(key.as_str()) {
            Some(i) => {
                let ghost eso = self.entries@;
                let ghost opair = eso[i as int];
                let ghost nlist = list@;
                self.entries.remove(i);
                self.entries.insert(i, (key, list));
                proof {
                    lemma_remove_insert(eso, i as int, self.entries@[i as int]);
                    assert(self.entries@[i as int].0@ == opair.0@);
                    self.lemma_update_at(eso, i as int, opair, nlist, key@);
                }
            },
            None => {
                self.append_new(key, list);
            },
        }
    }

    /// Append an entry whose key is known to be absent.
    fn append_new(&mut self, key: String, list: Vec<T>)
        requires
            old(self).wf(),
            !old(self).contains_key(key@),
            list@.len() > 0,
        ensures
            final(self).wf(),
            final(self).contains_key(key@),
            final(self).spec_list(key@) == list@,
            forall|k: Seq<char>|
                k != key@ ==> final(self).contains_key(k) == old(self).contains_key(k),
            forall|k: Seq<char>|
                k != key@ && old(self).contains_key(k) ==> final(self).spec_list(k) == old(self).spec_list(k),
    {
        let ghost es0 = self.entries@;
        self.entries.push((key, list));
        proof {
            let esf = self.entries@;
            assert(forall|j: int| 0 <= j < es0.len() ==> esf[j] == es0[j]);
            lemma_key_idx(esf, key@);
            assert forall|j: int| 0 <= j < es0.len() implies es0[j].0@ != key@ by {
                if es0[j].0@ == key@ {
                    assert(has_key(es0, key@));
                }
            }
            assert(esf[es0.len() as int].0@ == key@);
            let rk = key_idx(esf, key@);
            assert(rk != -1);
            assert(rk == es0.len()) by {
                if rk < es0.len() {
                    assert(esf[rk] == es0[rk]);
                }
            }
            assert forall|k: Seq<char>| k != key@ implies final(self).contains_key(k) == old(self).contains_key(k) by {
                if has_key(esf, k) {
                    let w = choose|w: int| 0 <= w < esf.len() && esf[w].0@ == k;
                    assert(w < es0.len());
                    assert(es0[w].0@ == k);
                }
            }
            assert forall|k: Seq<char>| k != key@ && old(self).contains_key(k) implies final(self).spec_list(k) == old(self).spec_list(k) by {
                lemma_key_idx(es0, k);
                lemma_key_idx(esf, k);
                let r0 = key_idx(es0, k);
                let rf = key_idx(esf, k);
                assert(es0[r0].0@ == k);
                assert(rf != -1);
                assert(rf < es0.len());
                assert(esf[rf] == es0[rf]);
                assert(rf == r0);
            }
        }
    }

    /// All keys, in storage order.
    pub fn keys(&self) -> (r: Vec<String>)
        ensures
            r@.len() == self.entries().len(),
            forall|i: int| 0 <= i < r@.len() ==> r@[i]@ == self.entries()[i].0@,
    {
        let mut out: Vec<String> = Vec::new();
        let mut i: usize = 0;
        while i < self.entries.len()
            invariant
                i <= self.entries@.len(),
                out@.len() == i,
                forall|j: int| 0 <= j < i ==> out@[j]@ == self.entries@[j].0@,
            decreases self.entries@.len() - i,
        {
            let p = &self.entries[i];
            out.push(p.0.clone());
            i += 1;
        }
        out
    }
}

impl<T: Clone> MultiDict<T> {
    /// The first value of every key's value list, in storage order.
    pub fn values(&self) -> (r: Vec<T>)
        requires
            self.wf(),
        ensures
            r@.len() == self.entries().len(),
            forall|i: int|
                0 <= i < r@.len() ==> cloned::<T>(self.entries()[i].1@[0], #[trigger] r@[i]),
    {
        let mut out: Vec<T> = Vec::new();
        let mut i: usize = 0;
        while i < self.entries.len()
            invariant
                self.wf(),
                i <= self.entries@.len(),
                out@.len() == i,
                forall|j: int|
                    0 <= j < i ==> cloned::<T>(self.entries@[j].1@[0], #[trigger] out@[j]),
            decreases self.entries@.len() - i,
        {
            proof {
                assert(self.entries()[i as int].1@.len() > 0);
            }
            let p = &self.entries[i];
            out.push(p.1[0].clone());
            i += 1;
        }
        out
    }

    /// All value lists, in storage order.
    pub fn listvalues(&self) -> (r: Vec<Vec<T>>)
        ensures
            r@.len() == self.entries().len(),
    {
        let mut out: Vec<Vec<T>> = Vec::new();
        let mut i: usize = 0;
        while i < self.entries.len()
            invariant
                i <= self.entries@.len(),
                out@.len() == i,
            decreases self.entries@.len() - i,
        {
            let p = &self.entries[i];
            out.push(p.1.clone());
            i += 1;
        }
        out
    }

    /// `(key, first value)` pairs, in storage order.
    pub fn iter(&self) -> (r: Vec<(String, T)>)
        requires
            self.wf(),
        ensures
            r@.len() == self.entries().len(),
            forall|i: int| 0 <= i < r@.len() ==> r@[i].0@ == self.entries()[i].0@,
    {
        let mut out: Vec<(String, T)> = Vec::new();
        let mut i: usize = 0;
        while i < self.entries.len()
            invariant
                self.wf(),
                i <= self.entries@.len(),
                out@.len() == i,
                forall|j: int| 0 <= j < i ==> out@[j].0@ == self.entries@[j].0@,
            decreases self.entries@.len() - i,
        {
            proof {
                assert(self.entries()[i as int].1@.len() > 0);
            }
            let p = &self.entries[i];
            out.push((p.0.clone(), p.1[0].clone()));
            i += 1;
        }
        out
    }

    /// `(key, value list)` pairs, in storage order.
    pub fn listiter(&self) -> (r: Vec<(String, Vec<T>)>)
        ensures
            r@.len() == self.entries().len(),
            forall|i: int| 0 <= i < r@.len() ==> r@[i].0@ == self.entries()[i].0@,
    {
        let mut out: Vec<(String, Vec<T>)> = Vec::new();
        let mut i: usize = 0;
        while i < self.entries.len()
            invariant
                i <= self.entries@.len(),
                out@.len() == i,
                forall|j: int| 0 <= j < i ==> out@[j].0@ == self.entries@[j].0@,
            decreases self.entries@.len() - i,
        {
            let p = &self.entries[i];
            out.push((p.0.clone(), p.1.clone()));
            i += 1;
        }
        out
    }
}

/// Two entry sequences that agree on every key's position except a
/// value change at the index of `key` keep all lookups of other keys.
proof fn lemma_same_keys_get<T>(es0: Seq<(String, Vec<T>)>, es1: Seq<(String, Vec<T>)>, key: Seq<char>)
    requires
        es0.len() == es1.len(),
        forall|i: int| 0 <= i < es0.len() ==> es0[i].0@ == es1[i].0@,
        forall|i: int|
            0 <= i < es0.len() && es0[i].0@ != key ==> es0[i] == es1[i],
    ensures
        forall|k: Seq<char>| has_key(es0, k) == has_key(es1, k),
        forall|k: Seq<char>|
            k != key && has_key(es0, k) ==> es1[key_idx(es1, k)].1@ == es0[key_idx(es0, k)].1@
                && key_idx(es1, k) == key_idx(es0, k),
    decreases es0.len(),
{
    assert forall|k: Seq<char>| has_key(es0, k) == has_key(es1, k) by {
        if has_key(es0, k) {
            let w = choose|w: int| 0 <= w < es0.len() && es0[w].0@ == k;
            assert(es1[w].0@ == k);
        }
        if has_key(es1, k) {
            let w = choose|w: int| 0 <= w < es1.len() && es1[w].0@ == k;
            assert(es0[w].0@ == k);
        }
    }
    assert forall|k: Seq<char>| k != key && has_key(es0, k) implies es1[key_idx(es1, k)].1@
        == es0[key_idx(es0, k)].1@ && key_idx(es1, k) == key_idx(es0, k) by {
        lemma_key_idx_same(es0, es1, k);
        let r = key_idx(es0, k);
        lemma_key_idx(es0, k);
        assert(r != -1) by {
            if r == -1 {
                let w = choose|w: int| 0 <= w < es0.len() && es0[w].0@ == k;
                assert(es0[w].0@ != k);
            }
        }
        assert(es0[r].0@ == k);
        assert(es0[r].0@ != key);
        assert(es0[r] == es1[r]);
    }
}

/// Removing the entry at `i` and inserting `v` back at `i` is an update.
proof fn lemma_remove_insert<A>(s: Seq<A>, i: int, v: A)
    requires
        0 <= i < s.len(),
    ensures
        s.remove(i).insert(i, v).len() == s.len(),
        s.remove(i).insert(i, v)[i] == v,
        forall|j: int| 0 <= j < s.len() && j != i ==> s.remove(i).insert(i, v)[j] == s[j],
{
    assert(s.remove(i).insert(i, v) =~= s.update(i, v));
}

/// `key_idx` only looks at keys, so it agrees on key-equal sequences.
proof fn lemma_key_idx_same<T>(es0: Seq<(String, Vec<T>)>, es1: Seq<(String, Vec<T>)>, k: Seq<char>)
    requires
        es0.len() == es1.len(),
        forall|i: int| 0 <= i < es0.len() ==> es0[i].0@ == es1[i].0@,
    ensures
        key_idx(es0, k) == key_idx(es1, k),
    decreases es0.len(),
{
    if es0.len() > 0 {
        lemma_key_idx_same(es0.drop_first(), es1.drop_first(), k);
        assert(forall|i: int|
            0 <= i < es0.drop_first().len() ==> #[trigger] es0.drop_first()[i].0@ == es0[i + 1].0@);
        assert(forall|i: int|
            0 <= i < es1.drop_first().len() ==> #[trigger] es1.drop_first()[i].0@ == es1[i + 1].0@);
    }
}


/// ASCII-lowered character, as header keys are compared.
pub open spec fn spec_lower_char(c: char) -> char {
    if 'A' <= c && c <= 'Z' {
        ((c as u8) + 32) as char
    } else {
        c
    }
}

/// ASCII-lowered string.
pub open spec fn spec_lower(s: Seq<char>) -> Seq<char> {
    s.map_values(|c: char| spec_lower_char(c))
}

/// ASCII-lowered character.
pub fn lower_char(c: char) -> (r: char)
    ensures
        r == spec_lower_char(c),
{
    if 'A' <= c && c <= 'Z' {
        ((c as u8) + 32) as char
    } else {
        c
    }
}

/// Whether two strings agree after ASCII lowering, as header keys do.
pub fn eq_ignore_case(a: &str, b: &str) -> (r: bool)
    ensures
        r == (spec_lower(a@) == spec_lower(b@)),
{
    let al = a.unicode_len();
    let bl = b.unicode_len();
    if al != bl {
        proof {
            assert(spec_lower(a@).len() != spec_lower(b@).len());
        }
        return false;
    }
    let mut i: usize = 0;
    while i < al
        invariant
            i <= al,
            al == a@.len(),
            al == b@.len(),
            forall|j: int| 0 <= j < i ==> spec_lower_char(a@[j]) == spec_lower_char(b@[j]),
        decreases al - i,
    {
        if lower_char(a.get_char(i)) != lower_char(b.get_char(i)) {
            proof {
                assert(spec_lower(a@)[i as int] != spec_lower(b@)[i as int]);
            }
            return false;
        }
        i += 1;
    }
    proof {
        assert(spec_lower(a@) =~= spec_lower(b@));
    }
    true
}

/// A pair of header lines matches key `k` when the keys agree after
/// ASCII lowering.
pub open spec fn hmatches(p: (Seq<char>, Seq<char>), k: Seq<char>) -> bool {
    spec_lower(p.0) == spec_lower(k)
}

/// Index of the first header line matching `k`, or `-1`.
pub open spec fn hkey_idx(es: Seq<(Seq<char>, Seq<char>)>, k: Seq<char>) -> int
    decreases es.len(),
{
    if es.len() == 0 {
        -1
    } else if hmatches(es[0], k) {
        0
    } else {
        let r = hkey_idx(es.drop_first(), k);
        if r < 0 {
            -1
        } else {
            r + 1
        }
    }
}

/// Some header line matches `k`.
pub open spec fn has_hkey(es: Seq<(Seq<char>, Seq<char>)>, k: Seq<char>) -> bool {
    exists|i: int| 0 <= i < es.len() && hmatches(es[i], k)
}

/// `hkey_idx` finds the first matching line, exactly when one exists.
pub proof fn lemma_hkey_idx(es: Seq<(Seq<char>, Seq<char>)>, k: Seq<char>)
    ensures
        hkey_idx(es, k) == -1 ==> !has_hkey(es, k),
        hkey_idx(es, k) != -1 ==> 0 <= hkey_idx(es, k) < es.len() && hmatches(
            es[hkey_idx(es, k)],
            k,
        ) && (forall|i: int| 0 <= i < hkey_idx(es, k) ==> !hmatches(es[i], k)),
    decreases es.len(),
{
    if es.len() > 0 && !hmatches(es[0], k) {
        let d = es.drop_first();
        lemma_hkey_idx(d, k);
        assert(forall|i: int| 0 <= i < d.len() ==> #[trigger] d[i] == es[i + 1]);
        let r = hkey_idx(d, k);
        if r == -1 {
            if has_hkey(es, k) {
                let w = choose|w: int| 0 <= w < es.len() && hmatches(es[w], k);
                assert(hmatches(d[w - 1], k));
            }
        } else {
            assert(es[r + 1] == d[r]);
            assert forall|i: int| 0 <= i < r + 1 implies !hmatches(es[i], k) by {
                if i >= 1 {
                    assert(es[i] == d[i - 1]);
                }
            }
        }
    }
}

/// The values of all lines matching `k`, in order.
pub open spec fn hvalues_for(es: Seq<(Seq<char>, Seq<char>)>, k: Seq<char>) -> Seq<Seq<char>>
    decreases es.len(),
{
    if es.len() == 0 {
        Seq::empty()
    } else {
        (if hmatches(es[0], k) {
            seq![es[0].1]
        } else {
            Seq::empty()
        }) + hvalues_for(es.drop_first(), k)
    }
}

/// `es` with every line matching `k` removed.
pub open spec fn hdrop(es: Seq<(Seq<char>, Seq<char>)>, k: Seq<char>) -> Seq<
    (Seq<char>, Seq<char>),
>
    decreases es.len(),
{
    if es.len() == 0 {
        Seq::empty()
    } else {
        (if hmatches(es[0], k) {
            Seq::empty()
        } else {
            seq![es[0]]
        }) + hdrop(es.drop_first(), k)
    }
}

/// `es` with the first line matching `k` replaced by `(k, v)`, all later
/// matching lines dropped, and `(k, v)` appended when nothing matched.
pub open spec fn hset(
    es: Seq<(Seq<char>, Seq<char>)>,
    k: Seq<char>,
    v: Seq<char>,
    existed: bool,
) -> Seq<(Seq<char>, Seq<char>)>
    decreases es.len(),
{
    if es.len() == 0 {
        if existed {
            Seq::empty()
        } else {
            seq![(k, v)]
        }
    } else {
        (if hmatches(es[0], k) {
            if existed {
                Seq::empty()
            } else {
                seq![(k, v)]
            }
        } else {
            seq![es[0]]
        }) + hset(es.drop_first(), k, v, existed || hmatches(es[0], k))
    }
}

/// An ordered list of header lines.  Keys may repeat; lookups compare
/// keys without regard to ASCII case.
pub struct Headers {
    list: Vec<(String, String)>,
}

impl View for Headers {
    type V = Seq<(Seq<char>, Seq<char>)>;

    closed spec fn view(&self) -> Seq<(Seq<char>, Seq<char>)> {
        self.list@.map_values(|p: (String, String)| (p.0@, p.1@))
    }
}

impl Headers {
    /// Create headers, empty or from a list of lines.
    pub fn new(list: Option<Vec<(String, String)>>) -> (r: Headers)
        ensures
            match list {
                Some(l) => r@ == l@.map_values(|p: (String, String)| (p.0@, p.1@)),
                None => r@ == Seq::<(Seq<char>, Seq<char>)>::empty(),
            },
    {
        let r = match list {
            Some(l) => Headers { list: l },
            None => Headers { list: Vec::new() },
        };
        proof {
            if r.list@.len() == 0 {
                assert(r@ =~= Seq::<(Seq<char>, Seq<char>)>::empty());
            }
        }
        r
    }

    /// Number of header lines.
    pub fn len(&self) -> (r: usize)
        ensures
            r == self@.len(),
    {
        self.list.len()
    }

    /// Remove all header lines.
    pub fn clear(&mut self)
        ensures
            final(self)@ == Seq::<(Seq<char>, Seq<char>)>::empty(),
    {
        self.list.clear();
        proof {
            assert(self@ =~= Seq::<(Seq<char>, Seq<char>)>::empty());
        }
    }

    /// Add a header line at the end.
    pub fn add(&mut self, key: &str, value: &str)
        ensures
            final(self)@ == old(self)@.push((key@, value@)),
    {
        self.list.push((key.to_owned(), value.to_owned()));
        proof {
            assert(final(self)@ =~= old(self)@.push((key@, value@)));
        }
    }

    /// The value of the first header line whose key matches, if any.
    pub fn get(&self, key: &str) -> (r: Option<&String>)
        ensures
            match r {
                Some(v) => has_hkey(self@, key@) && v@ == self@[hkey_idx(self@, key@)].1,
                None => !has_hkey(self@, key@),
            },
    {
        proof {
            lemma_hkey_idx(self@, key@);
        }
        let mut i: usize = 0;
        while i < self.list.len()
            invariant
                i <= self@.len(),
                self@.len() == self.list@.len(),
                forall|j: int| 0 <= j < i ==> !hmatches(self@[j], key@),
            decreases self@.len() - i,
        {
            let p = &self.list[i];
            if eq_ignore_case(p.0.as_str(), key) {
                proof {
                    lemma_hkey_idx(self@, key@);
                    assert(hmatches(self@[i as int], key@));
                    assert(hkey_idx(self@, key@) == i);
                }
                return Some(&p.1);
            }
            proof {
                assert(!hmatches(self@[i as int], key@));
            }
            i += 1;
        }
        None
    }

    /// All values whose key matches, in order; empty when none does.
    pub fn get_all(&self, key: &str) -> (r: Vec<String>)
        ensures
            r@.map_values(|s: String| s@) == hvalues_for(self@, key@),
    {
        let mut out: Vec<String> = Vec::new();
        let mut i: usize = 0;
        proof {
            assert(self@.skip(0) =~= self@);
            assert(out@.map_values(|s: String| s@) + hvalues_for(self@.skip(0), key@)
                =~= hvalues_for(self@, key@));
        }
        while i < self.list.len()
            invariant
                i <= self@.len(),
                self@.len() == self.list@.len(),
                out@.map_values(|s: String| s@) + hvalues_for(self@.skip(i as int), key@)
                    == hvalues_for(self@, key@),
            decreases self@.len() - i,
        {
            proof {
                assert(self@.skip(i as int).drop_first() =~= self@.skip(i + 1));
                assert(self@.skip(i as int)[0] == self@[i as int]);
            }
            let ghost out0 = out@;
            let p = &self.list[i];
            if eq_ignore_case(p.0.as_str(), key) {
                out.push(p.1.clone());
                proof {
                    assert(out@.map_values(|s: String| s@) =~= out0.map_values(|s: String| s@)
                        + seq![self@[i as int].1]);
                    assert(out@.map_values(|s: String| s@) + hvalues_for(
                        self@.skip(i + 1),
                        key@,
                    ) =~= hvalues_for(self@, key@));
                }
            } else {
                proof {
                    assert(!hmatches(self@[i as int], key@));
                    assert(hvalues_for(self@.skip(i as int), key@) =~= hvalues_for(
                        self@.skip(i + 1),
                        key@,
                    ));
                }
            }
            i += 1;
        }
        proof {
            assert(hvalues_for(self@.skip(self@.len() as int), key@) =~= Seq::<Seq<char>>::empty());
            assert(out@.map_values(|s: String| s@) =~= hvalues_for(self@, key@));
        }
        out
    }

    /// All header lines, in order.
    pub fn iter(&self) -> (r: Vec<(String, String)>)
        ensures
            r@.map_values(|p: (String, String)| (p.0@, p.1@)) == self@,
    {
        let mut out: Vec<(String, String)> = Vec::new();
        let mut i: usize = 0;
        while i < self.list.len()
            invariant
                i <= self.list@.len(),
                self@.len() == self.list@.len(),
                out@.len() == i,
                forall|j: int|
                    0 <= j < i ==> (#[trigger] out@[j].0@, out@[j].1@) == self@[j],
            decreases self.list@.len() - i,
        {
            let p = &self.list[i];
            out.push((p.0.clone(), p.1.clone()));
            i += 1;
        }
        proof {
            assert(out@.map_values(|p: (String, String)| (p.0@, p.1@)) =~= self@);
        }
        out
    }

    /// All header keys, in order.
    pub fn keys(&self) -> (r: Vec<String>)
        ensures
            r@.map_values(|s: String| s@) == self@.map_values(|p: (Seq<char>, Seq<char>)| p.0),
    {
        let mut out: Vec<String> = Vec::new();
        let mut i: usize = 0;
        while i < self.list.len()
            invariant
                i <= self.list@.len(),
                self@.len() == self.list@.len(),
                out@.len() == i,
                forall|j: int| 0 <= j < i ==> #[trigger] out@[j]@ == self@[j].0,
            decreases self.list@.len() - i,
        {
            let p = &self.list[i];
            out.push(p.0.clone());
            i += 1;
        }
        proof {
            assert(out@.map_values(|s: String| s@) =~= self@.map_values(
                |p: (Seq<char>, Seq<char>)| p.0,
            ));
        }
        out
    }

    /// All header values, in order.
    pub fn values(&self) -> (r: Vec<String>)
        ensures
            r@.map_values(|s: String| s@) == self@.map_values(|p: (Seq<char>, Seq<char>)| p.1),
    {
        let mut out: Vec<String> = Vec::new();
        let mut i: usize = 0;
        while i < self.list.len()
            invariant
                i <= self.list@.len(),
                self@.len() == self.list@.len(),
                out@.len() == i,
                forall|j: int| 0 <= j < i ==> #[trigger] out@[j]@ == self@[j].1,
            decreases self.list@.len() - i,
        {
            let p = &self.list[i];
            out.push(p.1.clone());
            i += 1;
        }
        proof {
            assert(out@.map_values(|s: String| s@) =~= self@.map_values(
                |p: (Seq<char>, Seq<char>)| p.1,
            ));
        }
        out
    }

    /// Remove every line whose key matches, returning the first removed
    /// value if the key was present.
    pub fn remove(&mut self, key: &str) -> (r: Option<String>)
        ensures
            final(self)@ == hdrop(old(self)@, key@),
            match r {
                Some(v) => has_hkey(old(self)@, key@) && v@ == old(self)@[hkey_idx(
                    old(self)@,
                    key@,
                )].1,
                None => !has_hkey(old(self)@, key@),
            },
    {
        proof {
            lemma_hkey_idx(self@, key@);
        }
        let ghost es = self@;
        let mut out: Vec<(String, String)> = Vec::new();
        let mut rv: Option<String> = None;
        let mut i: usize = 0;
        proof {
            assert(es.skip(0) =~= es);
            assert(out@.map_values(|p: (String, String)| (p.0@, p.1@)) + hdrop(es.skip(0), key@)
                =~= hdrop(es, key@));
        }
        while i < self.list.len()
            invariant
                i <= es.len(),
                es == self@,
                es.len() == self.list@.len(),
                out@.map_values(|p: (String, String)| (p.0@, p.1@)) + hdrop(
                    es.skip(i as int),
                    key@,
                ) == hdrop(es, key@),
                match rv {
                    Some(v) => has_hkey(es, key@) && hkey_idx(es, key@) < i && v@ == es[hkey_idx(
                        es,
                        key@,
                    )].1,
                    None => forall|j: int| 0 <= j < i ==> !hmatches(es[j], key@),
                },
            decreases es.len() - i,
        {
            proof {
                assert(es.skip(i as int).drop_first() =~= es.skip(i + 1));
                assert(es.skip(i as int)[0] == es[i as int]);
            }
            let ghost out0 = out@;
            let p = &self.list[i];
            if eq_ignore_case(p.0.as_str(), key) {
                if rv.is_none() {
                    proof {
                        lemma_hkey_idx(es, key@);
                        assert(hmatches(es[i as int], key@));
                        assert(hkey_idx(es, key@) == i);
                    }
                    rv = Some(p.1.clone());
                }
                proof {
                    assert(hdrop(es.skip(i as int), key@) =~= hdrop(es.skip(i + 1), key@));
                }
            } else {
                out.push((p.0.clone(), p.1.clone()));
                proof {
                    assert(!hmatches(es[i as int], key@));
                    assert(out@.map_values(|q: (String, String)| (q.0@, q.1@)) =~= out0.map_values(
                        |q: (String, String)| (q.0@, q.1@),
                    ) + seq![es[i as int]]);
                    assert(out@.map_values(|q: (String, String)| (q.0@, q.1@)) + hdrop(
                        es.skip(i + 1),
                        key@,
                    ) =~= hdrop(es, key@));
                }
            }
            i += 1;
        }
        proof {
            assert(hdrop(es.skip(es.len() as int), key@) =~= Seq::<(Seq<char>, Seq<char>)>::empty());
        }
        self.list = out;
        proof {
            assert(self@ =~= hdrop(es, key@));
        }
        rv
    }

    /// Replace the first line whose key matches by `(key, value)`, drop
    /// any later matching line, and append the line when none matched.
    pub fn set(&mut self, key: &str, value: &str)
        ensures
            final(self)@ == hset(old(self)@, key@, value@, false),
    {
        let ghost es = self@;
        let mut out: Vec<(String, String)> = Vec::new();
        let mut existed = false;
        let mut i: usize = 0;
        proof {
            assert(es.skip(0) =~= es);
            assert(out@.map_values(|p: (String, String)| (p.0@, p.1@)) + hset(
                es.skip(0),
                key@,
                value@,
                false,
            ) =~= hset(es, key@, value@, false));
        }
        while i < self.list.len()
            invariant
                i <= es.len(),
                es == self@,
                es.len() == self.list@.len(),
                out@.map_values(|p: (String, String)| (p.0@, p.1@)) + hset(
                    es.skip(i as int),
                    key@,
                    value@,
                    existed,
                ) == hset(es, key@, value@, false),
            decreases es.len() - i,
        {
            proof {
                assert(es.skip(i as int).drop_first() =~= es.skip(i + 1));
                assert(es.skip(i as int)[0] == es[i as int]);
            }
            let ghost out0 = out@;
            let ghost existed0 = existed;
            let p = &self.list[i];
            if eq_ignore_case(p.0.as_str(), key) {
                if !existed {
                    out.push((key.to_owned(), value.to_owned()));
                    existed = true;
                    proof {
                        assert(hmatches(es[i as int], key@));
                        assert(out@.map_values(|q: (String, String)| (q.0@, q.1@))
                            =~= out0.map_values(|q: (String, String)| (q.0@, q.1@)) + seq![
                            (key@, value@),
                        ]);
                        assert(out@.map_values(|q: (String, String)| (q.0@, q.1@)) + hset(
                            es.skip(i + 1),
                            key@,
                            value@,
                            true,
                        ) =~= hset(es, key@, value@, false));
                    }
                } else {
                    proof {
                        assert(hmatches(es[i as int], key@));
                        assert(hset(es.skip(i as int), key@, value@, true) =~= hset(
                            es.skip(i + 1),
                            key@,
                            value@,
                            true,
                        ));
                    }
                }
            } else {
                out.push((p.0.clone(), p.1.clone()));
                proof {
                    assert(!hmatches(es[i as int], key@));
                    assert(out@.map_values(|q: (String, String)| (q.0@, q.1@)) =~= out0.map_values(
                        |q: (String, String)| (q.0@, q.1@),
                    ) + seq![es[i as int]]);
                    assert(out@.map_values(|q: (String, String)| (q.0@, q.1@)) + hset(
                        es.skip(i + 1),
                        key@,
                        value@,
                        existed0,
                    ) =~= hset(es, key@, value@, false));
                }
            }
            i += 1;
        }
        proof {
            assert(es.skip(es.len() as int) =~= Seq::<(Seq<char>, Seq<char>)>::empty());
        }
        if !existed {
            let ghost out0 = out@;
            out.push((key.to_owned(), value.to_owned()));
            proof {
                assert(hset(es.skip(es.len() as int), key@, value@, false) =~= seq![
                    (key@, value@),
                ]);
                assert(out@.map_values(|q: (String, String)| (q.0@, q.1@)) =~= out0.map_values(
                    |q: (String, String)| (q.0@, q.1@),
                ) + seq![(key@, value@)]);
            }
        } else {
            proof {
                assert(hset(es.skip(es.len() as int), key@, value@, true) =~= Seq::<
                    (Seq<char>, Seq<char>),
                >::empty());
            }
        }
        self.list = out;
        proof {
            assert(self@ =~= hset(es, key@, value@, false));
        }
    }
}



/// The value of the first line matching `k` (meaningful under `has_hkey`).
pub open spec fn hfirst(es: Seq<(Seq<char>, Seq<char>)>, k: Seq<char>) -> Seq<char> {
    es[hkey_idx(es, k)].1
}

/// The headers hold a line matching `k`, and the first such line carries
/// the value `v`.
pub open spec fn hhas(es: Seq<(Seq<char>, Seq<char>)>, k: Seq<char>, v: Seq<char>) -> bool {
    has_hkey(es, k) && hfirst(es, k) == v
}

/// How lookups behave on a line prepended to a header list.
proof fn lemma_hkey_cons(
    x: (Seq<char>, Seq<char>),
    t: Seq<(Seq<char>, Seq<char>)>,
    k: Seq<char>,
)
    ensures
        hmatches(x, k) ==> has_hkey(seq![x] + t, k) && hfirst(seq![x] + t, k) == x.1,
        !hmatches(x, k) ==> has_hkey(seq![x] + t, k) == has_hkey(t, k) && (has_hkey(t, k)
            ==> hfirst(seq![x] + t, k) == hfirst(t, k)),
        hvalues_for(seq![x] + t, k) == (if hmatches(x, k) {
            seq![x.1]
        } else {
            Seq::<Seq<char>>::empty()
        }) + hvalues_for(t, k),
{
    let s = seq![x] + t;
    assert(s[0] == x);
    assert(s.drop_first() =~= t);
    lemma_hkey_idx(t, k);
    lemma_hkey_idx(s, k);
    if hmatches(x, k) {
        assert(hkey_idx(s, k) == 0);
    } else {
        let r = hkey_idx(t, k);
        if r == -1 {
            assert(hkey_idx(s, k) == -1);
            if has_hkey(s, k) {
                assert(false);
            }
        } else {
            assert(hkey_idx(s, k) == r + 1);
            assert(s[r + 1] == t[r]);
            assert(has_hkey(s, k) && has_hkey(t, k));
        }
    }
    assert(hvalues_for(s, k) == (if hmatches(x, k) {
        seq![x.1]
    } else {
        Seq::<Seq<char>>::empty()
    }) + hvalues_for(t, k));
}

/// `hset` leaves every line with a differently-lowered key alone.
pub proof fn lemma_hset_preserves(
    es: Seq<(Seq<char>, Seq<char>)>,
    k: Seq<char>,
    v: Seq<char>,
    existed: bool,
    k2: Seq<char>,
)
    requires
        spec_lower(k2) != spec_lower(k),
    ensures
        has_hkey(hset(es, k, v, existed), k2) == has_hkey(es, k2),
        has_hkey(es, k2) ==> hfirst(hset(es, k, v, existed), k2) == hfirst(es, k2),
        hvalues_for(hset(es, k, v, existed), k2) == hvalues_for(es, k2),
    decreases es.len(),
{
    if es.len() == 0 {
        if existed {
            assert(hset(es, k, v, existed) =~= Seq::<(Seq<char>, Seq<char>)>::empty());
            if has_hkey(es, k2) {
                assert(false);
            }
            assert(hvalues_for(hset(es, k, v, existed), k2) =~= hvalues_for(es, k2));
        } else {
            let s = hset(es, k, v, existed);
            assert(s =~= seq![(k, v)] + Seq::<(Seq<char>, Seq<char>)>::empty());
            lemma_hkey_cons((k, v), Seq::<(Seq<char>, Seq<char>)>::empty(), k2);
            assert(!hmatches((k, v), k2));
            if has_hkey(es, k2) {
                assert(false);
            }
            assert(hvalues_for(s, k2) =~= hvalues_for(es, k2));
        }
    } else {
        let d = es.drop_first();
        let h = hmatches(es[0], k);
        lemma_hset_preserves(d, k, v, existed || h, k2);
        let inner = hset(d, k, v, existed || h);
        lemma_hkey_cons(es[0], d, k2);
        assert(seq![es[0]] + d =~= es);
        if h {
            assert(!hmatches(es[0], k2));
            if existed {
                assert(hset(es, k, v, existed) =~= inner);
            } else {
                assert(hset(es, k, v, existed) =~= seq![(k, v)] + inner);
                lemma_hkey_cons((k, v), inner, k2);
                assert(!hmatches((k, v), k2));
                assert(hvalues_for(seq![(k, v)] + inner, k2) =~= hvalues_for(inner, k2));
            }
        } else {
            assert(hset(es, k, v, existed) =~= seq![es[0]] + inner);
            lemma_hkey_cons(es[0], inner, k2);
            if hmatches(es[0], k2) {
            } else {
                assert(hvalues_for(seq![es[0]] + inner, k2) =~= hvalues_for(inner, k2));
            }
        }
    }
}

/// After `hset` with a fresh flag the first line matching `k` carries `v`.
pub proof fn lemma_hset_first(es: Seq<(Seq<char>, Seq<char>)>, k: Seq<char>, v: Seq<char>)
    ensures
        hhas(hset(es, k, v, false), k, v),
    decreases es.len(),
{
    if es.len() == 0 {
        let s = hset(es, k, v, false);
        assert(s =~= seq![(k, v)] + Seq::<(Seq<char>, Seq<char>)>::empty());
        lemma_hkey_cons((k, v), Seq::<(Seq<char>, Seq<char>)>::empty(), k);
        assert(hmatches((k, v), k));
    } else {
        let d = es.drop_first();
        let h = hmatches(es[0], k);
        if h {
            let inner = hset(d, k, v, true);
            assert(hset(es, k, v, false) =~= seq![(k, v)] + inner);
            lemma_hkey_cons((k, v), inner, k);
            assert(hmatches((k, v), k));
        } else {
            lemma_hset_first(d, k, v);
            let inner = hset(d, k, v, false);
            assert(hset(es, k, v, false) =~= seq![es[0]] + inner);
            lemma_hkey_cons(es[0], inner, k);
        }
    }
}


/// `key_idx` agrees on sequences whose keys read the same, whatever the
/// values are.
proof fn lemma_key_idx_keys<V, W>(es0: Seq<(String, V)>, es1: Seq<(String, W)>, k: Seq<char>)
    requires
        es0.len() == es1.len(),
        forall|i: int| 0 <= i < es0.len() ==> es0[i].0@ == es1[i].0@,
    ensures
        key_idx(es0, k) == key_idx(es1, k),
    decreases es0.len(),
{
    if es0.len() > 0 {
        lemma_key_idx_keys(es0.drop_first(), es1.drop_first(), k);
        assert(forall|i: int|
            0 <= i < es0.drop_first().len() ==> #[trigger] es0.drop_first()[i].0@ == es0[i
                + 1].0@);
        assert(forall|i: int|
            0 <= i < es1.drop_first().len() ==> #[trigger] es1.drop_first()[i].0@ == es1[i
                + 1].0@);
    }
}

impl<V: Copy> Dict<V> {
    /// A copy of the map: the same keys and values.
    pub fn copy_map(&self) -> (r: Dict<V>)
        requires
            self.wf(),
        ensures
            r.wf(),
            forall|k: Seq<char>| r.contains_key(k) == self.contains_key(k),
            forall|k: Seq<char>| self.contains_key(k) ==> r.spec_get(k) == self.spec_get(k),
    {
        let mut entries: Vec<(String, V)> = Vec::new();
        let mut i: usize = 0;
        while i < self.entries.len()
            invariant
                i <= self.entries().len(),
                entries@.len() == i,
                forall|j: int|
                    0 <= j < i ==> #[trigger] entries@[j].0@ == self.entries()[j].0@,
                forall|j: int| 0 <= j < i ==> #[trigger] entries@[j].1 == self.entries()[j].1,
            decreases self.entries().len() - i,
        {
            let p = &self.entries[i];
            entries.push((p.0.clone(), p.1));
            i += 1;
        }
        let r = Dict { entries };
        proof {
            let e0 = self.entries();
            let e1 = r.entries();
            assert(e1.len() == e0.len());
            assert forall|k: Seq<char>| r.contains_key(k) == self.contains_key(k) by {
                if has_key(e1, k) {
                    let w = choose|w: int| 0 <= w < e1.len() && e1[w].0@ == k;
                    assert(e1[w].0@ == e0[w].0@);
                }
                if has_key(e0, k) {
                    let w = choose|w: int| 0 <= w < e0.len() && e0[w].0@ == k;
                    assert(e1[w].0@ == e0[w].0@);
                }
            }
            assert forall|k: Seq<char>| self.contains_key(k) implies r.spec_get(k)
                == self.spec_get(k) by {
                lemma_key_idx_keys(e1, e0, k);
                lemma_key_idx(e0, k);
                let idx = key_idx(e0, k);
                assert(idx != -1) by {
                    if idx == -1 {
                        let w = choose|w: int| 0 <= w < e0.len() && e0[w].0@ == k;
                        assert(e0[w].0@ != k);
                    }
                }
                assert(e1[idx].1 == e0[idx].1);
            }
            assert forall|a: int, b: int|
                0 <= a < b < e1.len() implies e1[a].0@ != e1[b].0@ by {
                assert(e1[a].0@ == e0[a].0@ && e1[b].0@ == e0[b].0@);
            }
        }
        r
    }
}

/// Index of the first entry of `es` with code `c`, or `-1`.
pub open spec fn code_idx(es: Seq<(u16, usize)>, c: u16) -> int
    decreases es.len(),
{
    if es.len() == 0 {
        -1
    } else if es[0].0 == c {
        0
    } else {
        let r = code_idx(es.drop_first(), c);
        if r < 0 {
            -1
        } else {
            r + 1
        }
    }
}

/// Some entry of `es` has code `c`.
pub open spec fn has_code(es: Seq<(u16, usize)>, c: u16) -> bool {
    exists|i: int| 0 <= i < es.len() && es[i].0 == c
}

/// `code_idx` finds the first entry with the given code, exactly when
/// one exists.
pub proof fn lemma_code_idx(es: Seq<(u16, usize)>, c: u16)
    ensures
        code_idx(es, c) == -1 ==> !has_code(es, c),
        code_idx(es, c) != -1 ==> 0 <= code_idx(es, c) < es.len() && es[code_idx(es, c)].0 == c
            && (forall|i: int| 0 <= i < code_idx(es, c) ==> es[i].0 != c),
    decreases es.len(),
{
    if es.len() > 0 && es[0].0 != c {
        let d = es.drop_first();
        lemma_code_idx(d, c);
        assert(forall|i: int| 0 <= i < d.len() ==> #[trigger] d[i] == es[i + 1]);
        let r = code_idx(d, c);
        if r == -1 {
            if has_code(es, c) {
                let w = choose|w: int| 0 <= w < es.len() && es[w].0 == c;
                assert(d[w - 1].0 == c);
            }
        } else {
            assert(es[r + 1] == d[r]);
            assert forall|i: int| 0 <= i < r + 1 implies es[i].0 != c by {
                if i >= 1 {
                    assert(es[i] == d[i - 1]);
                }
            }
        }
    }
}

/// A map from status codes to handler identifiers, with at most one
/// entry per code; inserting an existing code replaces its handler.
pub struct CodeDict {
    entries: Vec<(u16, usize)>,
}

impl CodeDict {
    /// The underlying entries.
    pub closed spec fn entries(&self) -> Seq<(u16, usize)> {
        self.entries@
    }

    /// Each code occurs at most once.
    pub open spec fn wf(&self) -> bool {
        forall|i: int, j: int|
            0 <= i < j < self.entries().len() ==> self.entries()[i].0 != self.entries()[j].0
    }

    /// The map holds code `c`.
    pub open spec fn contains_key(&self, c: u16) -> bool {
        has_code(self.entries(), c)
    }

    /// The handler stored under `c` (meaningful when `contains_key(c)`).
    pub open spec fn spec_get(&self, c: u16) -> usize {
        self.entries()[code_idx(self.entries(), c)].1
    }

    /// Create an empty map.
    pub fn new() -> (r: CodeDict)
        ensures
            r.wf(),
            forall|c: u16| !r.contains_key(c),
            r.entries().len() == 0,
    {
        let r = CodeDict { entries: Vec::new() };
        proof {
            assert(r.entries() =~= Seq::<(u16, usize)>::empty());
        }
        r
    }

    /// Position of `code` among the entries, if present.
    fn find(&self, code: u16) -> (r: Option<usize>)
        ensures
            match r {
                Some(i) => i < self.entries().len() && self.entries()[i as int].0 == code
                    && code_idx(self.entries(), code) == i,
                None => !self.contains_key(code),
            },
    {
        proof {
            lemma_code_idx(self.entries(), code);
        }
        let mut i: usize = 0;
        while i < self.entries.len()
            invariant
                i <= self.entries().len(),
                forall|j: int| 0 <= j < i ==> self.entries()[j].0 != code,
            decreases self.entries().len() - i,
        {
            let p = &self.entries[i];
            if p.0 == code {
                proof {
                    lemma_code_idx(self.entries(), code);
                    assert(code_idx(self.entries(), code) == i);
                }
                return Some(i);
            }
            i += 1;
        }
        proof {
            if has_code(self.entries(), code) {
                let w = choose|w: int|
                    0 <= w < self.entries().len() && self.entries()[w].0 == code;
                assert(self.entries()[w].0 != code);
            }
        }
        None
    }

    /// Look a code up.
    pub fn get(&self, code: u16) -> (r: Option<usize>)
        ensures
            match r {
                Some(h) => self.contains_key(code) && h == self.spec_get(code),
                None => !self.contains_key(code),
            },
    {
        match self.find(code) {
            Some(i) => {
                let p = &self.entries[i];
                Some(p.1)
            },
            None => None,
        }
    }

    /// Insert a handler, replacing any previous one under the same code.
    pub fn insert(&mut self, code: u16, handler: usize)
        requires
            old(self).wf(),
        ensures
            final(self).wf(),
            final(self).contains_key(code),
            final(self).spec_get(code) == handler,
            forall|c: u16| c != code ==> final(self).contains_key(c) == old(self).contains_key(c),
            forall|c: u16|
                c != code && old(self).contains_key(c) ==> final(self).spec_get(c) == old(self).spec_get(c),
    {
        let ghost es0 = self.entries();
        let found = self.find(code);
        let ghost fi: int = match found {
            Some(i) => i as int,
            None => es0.len() as int,
        };
        match found {
            Some(i) => {
                self.entries.remove(i);
            },
            None => {},
        }
        let ghost es1 = self.entries();
        self.entries.push((code, handler));
        proof {
            let esf = self.entries();
            if fi < es0.len() {
                assert(es0[fi].0 == code);
                assert(forall|j: int| 0 <= j < fi ==> es1[j] == es0[j]);
                assert(forall|j: int| fi <= j < es1.len() ==> es1[j] == es0[j + 1]);
            } else {
                assert(es1 == es0);
            }
            lemma_code_idx(es0, code);
            assert forall|j: int| 0 <= j < es1.len() implies es1[j].0 != code by {
                if fi < es0.len() {
                    if j < fi {
                        assert(es1[j] == es0[j]);
                    } else {
                        assert(es1[j] == es0[j + 1]);
                        assert(es0[j + 1].0 != es0[fi].0);
                    }
                } else {
                    assert(es1[j] == es0[j]);
                    if es0[j].0 == code {
                        assert(has_code(es0, code));
                    }
                }
            }
            assert(esf[es1.len() as int] == (code, handler));
            assert(forall|j: int| 0 <= j < es1.len() ==> esf[j] == es1[j]);
            assert forall|i: int, j: int|
                0 <= i < j < esf.len() implies esf[i].0 != esf[j].0 by {
                if j < es1.len() {
                    let i0: int = if i < fi { i } else { i + 1 };
                    let j0: int = if j < fi { j } else { j + 1 };
                    assert(es1[i] == es0[i0] && es1[j] == es0[j0]);
                } else {
                    assert(es1[i].0 != code);
                }
            }
            lemma_code_idx(esf, code);
            let rk = code_idx(esf, code);
            assert(esf[es1.len() as int].0 == code);
            assert(rk != -1);
            assert(rk == es1.len()) by {
                if rk < es1.len() {
                    assert(esf[rk] == es1[rk]);
                }
            }
            assert forall|c: u16| c != code implies final(self).contains_key(c) == old(self).contains_key(c) by {
                if has_code(esf, c) {
                    let w = choose|w: int| 0 <= w < esf.len() && esf[w].0 == c;
                    assert(w < es1.len());
                    assert(es0[if w < fi { w } else { w + 1 }].0 == c);
                }
                if has_code(es0, c) {
                    let w = choose|w: int| 0 <= w < es0.len() && es0[w].0 == c;
                    assert(w != fi);
                    let w1: int = if w < fi { w } else { w - 1 };
                    assert(es1[w1].0 == c);
                }
            }
            assert forall|c: u16| c != code && old(self).contains_key(c) implies final(self).spec_get(c) == old(self).spec_get(c) by {
                lemma_code_idx(es0, c);
                lemma_code_idx(esf, c);
                let r0 = code_idx(es0, c);
                let rf = code_idx(esf, c);
                assert(r0 != -1);
                assert(es0[r0].0 == c);
                assert(rf != -1) by {
                    if rf == -1 {
                        let w1: int = if r0 < fi { r0 } else { r0 - 1 };
                        assert(esf[w1].0 == c);
                    }
                }
                assert(rf < es1.len());
                assert(esf[rf] == es0[if rf < fi { rf } else { rf + 1 }]);
                let o: int = if rf < fi { rf } else { rf + 1 };
                assert(es0[o].0 == c);
                assert(o == r0);
            }
        }
    }

    /// A copy of the map: the same codes and handlers.
    pub fn copy_map(&self) -> (r: CodeDict)
        ensures
            r.entries() == self.entries(),
    {
        let mut entries: Vec<(u16, usize)> = Vec::new();
        let mut i: usize = 0;
        while i < self.entries.len()
            invariant
                i <= self.entries().len(),
                entries@ == self.entries().take(i as int),
            decreases self.entries().len() - i,
        {
            let p = &self.entries[i];
            entries.push((p.0, p.1));
            proof {
                assert(entries@ =~= self.entries().take(i + 1));
            }
            i += 1;
        }
        let r = CodeDict { entries };
        proof {
            assert(self.entries().take(self.entries().len() as int) =~= self.entries());
        }
        r
    }
}

} // verus!
