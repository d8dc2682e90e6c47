//! A map from names to values, kept in name order, as the scene table of a
//! project and of a running game are.
use vstd::prelude::*;
use crate::text::{text_less, text_before, same_text, lemma_text_less_transitive,
    lemma_text_less_irreflexive, lemma_text_less_total};

verus! {

/// Names in strictly increasing text order.
pub open spec fn names_sorted(keys: Seq<Seq<char>>) -> bool {
    forall|i: int, j: int| 0 <= i < j < keys.len() ==> text_less(#[trigger] keys[i], #[trigger] keys[j])
}

/// Position of `k` in `keys`, searching from `i`; `keys.len()` when absent.
pub open spec fn position_from(keys: Seq<Seq<char>>, k: Seq<char>, i: int) -> int
    decreases keys.len() - i,
{
    if i >= keys.len() {
        keys.len() as int
    } else if keys[i] == k {
        i
    } else {
        position_from(keys, k, i + 1)
    }
}

/// Position of `k` in `keys`; `keys.len()` when absent.
pub open spec fn position(keys: Seq<Seq<char>>, k: Seq<char>) -> int {
    position_from(keys, k, 0)
}

pub proof fn lemma_position_from(keys: Seq<Seq<char>>, k: Seq<char>, i: int)
    requires
        0 <= i <= keys.len(),
    ensures
        i <= position_from(keys, k, i) <= keys.len(),
        position_from(keys, k, i) < keys.len() ==> keys[position_from(keys, k, i)] == k,
        forall|j: int| i <= j < position_from(keys, k, i) ==> keys[j] != k,
    decreases keys.len() - i,
{
    if i < keys.len() && keys[i] != k {
        lemma_position_from(keys, k, i + 1);
    }
}

/// Facts about `position`: it is where `k` stands, or the length when `k` is absent.
pub proof fn lemma_position(keys: Seq<Seq<char>>, k: Seq<char>)
    ensures
        0 <= position(keys, k) <= keys.len(),
        position(keys, k) < keys.len() <==> keys.contains(k),
        position(keys, k) < keys.len() ==> keys[position(keys, k)] == k,
        forall|j: int| 0 <= j < position(keys, k) ==> keys[j] != k,
{
    lemma_position_from(keys, k, 0);
    if keys.contains(k) {
        let j = choose|j: int| 0 <= j < keys.len() && keys[j] == k;
        assert(j >= position(keys, k));
    }
}

/// In sorted names, an entry is found exactly at its index.
pub proof fn lemma_position_sorted(keys: Seq<Seq<char>>, i: int)
    requires
        names_sorted(keys),
        0 <= i < keys.len(),
    ensures
        position(keys, keys[i]) == i,
{
    lemma_position(keys, keys[i]);
    let p = position(keys, keys[i]);
    if p < i {
        assert(text_less(keys[p], keys[i]));
        lemma_text_less_irreflexive(keys[i]);
    }
}

/// A table of named values with distinct names, kept in name order.
pub struct NameMap<V> {
    entries: Vec<(String, V)>,
}

impl<V> NameMap<V> {
    /// The names, in increasing order.
    pub closed spec fn keys(self) -> Seq<Seq<char>> {
        self.entries@.map_values(|e: (String, V)| e.0@)
    }

    /// The values, in the order of their names.
    pub closed spec fn vals(self) -> Seq<V> {
        self.entries@.map_values(|e: (String, V)| e.1)
    }

    /// Well-formedness: one value per name, names strictly increasing.
    pub open spec fn wf(self) -> bool {
        &&& self.keys().len() == self.vals().len()
        &&& names_sorted(self.keys())
    }

    /// The value stored under `k`, if any.
    pub open spec fn lookup(self, k: Seq<char>) -> Option<V> {
        let p = position(self.keys(), k);
        if p < self.keys().len() {
            Some(self.vals()[p])
        } else {
            None
        }
    }

    proof fn lemma_lengths(self)
        ensures
            self.keys().len() == self.entries@.len(),
            self.vals().len() == self.entries@.len(),
            forall|i: int| 0 <= i < self.entries@.len() ==> #[trigger] self.keys()[i] == self.entries@[i].0@,
            forall|i: int| 0 <= i < self.entries@.len() ==> #[trigger] self.vals()[i] == self.entries@[i].1,
    {
    }

    /// An empty table.
    pub fn new() -> (m: Self)
        ensures
            m.wf(),
            m.keys().len() == 0,
    {
        NameMap { entries: Vec::new() }
    }

    /// Number of names.
    pub fn len(&self) -> (n: usize)
        requires
            self.wf(),
        ensures
            n == self.keys().len(),
    {
        self.entries.len()
    }

    /// The `i`-th name in name order.
    pub fn key_at(&self, i: usize) -> (k: &String)
        requires
            self.wf(),
            i < self.keys().len(),
        ensures
            k@ == self.keys()[i as int],
    {
        &self.entries[i].0
    }

    /// The value of the `i`-th name in name order.
    pub fn value_at(&self, i: usize) -> (v: &V)
        requires
            self.wf(),
            i < self.keys().len(),
        ensures
            *v == self.vals()[i as int],
    {
        &self.entries[i].1
    }

    /// Index of `k`, or the number of names when absent.
    pub fn find(&self, k: &str) -> (i: usize)
        requires
            self.wf(),
        ensures
            i == position(self.keys(), k@),
    {
        let n = self.entries.len();
        let mut i: usize = 0;
        while i < n
            invariant
                n == self.keys().len(),
                self.wf(),
                i <= n,
                position_from(self.keys(), k@, i as int) == position(self.keys(), k@),
            decreases n - i,
        {
            if same_text(self.entries[i].0.as_str(), k) {
                return i;
            }
            i = i + 1;
        }
        i
    }

    /// The value stored under `k`, if any.
    pub fn get(&self, k: &str) -> (r: Option<&V>)
        requires
            self.wf(),
        ensures
            r == (match self.lookup(k@) {
                Some(v) => Some(&v),
                None => None,
            }),
    {
        let i = self.find(k);
        if i < self.entries.len() {
            Some(&self.entries[i].1)
        } else {
            None
        }
    }

    /// Whether a value is stored under `k`.
    pub fn contains_key(&self, k: &str) -> (r: bool)
        requires
            self.wf(),
        ensures
            r == self.keys().contains(k@),
    {
        proof {
            lemma_position(self.keys(), k@);
        }
        self.find(k) < self.entries.len()
    }

    /// Stores `v` under `k`, replacing any value stored there before.
    pub fn insert(&mut self, k: String, v: V)
        requires
            old(self).wf(),
        ensures
            final(self).wf(),
            final(self).keys().to_set() == old(self).keys().to_set().insert(k@),
            final(self).lookup(k@) == Some(v),
            forall|q: Seq<char>| q != k@ ==> #[trigger] final(self).lookup(q) == old(self).lookup(q),
    {
        let n = self.entries.len();
        let mut i: usize = 0;
        while i < n && text_before(self.entries[i].0.as_str(), k.as_str())
            invariant
                n == self.entries@.len(),
                self.wf(),
                i <= n,
                forall|j: int| 0 <= j < i ==> text_less(#[trigger] self.keys()[j], k@),
            decreases n - i,
        {
            i = i + 1;
        }
        let ghost old_keys = self.keys();
        let ghost old_vals = self.vals();
        proof {
            lemma_position(old_keys, k@);
        }
        if i < n && same_text(self.entries[i].0.as_str(), k.as_str()) {
            self.entries.set(i, (k, v));
            proof {
                assert(self.keys() =~= old_keys);
                assert(self.vals() =~= old_vals.update(i as int, v));
                lemma_position_sorted(old_keys, i as int);
                assert forall|q: Seq<char>| q != k@ implies #[trigger] self.lookup(q) == old(self).lookup(q) by {
                    lemma_position(old_keys, q);
                }
                assert(self.keys().to_set() =~= old_keys.to_set().insert(k@));
            }
        } else {
            proof {
                assert forall|j: int| i <= j < n implies text_less(k@, #[trigger] old_keys[j]) by {
                    if j == i {
                        lemma_text_less_total(k@, old_keys[j]);
                    } else {
                        lemma_text_less_total(k@, old_keys[i as int]);
                        lemma_text_less_transitive(k@, old_keys[i as int], old_keys[j]);
                    }
                }
                assert(!old_keys.contains(k@)) by {
                    if old_keys.contains(k@) {
                        let j = choose|j: int| 0 <= j < old_keys.len() && old_keys[j] == k@;
                        lemma_text_less_irreflexive(k@);
                    }
                }
            }
            self.entries.insert(i, (k, v));
            proof {
                let ghost kk = k@;
                assert(self.keys() =~= old_keys.insert(i as int, kk));
                assert(self.vals() =~= old_vals.insert(i as int, v));
                assert(names_sorted(self.keys())) by {
                    assert forall|a: int, b: int| 0 <= a < b < self.keys().len() implies text_less(
                        #[trigger] self.keys()[a],
                        #[trigger] self.keys()[b],
                    ) by {
                        if b < i {
                        } else if a < i && b == i {
                        } else if a < i && b > i {
                            lemma_text_less_transitive(old_keys[a], kk, old_keys[b - 1]);
                        } else if a == i {
                        } else {
                        }
                    }
                }
                lemma_position(self.keys(), kk);
                lemma_position_sorted(self.keys(), i as int);
                assert forall|q: Seq<char>| q != kk implies #[trigger] self.lookup(q) == old(self).lookup(q) by {
                    lemma_position(old_keys, q);
                    lemma_position(self.keys(), q);
                    if old_keys.contains(q) {
                        let p = position(old_keys, q);
                        lemma_position_sorted(old_keys, p);
                        if p < i {
                            lemma_position_sorted(self.keys(), p);
                        } else {
                            lemma_position_sorted(self.keys(), p + 1);
                        }
                    } else {
                        if self.keys().contains(q) {
                            let j = choose|j: int| 0 <= j < self.keys().len() && self.keys()[j] == q;
                            if j < i {
                                assert(old_keys[j] == q);
                            } else if j > i {
                                assert(old_keys[j - 1] == q);
                            }
                        }
                    }
                }
                assert forall|q: Seq<char>| #[trigger] self.keys().contains(q) implies old_keys.contains(q) || q == kk by {
                    let j = choose|j: int| 0 <= j < self.keys().len() && self.keys()[j] == q;
                    if j < i {
                        assert(old_keys[j] == q);
                    } else if j > i {
                        assert(old_keys[j - 1] == q);
                    }
                }
                assert forall|q: Seq<char>| #[trigger] old_keys.contains(q) implies self.keys().contains(q) by {
                    let j = choose|j: int| 0 <= j < old_keys.len() && old_keys[j] == q;
                    if j < i {
                        assert(self.keys()[j] == q);
                    } else {
                        assert(self.keys()[j + 1] == q);
                    }
                }
                assert(self.keys()[i as int] == kk);
                assert(self.keys().to_set() =~= old_keys.to_set().insert(kk));
            }
        }
    }
}

impl NameMap<String> {
    /// A copy with the same names and texts.
    pub fn copy(&self) -> (r: Self)
        requires
            self.wf(),
        ensures
            r.wf(),
            r.keys() == self.keys(),
            r.vals() == self.vals(),
    {
        let mut entries: Vec<(String, String)> = Vec::new();
        let n = self.entries.len();
        let mut i: usize = 0;
        while i < n
            invariant
                n == self.entries@.len(),
                i <= n,
                entries@ == self.entries@.subrange(0, i as int),
            decreases n - i,
        {
            let e = &self.entries[i];
            entries.push((e.0.clone(), e.1.clone()));
            i = i + 1;
        }
        assert(entries@ =~= self.entries@);
        NameMap { entries }
    }
}

} // verus!
