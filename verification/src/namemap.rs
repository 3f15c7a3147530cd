//! An ordered map from names (strings) to values, kept as parallel vectors
//! sorted by key.  The ordering makes serialization and snapshot assembly
//! deterministic.

use vstd::prelude::*;
use vstd::pervasive::VecAdditionalExecFns;
use crate::strutil::{lex_lt, str_lt, str_eq, lemma_lex_trichotomy, lemma_lex_lt_trans};

verus! {

/// An ordered map from names to values.
///
/// Keys are unique and kept sorted in lexicographic order by code point;
/// iteration by index therefore enumerates entries in key order.
#[derive(Debug, Clone, PartialEq)]
pub struct NameMap<V> {
    /// The keys, sorted; parallel to `vals`.
    pub keys: Vec<String>,
    /// The values; `vals[i]` belongs to `keys[i]`.
    pub vals: Vec<V>,
}

impl<V> NameMap<V> {
    /// The keys, as character sequences, in storage order.
    pub open spec fn key_seq(self) -> Seq<Seq<char>> {
        self.keys@.map_values(|s: String| s@)
    }

    /// The values in storage order.
    pub open spec fn val_seq(self) -> Seq<V> {
        self.vals@
    }

    /// The number of entries.
    pub open spec fn spec_len(self) -> nat {
        self.keys@.len()
    }

    /// Well-formed: as many values as keys, and keys strictly sorted.
    pub open spec fn wf(self) -> bool {
        &&& self.keys@.len() == self.vals@.len()
        &&& forall|i: int, j: int|
            0 <= i < j < self.keys@.len() ==> lex_lt(self.key_seq()[i], self.key_seq()[j])
    }

    /// Index of the first entry with the given key, scanning from `i`;
    /// the length if there is none.
    pub open spec fn idx_of_from(self, k: Seq<char>, i: int) -> int
        decreases self.spec_len() - i,
    {
        if i < 0 || i >= self.spec_len() {
            self.spec_len() as int
        } else if self.key_seq()[i] == k {
            i
        } else {
            self.idx_of_from(k, i + 1)
        }
    }

    /// Index of the entry with the given key, or the length if absent.
    pub open spec fn idx_of(self, k: Seq<char>) -> int {
        self.idx_of_from(k, 0)
    }

    /// Whether the map holds the given key.
    pub open spec fn has_key(self, k: Seq<char>) -> bool {
        self.idx_of(k) < self.spec_len()
    }

    /// The value stored under a key that the map holds.
    pub open spec fn spec_get(self, k: Seq<char>) -> V {
        self.val_seq()[self.idx_of(k)]
    }

    /// The scan finds the first match at or after its starting point.
    proof fn lemma_idx_of_from(self, k: Seq<char>, i: int)
        requires
            0 <= i <= self.spec_len(),
        ensures
            i <= self.idx_of_from(k, i) <= self.spec_len(),
            self.idx_of_from(k, i) < self.spec_len() ==> self.key_seq()[self.idx_of_from(k, i)]
                == k,
            forall|j: int|
                i <= j < self.idx_of_from(k, i) ==> self.key_seq()[j] != k,
            self.idx_of_from(k, i) == self.spec_len() ==> forall|j: int|
                i <= j < self.spec_len() ==> self.key_seq()[j] != k,
        decreases self.spec_len() - i,
    {
        if i < self.spec_len() && self.key_seq()[i] != k {
            self.lemma_idx_of_from(k, i + 1);
        }
    }

    /// What `idx_of` promises: it finds the key if and only if it is there,
    /// and nothing before it matches.
    pub proof fn lemma_idx_of(self, k: Seq<char>)
        ensures
            0 <= self.idx_of(k) <= self.spec_len(),
            self.idx_of(k) < self.spec_len() ==> self.key_seq()[self.idx_of(k)] == k,
            forall|j: int| 0 <= j < self.idx_of(k) ==> self.key_seq()[j] != k,
            self.idx_of(k) == self.spec_len() ==> forall|j: int|
                0 <= j < self.spec_len() ==> self.key_seq()[j] != k,
    {
        self.lemma_idx_of_from(k, 0);
    }

    /// Create an empty map.
    pub fn new() -> (m: NameMap<V>)
        ensures
            m.wf(),
            m.spec_len() == 0,
    {
        NameMap { keys: Vec::new(), vals: Vec::new() }
    }

    /// The number of entries.
    pub fn len(&self) -> (r: usize)
        ensures
            r == self.spec_len(),
    {
        self.keys.len()
    }

    /// Whether the map is empty.
    pub fn is_empty(&self) -> (r: bool)
        ensures
            r == (self.spec_len() == 0),
    {
        self.keys.len() == 0
    }

    /// The key of the entry at an index.
    pub fn key_at(&self, i: usize) -> (r: &String)
        requires
            i < self.spec_len(),
        ensures
            r@ == self.key_seq()[i as int],
    {
        &self.keys[i]
    }

    /// The value of the entry at an index.
    pub fn val_at(&self, i: usize) -> (r: &V)
        requires
            self.wf(),
            i < self.spec_len(),
        ensures
            *r == self.val_seq()[i as int],
    {
        &self.vals[i]
    }

    /// Replace the value at an index, returning the previous one.
    pub fn replace_at(&mut self, i: usize, v: V) -> (prev: V)
        requires
            old(self).wf(),
            i < old(self).spec_len(),
        ensures
            final(self).wf(),
            final(self).key_seq() == old(self).key_seq(),
            final(self).val_seq() == old(self).val_seq().update(i as int, v),
            prev == old(self).val_seq()[i as int],
            final(self).spec_len() == old(self).spec_len(),
            forall|k: Seq<char>| final(self).idx_of(k) == old(self).idx_of(k),
    {
        let mut x = v;
        self.vals.set_and_swap(i, &mut x);
        proof {
            assert(self.key_seq() =~= old(self).key_seq());
            assert forall|k: Seq<char>| self.idx_of(k) == old(self).idx_of(k) by {
                self.lemma_idx_of_eq(*old(self), k, 0);
            }
        }
        x
    }

    /// Scans over equal key sequences find the same index.
    pub proof fn lemma_idx_of_eq(self, other: NameMap<V>, k: Seq<char>, i: int)
        requires
            self.key_seq() == other.key_seq(),
        ensures
            self.idx_of_from(k, i) == other.idx_of_from(k, i),
        decreases self.spec_len() - i,
    {
        assert(self.key_seq().len() == self.keys@.len());
        assert(other.key_seq().len() == other.keys@.len());
        assert(self.spec_len() == other.spec_len());
        if 0 <= i < self.spec_len() && self.key_seq()[i] != k {
            assert(other.key_seq()[i] != k);
            self.lemma_idx_of_eq(other, k, i + 1);
        }
    }

    /// Look up the index of a key.
    pub fn index_of(&self, k: &str) -> (r: Option<usize>)
        requires
            self.wf(),
        ensures
            r is Some <==> self.has_key(k@),
            r is Some ==> r->Some_0 == self.idx_of(k@),
    {
        proof {
            self.lemma_idx_of(k@);
        }
        let n = self.keys.len();
        let mut i: usize = 0;
        while i < n
            invariant
                i <= n,
                n == self.spec_len(),
                self.wf(),
                forall|j: int| 0 <= j < i ==> self.key_seq()[j] != k@,
            decreases n - i,
        {
            if str_eq(self.keys[i].as_str(), k) {
                proof {
                    self.lemma_idx_of(k@);
                    assert(self.key_seq()[i as int] == k@);
                    let ix = self.idx_of(k@);
                    if ix < i as int {
                        assert(self.key_seq()[ix] != k@);
                    } else if ix > i as int {
                        assert(self.key_seq()[i as int] != k@);
                    }
                }
                return Some(i);
            }
            i = i + 1;
        }
        None
    }

    /// Look up the value stored under a key.
    pub fn get(&self, k: &str) -> (r: Option<&V>)
        requires
            self.wf(),
        ensures
            r is Some <==> self.has_key(k@),
            r is Some ==> *r->Some_0 == self.spec_get(k@),
    {
        match self.index_of(k) {
            Some(i) => Some(&self.vals[i]),
            None => None,
        }
    }

    /// Insert a value under a key, replacing any previous value, and keeping
    /// the keys sorted.  Reports the index at which the entry now sits.
    pub fn insert(&mut self, k: &str, v: V) -> (idx: usize)
        requires
            old(self).wf(),
        ensures
            final(self).wf(),
            idx < final(self).spec_len(),
            idx <= old(self).spec_len(),
            final(self).key_seq()[idx as int] == k@,
            final(self).idx_of(k@) == idx,
            final(self).spec_len() == old(self).spec_len()
                + (if old(self).has_key(k@) { 0int } else { 1int }),
            old(self).has_key(k@) ==> {
                &&& final(self).key_seq() == old(self).key_seq()
                &&& final(self).val_seq() == old(self).val_seq().update(idx as int, v)
                &&& idx == old(self).idx_of(k@)
            },
            !old(self).has_key(k@) ==> {
                &&& final(self).key_seq() == old(self).key_seq().insert(idx as int, k@)
                &&& final(self).val_seq() == old(self).val_seq().insert(idx as int, v)
            },
    {
        proof {
            old(self).lemma_idx_of(k@);
        }
        let n = self.keys.len();
        // Find the insertion point: the first key not below `k`.
        let mut pos: usize = 0;
        while pos < n && str_lt(self.keys[pos].as_str(), k)
            invariant
                pos <= n,
                n == self.spec_len(),
                self.wf(),
                self == old(self),
                forall|j: int| 0 <= j < pos ==> lex_lt(self.key_seq()[j], k@),
            decreases n - pos,
        {
            pos = pos + 1;
        }
        if pos < n && str_eq(self.keys[pos].as_str(), k) {
            proof {
                assert forall|j: int| 0 <= j < pos implies self.key_seq()[j] != k@ by {
                    lemma_lex_trichotomy(self.key_seq()[j], k@);
                }
                self.lemma_idx_of(k@);
                assert(self.idx_of(k@) == pos) by {
                    if self.idx_of(k@) < pos {
                        assert(self.key_seq()[self.idx_of(k@)] != k@);
                    } else if self.idx_of(k@) > pos {
                        assert(self.key_seq()[pos as int] != k@);
                    }
                }
            }
            let _ = self.replace_at(pos, v);
            proof {
                self.lemma_idx_of_eq(*old(self), k@, 0);
            }
            pos
        } else {
            proof {
                // Everything before `pos` is strictly below `k`; everything
                // at and after is strictly above.
                if pos < n {
                    lemma_lex_trichotomy(self.key_seq()[pos as int], k@);
                }
                assert forall|j: int| pos <= j < n implies lex_lt(k@, self.key_seq()[j]) by {
                    lemma_lex_trichotomy(self.key_seq()[pos as int], k@);
                    if j > pos {
                        lemma_lex_lt_trans(k@, self.key_seq()[pos as int], self.key_seq()[j]);
                    }
                }
            }
            proof {
                assert(!old(self).has_key(k@)) by {
                    old(self).lemma_idx_of(k@);
                    let ix = old(self).idx_of(k@);
                    if ix < old(self).spec_len() {
                        assert(old(self).key_seq()[ix] == k@);
                        if ix < pos {
                            lemma_lex_trichotomy(old(self).key_seq()[ix], k@);
                        } else {
                            assert(lex_lt(k@, old(self).key_seq()[ix]));
                            lemma_lex_trichotomy(k@, old(self).key_seq()[ix]);
                        }
                    }
                }
            }
            let ks = k.to_owned();
            self.keys.insert(pos, ks);
            self.vals.insert(pos, v);
            proof {
                let fk = self.key_seq();
                assert(fk =~= old(self).key_seq().insert(pos as int, k@));
                assert forall|i: int, j: int| 0 <= i < j < fk.len() implies lex_lt(fk[i], fk[j])
                by {
                    lemma_lex_trichotomy(fk[i], fk[j]);
                }
                self.lemma_idx_of(k@);
                assert(self.idx_of(k@) == pos) by {
                    self.lemma_idx_of(k@);
                    if self.idx_of(k@) < pos {
                        assert(lex_lt(fk[self.idx_of(k@)], k@));
                        lemma_lex_trichotomy(fk[self.idx_of(k@)], k@);
                    } else if self.idx_of(k@) > pos {
                        assert(fk[pos as int] == k@);
                    }
                }
            }
            pos
        }
    }

    /// Append an entry whose key is above every key already present.
    pub fn push_max(&mut self, k: &str, v: V)
        requires
            old(self).wf(),
            forall|j: int|
                0 <= j < old(self).spec_len() ==> lex_lt(
                    #[trigger] old(self).key_seq()[j],
                    k@,
                ),
        ensures
            final(self).wf(),
            final(self).key_seq() == old(self).key_seq().push(k@),
            final(self).val_seq() == old(self).val_seq().push(v),
            final(self).spec_len() == old(self).spec_len() + 1,
    {
        let ks = k.to_owned();
        self.keys.push(ks);
        self.vals.push(v);
        proof {
            assert(self.key_seq() =~= old(self).key_seq().push(k@));
            let fk = self.key_seq();
            assert forall|i: int, j: int| 0 <= i < j < fk.len() implies lex_lt(fk[i], fk[j]) by {
                if j == fk.len() - 1 {
                    assert(fk[i] == old(self).key_seq()[i]);
                } else {
                    assert(fk[i] == old(self).key_seq()[i]);
                    assert(fk[j] == old(self).key_seq()[j]);
                }
            }
        }
    }

    /// Remove the entry under a key; reports whether one was there.
    pub fn remove(&mut self, k: &str) -> (r: bool)
        requires
            old(self).wf(),
        ensures
            final(self).wf(),
            r == old(self).has_key(k@),
            r ==> {
                &&& final(self).key_seq() == old(self).key_seq().remove(old(self).idx_of(k@))
                &&& final(self).val_seq() == old(self).val_seq().remove(old(self).idx_of(k@))
            },
            !r ==> *final(self) == *old(self),
    {
        proof {
            old(self).lemma_idx_of(k@);
        }
        match self.index_of(k) {
            Some(i) => {
                let _ = self.keys.remove(i);
                let _ = self.vals.remove(i);
                proof {
                    assert(self.key_seq()
                        =~= old(self).key_seq().remove(old(self).idx_of(k@)));
                }
                true
            },
            None => false,
        }
    }
}

} // verus!
