//! An insertion-ordered association list with string keys.
//!
//! The registries of this crate (relays, rooms, peer-to-room index,
//! connection states, monitor entries) all need a mapping from peer or
//! room identifiers to values that keeps insertion order for broadcasts.
//! `AssocVec` provides that: a vector of key/value pairs with unique keys,
//! viewed in specifications as a sequence of (key view, value view) pairs.

use vstd::prelude::*;
use crate::strutil::str_eq;

verus! {

/// No two entries share a key.
pub open spec fn unique_keys<T>(s: Seq<(Seq<char>, T)>) -> bool {
    forall|i: int, j: int| 0 <= i < j < s.len() ==> s[i].0 != s[j].0
}

/// Some entry holds the key `k`.
pub open spec fn assoc_has_key<T>(s: Seq<(Seq<char>, T)>, k: Seq<char>) -> bool {
    exists|i: int| 0 <= i < s.len() && s[i].0 == k
}

/// The index of the entry holding `k` (meaningful under `unique_keys`
/// when `assoc_has_key` holds).
pub open spec fn assoc_idx<T>(s: Seq<(Seq<char>, T)>, k: Seq<char>) -> int {
    choose|i: int| 0 <= i < s.len() && s[i].0 == k
}

/// The value stored under `k`.
pub open spec fn assoc_value<T>(s: Seq<(Seq<char>, T)>, k: Seq<char>) -> T {
    s[assoc_idx(s, k)].1
}

/// The sequence after an insert: an existing key is updated in place,
/// a new key is appended.
pub open spec fn assoc_insert<T>(s: Seq<(Seq<char>, T)>, k: Seq<char>, v: T) -> Seq<
    (Seq<char>, T),
> {
    if assoc_has_key(s, k) {
        s.update(assoc_idx(s, k), (k, v))
    } else {
        s.push((k, v))
    }
}

/// The sequence after a removal: absent keys leave it unchanged.
pub open spec fn assoc_remove<T>(s: Seq<(Seq<char>, T)>, k: Seq<char>) -> Seq<(Seq<char>, T)> {
    if assoc_has_key(s, k) {
        s.remove(assoc_idx(s, k))
    } else {
        s
    }
}

/// Under `unique_keys`, the chosen index is in range and holds the key.
pub proof fn lemma_assoc_idx<T>(s: Seq<(Seq<char>, T)>, k: Seq<char>)
    requires
        assoc_has_key(s, k),
    ensures
        0 <= assoc_idx(s, k) < s.len(),
        s[assoc_idx(s, k)].0 == k,
{
    let i = choose|i: int| 0 <= i < s.len() && s[i].0 == k;
    assert(0 <= i < s.len() && s[i].0 == k);
}

/// Under `unique_keys`, any index holding the key is the chosen one.
pub proof fn lemma_assoc_idx_unique<T>(s: Seq<(Seq<char>, T)>, k: Seq<char>, i: int)
    requires
        unique_keys(s),
        0 <= i < s.len(),
        s[i].0 == k,
    ensures
        assoc_idx(s, k) == i,
{
    lemma_assoc_idx(s, k);
    let w = assoc_idx(s, k);
    if w < i {
        assert(s[w].0 != s[i].0);
    } else if i < w {
        assert(s[i].0 != s[w].0);
    }
}

/// The keys of `s` other than `k`, in entry order.
pub open spec fn keys_except<T>(s: Seq<(Seq<char>, T)>, k: Seq<char>) -> Seq<Seq<char>>
    decreases s.len(),
{
    if s.len() == 0 {
        Seq::empty()
    } else {
        let rest = keys_except(s.drop_last(), k);
        if s.last().0 == k {
            rest
        } else {
            rest.push(s.last().0)
        }
    }
}

/// The sequence after removing every key in `ids`, in order.
pub open spec fn assoc_remove_all<T>(s: Seq<(Seq<char>, T)>, ids: Seq<Seq<char>>) -> Seq<
    (Seq<char>, T),
>
    decreases ids.len(),
{
    if ids.len() == 0 {
        s
    } else {
        assoc_remove(assoc_remove_all(s, ids.drop_last()), ids.last())
    }
}

/// Inserting under `k` keeps the keys unique, stores `v` under `k`, and
/// leaves every other key and its value alone.
pub proof fn lemma_assoc_insert_props<T>(s: Seq<(Seq<char>, T)>, k: Seq<char>, v: T)
    requires
        unique_keys(s),
    ensures
        unique_keys(assoc_insert(s, k, v)),
        assoc_has_key(assoc_insert(s, k, v), k),
        assoc_value(assoc_insert(s, k, v), k) == v,
        forall|q: Seq<char>|
            q != k ==> #[trigger] assoc_has_key(assoc_insert(s, k, v), q) == assoc_has_key(s, q),
        forall|q: Seq<char>|
            q != k && assoc_has_key(s, q) ==> #[trigger] assoc_value(assoc_insert(s, k, v), q)
                == assoc_value(s, q),
{
    let t = assoc_insert(s, k, v);
    if assoc_has_key(s, k) {
        lemma_assoc_idx(s, k);
        let i = assoc_idx(s, k);
        assert(forall|m: int| 0 <= m < t.len() && m != i ==> t[m] == s[m]);
        assert(unique_keys(t));
        assert(t[i].0 == k);
        lemma_assoc_idx_unique(t, k, i);
        assert(forall|q: Seq<char>|
            q != k && assoc_has_key(t, q) ==> #[trigger] assoc_has_key(s, q)) by {
            assert forall|q: Seq<char>| q != k && assoc_has_key(t, q) implies assoc_has_key(
                s,
                q,
            ) by {
                let j = choose|j: int| 0 <= j < t.len() && t[j].0 == q;
                assert(j != i);
                assert(s[j].0 == q);
            }
        }
        assert forall|q: Seq<char>| q != k && assoc_has_key(s, q) implies assoc_has_key(t, q)
            && assoc_value(t, q) == assoc_value(s, q) by {
            let j = choose|j: int| 0 <= j < s.len() && s[j].0 == q;
            assert(j != i);
            assert(t[j].0 == q);
            lemma_assoc_idx_unique(s, q, j);
            lemma_assoc_idx_unique(t, q, j);
        }
    } else {
        assert(t == s.push((k, v)));
        assert(forall|m: int| 0 <= m < s.len() ==> t[m] == s[m]);
        assert(t[s.len() as int].0 == k);
        assert(forall|m: int| 0 <= m < s.len() ==> s[m].0 != k);
        assert(unique_keys(t));
        lemma_assoc_idx_unique(t, k, s.len() as int);
        assert forall|q: Seq<char>| q != k && assoc_has_key(t, q) implies assoc_has_key(s, q) by {
            let j = choose|j: int| 0 <= j < t.len() && t[j].0 == q;
            assert(j != s.len());
            assert(s[j].0 == q);
        }
        assert forall|q: Seq<char>| q != k && assoc_has_key(s, q) implies assoc_has_key(t, q)
            && assoc_value(t, q) == assoc_value(s, q) by {
            let j = choose|j: int| 0 <= j < s.len() && s[j].0 == q;
            assert(t[j].0 == q);
            lemma_assoc_idx_unique(s, q, j);
            lemma_assoc_idx_unique(t, q, j);
        }
    }
}

/// Removing `k` keeps the keys unique, leaves `k` absent, and leaves
/// every other key and its value alone.
pub proof fn lemma_assoc_remove_props<T>(s: Seq<(Seq<char>, T)>, k: Seq<char>)
    requires
        unique_keys(s),
    ensures
        unique_keys(assoc_remove(s, k)),
        !assoc_has_key(assoc_remove(s, k), k),
        forall|q: Seq<char>|
            q != k ==> #[trigger] assoc_has_key(assoc_remove(s, k), q) == assoc_has_key(s, q),
        forall|q: Seq<char>|
            q != k && assoc_has_key(s, q) ==> #[trigger] assoc_value(assoc_remove(s, k), q)
                == assoc_value(s, q),
{
    let t = assoc_remove(s, k);
    if assoc_has_key(s, k) {
        lemma_assoc_idx(s, k);
        let i = assoc_idx(s, k);
        assert(forall|m: int|
            0 <= m < t.len() ==> t[m] == (if m < i {
                s[m]
            } else {
                s[m + 1]
            }));
        assert(unique_keys(t));
        assert forall|q: Seq<char>| q != k && assoc_has_key(t, q) implies assoc_has_key(
            s,
            q,
        ) by {
            let j = choose|j: int| 0 <= j < t.len() && t[j].0 == q;
            if j < i {
                assert(s[j].0 == q);
            } else {
                assert(s[j + 1].0 == q);
            }
        }
        assert(!assoc_has_key(t, k)) by {
            if assoc_has_key(t, k) {
                let j = choose|j: int| 0 <= j < t.len() && t[j].0 == k;
                if j < i {
                    assert(s[j].0 == k && s[i].0 == k);
                } else {
                    assert(s[j + 1].0 == k && s[i].0 == k);
                }
            }
        }
        assert forall|q: Seq<char>| q != k && assoc_has_key(s, q) implies assoc_has_key(t, q)
            && assoc_value(t, q) == assoc_value(s, q) by {
            let j = choose|j: int| 0 <= j < s.len() && s[j].0 == q;
            assert(j != i);
            if j < i {
                assert(t[j].0 == q);
                lemma_assoc_idx_unique(s, q, j);
                lemma_assoc_idx_unique(t, q, j);
            } else {
                assert(t[j - 1].0 == q);
                lemma_assoc_idx_unique(s, q, j);
                lemma_assoc_idx_unique(t, q, j - 1);
            }
        }
    }
}

/// Taking an entry out and restoring a replacement at the same spot is
/// an in-place insert.
pub proof fn lemma_extract_restore_is_insert<T>(s: Seq<(Seq<char>, T)>, k: Seq<char>, v: T)
    requires
        unique_keys(s),
        assoc_has_key(s, k),
    ensures
        s.remove(assoc_idx(s, k)).insert(assoc_idx(s, k), (k, v)) == assoc_insert(s, k, v),
{
    lemma_assoc_idx(s, k);
    assert(s.remove(assoc_idx(s, k)).insert(assoc_idx(s, k), (k, v)) =~= s.update(
        assoc_idx(s, k),
        (k, v),
    ));
}

/// An insertion-ordered mapping from string keys to values.
pub struct AssocVec<V> {
    entries: Vec<(String, V)>,
}

impl<V: View> View for AssocVec<V> {
    type V = Seq<(Seq<char>, V::V)>;

    closed spec fn view(&self) -> Seq<(Seq<char>, V::V)> {
        Seq::new(self.entries@.len() as nat, |i: int| (self.entries@[i].0@, self.entries@[i].1@))
    }
}

impl<V: View> AssocVec<V> {
    /// Keys are pairwise distinct; established by `new` and kept by
    /// every method.
    pub open spec fn wf(&self) -> bool {
        unique_keys(self@)
    }

    pub fn new() -> (r: Self)
        ensures
            r@ == Seq::<(Seq<char>, V::V)>::empty(),
            r.wf(),
    {
        let r = AssocVec { entries: Vec::new() };
        proof {
            assert(r@ =~= Seq::<(Seq<char>, V::V)>::empty());
        }
        r
    }

    pub fn len(&self) -> (n: usize)
        ensures
            n == self@.len(),
    {
        self.entries.len()
    }

    /// The key of the entry at position `i`.
    pub fn key_at(&self, i: usize) -> (r: &String)
        requires
            i < self@.len(),
        ensures
            r@ == self@[i as int].0,
    {
        &self.entries[i].0
    }

    /// The value of the entry at position `i`.
    pub fn value_at(&self, i: usize) -> (r: &V)
        requires
            i < self@.len(),
        ensures
            r@ == self@[i as int].1,
    {
        &self.entries[i].1
    }

    /// The position of the entry holding `k`, scanning from the front.
    fn find_index(&self, k: &str) -> (r: Option<usize>)
        ensures
            match r {
                Some(i) => i < self@.len() && self@[i as int].0 == k@,
                None => !assoc_has_key(self@, k@),
            },
    {
        let n = self.entries.len();
        let mut i: usize = 0;
        while i < n
            invariant
                n == self@.len(),
                i <= n,
                forall|j: int| 0 <= j < i ==> self@[j].0 != k@,
            decreases n - i,
        {
            if str_eq(self.entries[i].0.as_str(), k) {
                return Some(i);
            }
            i = i + 1;
        }
        None
    }

    pub fn contains_key(&self, k: &str) -> (r: bool)
        ensures
            r == assoc_has_key(self@, k@),
    {
        self.find_index(k).is_some()
    }

    pub fn get(&self, k: &str) -> (r: Option<&V>)
        requires
            self.wf(),
        ensures
            match r {
                Some(v) => assoc_has_key(self@, k@) && v@ == assoc_value(self@, k@),
                None => !assoc_has_key(self@, k@),
            },
    {
        match self.find_index(k) {
            Some(i) => {
                proof {
                    lemma_assoc_idx_unique(self@, k@, i as int);
                }
                Some(&self.entries[i].1)
            },
            None => None,
        }
    }

    /// Stores `v` under `k`, updating in place when the key is present
    /// and appending otherwise.
    pub fn insert(&mut self, k: String, v: V)
        requires
            old(self).wf(),
        ensures
            final(self).wf(),
            final(self)@ == assoc_insert(old(self)@, k@, v@),
    {
        let ghost s0 = self@;
        match self.find_index(k.as_str()) {
            Some(i) => {
                proof {
                    lemma_assoc_idx_unique(s0, k@, i as int);
                }
                self.entries.remove(i);
                self.entries.insert(i, (k, v));
                proof {
                    assert(self@ =~= s0.update(i as int, (k@, v@)));
                    assert(assoc_insert(s0, k@, v@) == s0.update(assoc_idx(s0, k@), (k@, v@)));
                    assert(unique_keys(self@)) by {
                        assert(forall|m: int| 0 <= m < self@.len() && m != i ==> self@[m] == s0[m]);
                    }
                }
            },
            None => {
                self.entries.push((k, v));
                proof {
                    assert(self@ =~= s0.push((k@, v@)));
                    assert(unique_keys(self@)) by {
                        assert(forall|m: int| 0 <= m < s0.len() ==> self@[m] == s0[m]);
                        assert(self@[s0.len() as int].0 == k@);
                        assert(forall|m: int| 0 <= m < s0.len() ==> s0[m].0 != k@);
                    }
                }
            },
        }
    }

    /// Removes the entry holding `k`, returning its value; a missing key
    /// leaves the mapping unchanged.
    pub fn remove(&mut self, k: &str) -> (r: Option<V>)
        requires
            old(self).wf(),
        ensures
            final(self).wf(),
            final(self)@ == assoc_remove(old(self)@, k@),
            match r {
                Some(v) => assoc_has_key(old(self)@, k@) && v@ == assoc_value(old(self)@, k@),
                None => !assoc_has_key(old(self)@, k@),
            },
    {
        let ghost s0 = self@;
        match self.find_index(k) {
            Some(i) => {
                proof {
                    lemma_assoc_idx_unique(s0, k@, i as int);
                }
                let (_, v) = self.entries.remove(i);
                proof {
                    assert(self@ =~= s0.remove(i as int));
                    assert(unique_keys(self@)) by {
                        assert(forall|m: int|
                            0 <= m < self@.len() ==> self@[m] == if m < i {
                                s0[m]
                            } else {
                                s0[m + 1]
                            });
                    }
                }
                Some(v)
            },
            None => None,
        }
    }

    /// Takes the entry holding `k` out, reporting its position so that
    /// `restore` can put a replacement back in the same place.
    pub fn extract(&mut self, k: &str) -> (r: Option<(usize, V)>)
        requires
            old(self).wf(),
        ensures
            final(self).wf(),
            match r {
                Some((i, v)) => assoc_has_key(old(self)@, k@) && i < old(self)@.len() && i
                    == assoc_idx(old(self)@, k@) && v@ == assoc_value(old(self)@, k@)
                    && final(self)@ == old(self)@.remove(i as int),
                None => !assoc_has_key(old(self)@, k@) && final(self)@ == old(self)@,
            },
    {
        let ghost s0 = self@;
        match self.find_index(k) {
            Some(i) => {
                proof {
                    lemma_assoc_idx_unique(s0, k@, i as int);
                }
                let (_, v) = self.entries.remove(i);
                proof {
                    assert(self@ =~= s0.remove(i as int));
                    assert(unique_keys(self@)) by {
                        assert(forall|m: int|
                            0 <= m < self@.len() ==> self@[m] == if m < i {
                                s0[m]
                            } else {
                                s0[m + 1]
                            });
                    }
                }
                Some((i, v))
            },
            None => None,
        }
    }

    /// Puts an entry back at position `i`; the key must be absent.
    pub fn restore(&mut self, i: usize, k: String, v: V)
        requires
            old(self).wf(),
            i <= old(self)@.len(),
            !assoc_has_key(old(self)@, k@),
        ensures
            final(self).wf(),
            final(self)@ == old(self)@.insert(i as int, (k@, v@)),
    {
        let ghost s0 = self@;
        self.entries.insert(i, (k, v));
        proof {
            assert(self@ =~= s0.insert(i as int, (k@, v@)));
            assert(unique_keys(self@)) by {
                assert(forall|m: int|
                    0 <= m < self@.len() && m != i ==> self@[m] == if m < i {
                        s0[m]
                    } else {
                        s0[m - 1]
                    });
                assert(self@[i as int].0 == k@);
                assert(forall|m: int| 0 <= m < s0.len() ==> s0[m].0 != k@);
            }
        }
    }

}

} // verus!
