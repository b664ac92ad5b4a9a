//! A set of key names held as a sorted, duplicate-free vector of
//! strings, in byte order. The recorder keeps the keys that are
//! currently held down in such a set; the key lists a snapshot carries
//! are rendered from it in the canonical rank-then-lex order, so each
//! list is a deterministic function of the set of keys.

use vstd::prelude::*;

use crate::strkit::{key_lt, lemma_key_lt_connected, lemma_key_lt_irreflexive,
    lemma_key_lt_transitive, str_eq, str_lt};

verus! {

/// The views of a sequence of strings.
pub open spec fn key_views(items: Seq<String>) -> Seq<Seq<char>> {
    items.map_values(|s: String| s@)
}

/// Strictly ascending in byte order: sorted with no duplicates.
pub open spec fn strictly_sorted(keys: Seq<Seq<char>>) -> bool {
    forall|i: int, j: int| 0 <= i < j < keys.len() ==> key_lt(keys[i], keys[j])
}

/// A set of key names, held sorted and duplicate-free.
#[derive(Debug, Clone)]
pub struct KeySet {
    pub items: Vec<String>,
}

impl KeySet {
    /// The key names in the set, in ascending byte order.
    pub open spec fn keys(self) -> Seq<Seq<char>> {
        key_views(self.items@)
    }

    /// Sorted and duplicate-free.
    pub open spec fn well_formed(self) -> bool {
        strictly_sorted(self.keys())
    }

    /// Whether `k` is in the set.
    pub open spec fn has(self, k: Seq<char>) -> bool {
        self.keys().contains(k)
    }

    /// The key names as a set.
    pub open spec fn key_set(self) -> Set<Seq<char>> {
        self.keys().to_set()
    }

    /// The empty set.
    pub fn new() -> (s: KeySet)
        ensures
            s.well_formed(),
            s.keys() =~= Seq::<Seq<char>>::empty(),
            s.key_set() =~= Set::<Seq<char>>::empty(),
    {
        KeySet { items: Vec::new() }
    }

    /// How many keys the set holds.
    pub fn len(&self) -> (n: usize)
        ensures
            n == self.keys().len(),
    {
        self.items.len()
    }

    /// Whether the set holds `key`.
    pub fn contains(&self, key: &str) -> (r: bool)
        ensures
            r == self.has(key@),
    {
        let n = self.items.len();
        let mut i: usize = 0;
        while i < n
            invariant
                i <= n,
                n == self.items@.len(),
                forall|j: int| 0 <= j < i ==> self.keys()[j] != key@,
            decreases n - i,
        {
            if str_eq(self.items[i].as_str(), key) {
                assert(self.keys()[i as int] == key@);
                return true;
            }
            i = i + 1;
        }
        proof {
            if self.has(key@) {
                let w = choose|w: int| 0 <= w < self.keys().len() && self.keys()[w] == key@;
                assert(self.keys()[w] != key@);
            }
        }
        false
    }

    /// Add `key`; a key already present is left alone.
    pub fn insert(&mut self, key: &str)
        requires
            old(self).well_formed(),
        ensures
            final(self).well_formed(),
            forall|k: Seq<char>|
                final(self).has(k) <==> (old(self).has(k) || k == key@),
            final(self).key_set() =~= old(self).key_set().insert(key@),
    {
        let n = self.items.len();
        let mut pos: usize = 0;
        while pos < n && str_lt(self.items[pos].as_str(), key)
            invariant
                pos <= n,
                n == self.items@.len(),
                self == old(self),
                forall|j: int| 0 <= j < pos ==> key_lt(self.keys()[j], key@),
            decreases n - pos,
        {
            pos = pos + 1;
        }
        if pos < n && str_eq(self.items[pos].as_str(), key) {
            proof {
                assert(self.keys()[pos as int] == key@);
                assert forall|k: Seq<char>|
                self.key_set().contains(k) <==> old(self).key_set().insert(key@).contains(k) by {
                assert(self.has(k) <==> (old(self).has(k) || k == key@));
            }
            assert(self.key_set() =~= old(self).key_set().insert(key@));
            }
            return;
        }
        proof {
            if pos < n {
                if !key_lt(key@, self.keys()[pos as int]) {
                    lemma_key_lt_connected(self.keys()[pos as int], key@);
                }
                assert(key_lt(key@, self.keys()[pos as int]));
            }
            // Everything at or after the insertion point is above the key.
            assert forall|j: int| pos <= j < n implies key_lt(key@, self.keys()[j]) by {
                if j > pos {
                    lemma_key_lt_transitive(key@, self.keys()[pos as int], self.keys()[j]);
                }
            }
        }
        let ghost old_keys = self.keys();
        self.items.insert(pos, String::from_str(key));
        proof {
            let new_keys = self.keys();
            assert(new_keys =~= old_keys.subrange(0, pos as int) + seq![key@]
                + old_keys.subrange(pos as int, old_keys.len() as int));
            assert(new_keys[pos as int] == key@);
            assert forall|i: int, j: int| 0 <= i < j < new_keys.len()
                implies key_lt(new_keys[i], new_keys[j]) by {
                if i < pos {
                    assert(new_keys[i] == old_keys[i]);
                } else if i > pos {
                    assert(new_keys[i] == old_keys[i - 1]);
                }
                if j < pos {
                    assert(new_keys[j] == old_keys[j]);
                } else if j > pos {
                    assert(new_keys[j] == old_keys[j - 1]);
                }
            }
            assert forall|k: Seq<char>|
                self.has(k) <==> (old(self).has(k) || k == key@) by {
                if old(self).has(k) {
                    let w = choose|w: int| 0 <= w < old_keys.len() && old_keys[w] == k;
                    if w < pos {
                        assert(new_keys[w] == k);
                    } else {
                        assert(new_keys[w + 1] == k);
                    }
                }
                if self.has(k) && k != key@ {
                    let w = choose|w: int| 0 <= w < new_keys.len() && new_keys[w] == k;
                    if w < pos {
                        assert(old_keys[w] == k);
                    } else {
                        assert(w != pos);
                        assert(old_keys[w - 1] == k);
                    }
                }
            }
            assert forall|k: Seq<char>|
                self.key_set().contains(k) <==> old(self).key_set().insert(key@).contains(k) by {
                assert(self.has(k) <==> (old(self).has(k) || k == key@));
            }
            assert(self.key_set() =~= old(self).key_set().insert(key@));
        }
    }

    /// Take `key` out; a key not present is no error.
    pub fn remove(&mut self, key: &str)
        requires
            old(self).well_formed(),
        ensures
            final(self).well_formed(),
            forall|k: Seq<char>|
                final(self).has(k) <==> (old(self).has(k) && k != key@),
            final(self).key_set() =~= old(self).key_set().remove(key@),
    {
        let n = self.items.len();
        let mut i: usize = 0;
        while i < n
            invariant
                i <= n,
                n == self.items@.len(),
                self == old(self),
                self.well_formed(),
                forall|j: int| 0 <= j < i ==> self.keys()[j] != key@,
            decreases n - i,
        {
            if str_eq(self.items[i].as_str(), key) {
                let ghost old_keys = self.keys();
                self.items.remove(i);
                proof {
                    let new_keys = self.keys();
                    assert(old_keys[i as int] == key@);
                    assert(new_keys =~= old_keys.subrange(0, i as int)
                        + old_keys.subrange(i as int + 1, old_keys.len() as int));
                    assert forall|a: int, b: int| 0 <= a < b < new_keys.len()
                        implies key_lt(new_keys[a], new_keys[b]) by {
                        let ua: int = if a < i { a } else { a + 1 };
                        let ub: int = if b < i { b } else { b + 1 };
                        assert(new_keys[a] == old_keys[ua]);
                        assert(new_keys[b] == old_keys[ub]);
                        assert(key_lt(old_keys[ua], old_keys[ub]));
                    }
                    assert forall|k: Seq<char>|
                        self.has(k) <==> (old(self).has(k) && k != key@) by {
                        if self.has(k) {
                            let w = choose|w: int| 0 <= w < new_keys.len() && new_keys[w] == k;
                            if w < i {
                                assert(old_keys[w] == k);
                                assert(old_keys[w] != key@);
                            } else {
                                assert(old_keys[w + 1] == k);
                                assert(key_lt(old_keys[i as int], old_keys[w + 1]));
                                lemma_key_lt_irreflexive(key@);
                            }
                        }
                        if old(self).has(k) && k != key@ {
                            let w = choose|w: int| 0 <= w < old_keys.len() && old_keys[w] == k;
                            if w < i {
                                assert(new_keys[w] == k);
                            } else {
                                assert(w != i);
                                assert(new_keys[w - 1] == k);
                            }
                        }
                    }
                    assert forall|k: Seq<char>|
                        self.key_set().contains(k) <==> old(self).key_set().remove(
                            key@,
                        ).contains(k) by {
                        assert(self.has(k) <==> (old(self).has(k) && k != key@));
                    }
                    assert(self.key_set() =~= old(self).key_set().remove(key@));
                }
                return;
            }
            i = i + 1;
        }
        proof {
            if old(self).has(key@) {
                let w = choose|w: int| 0 <= w < self.keys().len() && self.keys()[w] == key@;
                assert(self.keys()[w] != key@);
            }
            assert(self.key_set() =~= old(self).key_set().remove(key@));
        }
    }

    /// A copy of the set.
    pub fn duplicate(&self) -> (s: KeySet)
        ensures
            s.keys() == self.keys(),
    {
        KeySet { items: self.to_sorted_vec() }
    }

    /// The keys as a vector of strings, in ascending byte order.
    pub fn to_sorted_vec(&self) -> (out: Vec<String>)
        ensures
            key_views(out@) == self.keys(),
    {
        let n = self.items.len();
        let mut out: Vec<String> = Vec::new();
        let mut i: usize = 0;
        while i < n
            invariant
                i <= n,
                n == self.items@.len(),
                key_views(out@) =~= self.keys().take(i as int),
            decreases n - i,
        {
            let ghost prev_views = key_views(out@);
            out.push(self.items[i].clone());
            proof {
                assert(key_views(out@) =~= prev_views.push(self.items@[i as int]@));
                assert(self.keys().take(i as int + 1) =~= self.keys().take(
                    i as int,
                ).push(self.keys()[i as int]));
                assert(key_views(out@) =~= self.keys().take(i as int + 1));
            }
            i = i + 1;
        }
        proof {
            assert(self.keys().take(n as int) =~= self.keys());
        }
        out
    }
}

/// Two strictly sorted key sequences holding the same keys are the same
/// sequence: a sorted key list is a deterministic function of its set.
pub proof fn lemma_strictly_sorted_unique(a: Seq<Seq<char>>, b: Seq<Seq<char>>)
    requires
        strictly_sorted(a),
        strictly_sorted(b),
        forall|k: Seq<char>| a.contains(k) <==> b.contains(k),
    ensures
        a == b,
    decreases a.len(),
{
    if a.len() == 0 {
        if b.len() > 0 {
            assert(a.contains(b[0]));
        }
        assert(a =~= b);
    } else {
        assert(b.contains(a[0]));
        assert(a.contains(b[0]));
        let ia = choose|i: int| 0 <= i < a.len() && a[i] == b[0];
        let ib = choose|i: int| 0 <= i < b.len() && b[i] == a[0];
        if a[0] != b[0] {
            // The two heads would each have to sit strictly after the other.
            assert(ia > 0 && ib > 0);
            assert(key_lt(a[0], a[ia]));
            assert(key_lt(b[0], b[ib]));
            lemma_key_lt_transitive(a[0], b[0], a[0]);
            lemma_key_lt_irreflexive(a[0]);
        }
        let at = a.drop_first();
        let bt = b.drop_first();
        assert forall|k: Seq<char>| at.contains(k) <==> bt.contains(k) by {
            lemma_head_not_in_tail(a);
            lemma_head_not_in_tail(b);
            if at.contains(k) {
                let w = choose|w: int| 0 <= w < at.len() && at[w] == k;
                assert(a[w + 1] == k);
                assert(b.contains(k));
                assert(k != b[0]);
                let v = choose|v: int| 0 <= v < b.len() && b[v] == k;
                assert(bt[v - 1] == k);
            }
            if bt.contains(k) {
                let w = choose|w: int| 0 <= w < bt.len() && bt[w] == k;
                assert(b[w + 1] == k);
                assert(a.contains(k));
                assert(k != a[0]);
                let v = choose|v: int| 0 <= v < a.len() && a[v] == k;
                assert(at[v - 1] == k);
            }
        }
        assert(strictly_sorted(at)) by {
            assert forall|i: int, j: int| 0 <= i < j < at.len()
                implies key_lt(at[i], at[j]) by {
                assert(a[i + 1] == at[i]);
                assert(a[j + 1] == at[j]);
            }
        }
        assert(strictly_sorted(bt)) by {
            assert forall|i: int, j: int| 0 <= i < j < bt.len()
                implies key_lt(bt[i], bt[j]) by {
                assert(b[i + 1] == bt[i]);
                assert(b[j + 1] == bt[j]);
            }
        }
        lemma_strictly_sorted_unique(at, bt);
        assert(a =~= seq![a[0]] + at);
        assert(b =~= seq![b[0]] + bt);
    }
}

/// The head of a strictly sorted sequence does not repeat in its tail.
proof fn lemma_head_not_in_tail(a: Seq<Seq<char>>)
    requires
        strictly_sorted(a),
        a.len() > 0,
    ensures
        !a.drop_first().contains(a[0]),
{
    let t = a.drop_first();
    if t.contains(a[0]) {
        let w = choose|w: int| 0 <= w < t.len() && t[w] == a[0];
        assert(a[w + 1] == a[0]);
        assert(key_lt(a[0], a[w + 1]));
        lemma_key_lt_irreflexive(a[0]);
    }
}

} // verus!
