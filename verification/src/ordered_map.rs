//! An ordered key-value collection with retrieve-and-remove of the next
//! entry after a position.
//!
//! This is the item source each iterating stage works on: entries are kept
//! in strictly increasing key order, and the driver repeatedly takes the
//! first entry whose key lies after the last visited one.

use vstd::prelude::*;

verus! {

/// Whether key `k` lies after position `after` (`None` is before all keys).
pub open spec fn above(after: Option<u64>, k: u64) -> bool {
    match after {
        None => true,
        Some(a) => k > a,
    }
}

/// Index of the first entry of `es` whose key lies after `after`;
/// `es.len()` when there is none.
pub open spec fn find_next<V>(es: Seq<(u64, V)>, after: Option<u64>) -> int
    decreases es.len(),
{
    if es.len() == 0 {
        0
    } else if above(after, es[0].0) {
        0
    } else {
        1 + find_next(es.subrange(1, es.len() as int), after)
    }
}

/// `es` with `(k, v)` put at its place in key order, replacing an entry
/// with the same key if there is one.
pub open spec fn insert_entry<V>(es: Seq<(u64, V)>, k: u64, v: V) -> Seq<(u64, V)>
    decreases es.len(),
{
    if es.len() == 0 {
        seq![(k, v)]
    } else if k < es[0].0 {
        seq![(k, v)] + es
    } else if k == es[0].0 {
        seq![(k, v)] + es.subrange(1, es.len() as int)
    } else {
        seq![es[0]] + insert_entry(es.subrange(1, es.len() as int), k, v)
    }
}

/// Entries are in strictly increasing key order.
pub open spec fn entries_sorted<V>(es: Seq<(u64, V)>) -> bool {
    forall|i: int, j: int| 0 <= i < j < es.len() ==> es[i].0 < es[j].0
}

/// What `find_next` returns: the entries before it do not qualify, the one
/// at it (if any) does.
pub proof fn lemma_find_next_props<V>(es: Seq<(u64, V)>, after: Option<u64>)
    ensures
        0 <= find_next(es, after) <= es.len(),
        forall|j: int| 0 <= j < find_next(es, after) ==> !above(after, es[j].0),
        find_next(es, after) < es.len() ==> above(after, es[find_next(es, after)].0),
    decreases es.len(),
{
    if es.len() != 0 && !above(after, es[0].0) {
        let tail = es.subrange(1, es.len() as int);
        lemma_find_next_props(tail, after);
        assert forall|j: int| 0 <= j < find_next(es, after) implies !above(
            after,
            es[j].0,
        ) by {
            if j >= 1 {
                assert(es[j] == tail[j - 1]);
            }
        }
    }
}

/// `find_next` is the only index with those properties.
pub proof fn lemma_find_next_unique<V>(es: Seq<(u64, V)>, after: Option<u64>, i: int)
    requires
        0 <= i <= es.len(),
        forall|j: int| 0 <= j < i ==> !above(after, #[trigger] es[j].0),
        i < es.len() ==> above(after, es[i].0),
    ensures
        find_next(es, after) == i,
{
    lemma_find_next_props(es, after);
    let f = find_next(es, after);
    if f < i {
        assert(!above(after, es[f].0));
    } else if i < f {
        assert(!above(after, es[i].0));
    }
}

/// Two positions that agree on every key of `es` make `find_next` agree.
pub proof fn lemma_find_next_same<V>(es: Seq<(u64, V)>, a1: Option<u64>, a2: Option<u64>)
    requires
        forall|j: int| 0 <= j < es.len() ==> above(a1, #[trigger] es[j].0) == above(a2, es[j].0),
    ensures
        find_next(es, a1) == find_next(es, a2),
{
    lemma_find_next_props(es, a1);
    lemma_find_next_unique(es, a2, find_next(es, a1));
}

/// What `insert_entry` does to the entries, key by key.
pub proof fn lemma_insert_entry_props<V>(es: Seq<(u64, V)>, k: u64, v: V)
    requires
        entries_sorted(es),
    ensures
        entries_sorted(insert_entry(es, k, v)),
        insert_entry(es, k, v).contains((k, v)),
        forall|j: int|
            0 <= j < insert_entry(es, k, v).len() ==> (#[trigger] insert_entry(es, k, v)[j]).0 == k
                || es.contains(insert_entry(es, k, v)[j]),
    decreases es.len(),
{
    let out = insert_entry(es, k, v);
    if es.len() == 0 {
        assert(out[0] == (k, v));
    } else if k < es[0].0 {
        assert(out[0] == (k, v));
        assert forall|j: int| 0 <= j < out.len() implies (#[trigger] out[j]).0 == k
            || es.contains(out[j]) by {
            if j >= 1 {
                assert(out[j] == es[j - 1]);
            }
        }
    } else if k == es[0].0 {
        assert(out[0] == (k, v));
        assert forall|j: int| 0 <= j < out.len() implies (#[trigger] out[j]).0 == k
            || es.contains(out[j]) by {
            if j >= 1 {
                assert(out[j] == es[j]);
            }
        }
    } else {
        let tail = es.subrange(1, es.len() as int);
        lemma_insert_entry_props(tail, k, v);
        let sub = insert_entry(tail, k, v);
        assert(out == seq![es[0]] + sub);
        assert forall|j: int| 0 <= j < out.len() implies (#[trigger] out[j]).0 == k
            || es.contains(out[j]) by {
            if j >= 1 {
                assert(out[j] == sub[j - 1]);
                if sub[j - 1].0 != k {
                    let idx = choose|t: int| 0 <= t < tail.len() && tail[t] == sub[j - 1];
                    assert(es[idx + 1] == sub[j - 1]);
                }
            } else {
                assert(out[0] == es[0]);
            }
        }
        assert forall|i: int, j: int| 0 <= i < j < out.len() implies out[i].0 < out[j].0 by {
            if i == 0 {
                assert(out[j] == sub[j - 1]);
                if sub[j - 1].0 != k {
                    let idx = choose|t: int| 0 <= t < tail.len() && tail[t] == sub[j - 1];
                    assert(es[idx + 1] == sub[j - 1]);
                    assert(es[0].0 < es[idx + 1].0);
                }
            } else {
                assert(out[i] == sub[i - 1] && out[j] == sub[j - 1]);
            }
        }
        assert(sub.contains((k, v)));
        let w = choose|t: int| 0 <= t < sub.len() && sub[t] == (k, v);
        assert(out[w + 1] == (k, v));
    }
}

/// Inserting a key below a bound keeps all keys below that bound.
pub proof fn lemma_insert_entry_key_bound<V>(es: Seq<(u64, V)>, k: u64, v: V, b: u64)
    requires
        entries_sorted(es),
        k < b,
        forall|j: int| 0 <= j < es.len() ==> (#[trigger] es[j]).0 < b,
    ensures
        forall|j: int|
            0 <= j < insert_entry(es, k, v).len() ==> (#[trigger] insert_entry(es, k, v)[j]).0 < b,
{
    lemma_insert_entry_props(es, k, v);
    let out = insert_entry(es, k, v);
    assert forall|j: int| 0 <= j < out.len() implies (#[trigger] out[j]).0 < b by {
        if out[j].0 != k {
            let t = choose|t: int| 0 <= t < es.len() && es[t] == out[j];
            assert(es[t].0 < b);
        }
    }
}

/// An ordered, unique-keyed record collection.
pub struct OrderedMap<V> {
    entries: Vec<(u64, V)>,
}

impl<V> OrderedMap<V> {
    /// The entries, in key order.
    pub closed spec fn view(&self) -> Seq<(u64, V)> {
        self.entries@
    }

    /// Keys are strictly increasing.
    pub open spec fn wf(&self) -> bool {
        entries_sorted(self@)
    }

    /// An empty collection.
    pub fn new() -> (m: Self)
        ensures
            m@ == Seq::<(u64, V)>::empty(),
            m.wf(),
    {
        OrderedMap { entries: Vec::new() }
    }

    /// Number of entries held.
    pub fn len(&self) -> (n: usize)
        ensures
            n == self@.len(),
    {
        self.entries.len()
    }

    /// Puts `(k, v)` at its place in key order, replacing the entry with
    /// key `k` if there is one.
    pub fn insert(&mut self, k: u64, v: V)
        requires
            old(self).wf(),
        ensures
            final(self)@ == insert_entry(old(self)@, k, v),
            final(self).wf(),
    {
        let mut i: usize = 0;
        let n = self.entries.len();
        loop
            invariant
                0 <= i <= n,
                n == self.entries.len(),
                forall|j: int| 0 <= j < i ==> (#[trigger] self.entries@[j]).0 < k,
            ensures
                0 <= i <= n,
                n == self.entries.len(),
                forall|j: int| 0 <= j < i ==> (#[trigger] self.entries@[j]).0 < k,
                i < n ==> self.entries@[i as int].0 >= k,
            decreases n - i,
        {
            if i >= n {
                break;
            }
            if self.entries[i].0 >= k {
                break;
            }
            i += 1;
        }
        proof {
            lemma_insert_entry_props(old(self)@, k, v);
        }
        if i < n && self.entries[i].0 == k {
            self.entries.set(i, (k, v));
            proof {
                lemma_insert_entry_update(old(self)@, k, v, i as int);
            }
        } else {
            self.entries.insert(i, (k, v));
            proof {
                lemma_insert_entry_fresh(old(self)@, k, v, i as int);
            }
        }
    }

    /// Removes and returns the first entry whose key lies after `after`,
    /// or returns `None` leaving the collection unchanged.
    pub fn take_next_after(&mut self, after: Option<u64>) -> (r: Option<(u64, V)>)
        ensures
            ({
                let es = old(self)@;
                let i = find_next(es, after);
                if i < es.len() {
                    r == Some(es[i]) && final(self)@ == es.remove(i)
                } else {
                    r is None && final(self)@ == es
                }
            }),
    {
        let mut i: usize = 0;
        let n = self.entries.len();
        loop
            invariant
                0 <= i <= n,
                n == self.entries.len(),
                forall|j: int| 0 <= j < i ==> !above(after, (#[trigger] self.entries@[j]).0),
            ensures
                0 <= i <= n,
                n == self.entries.len(),
                forall|j: int| 0 <= j < i ==> !above(after, (#[trigger] self.entries@[j]).0),
                i < n ==> above(after, self.entries@[i as int].0),
            decreases n - i,
        {
            if i >= n {
                break;
            }
            let qualifies = match after {
                None => true,
                Some(a) => self.entries[i].0 > a,
            };
            if qualifies {
                break;
            }
            i += 1;
        }
        proof {
            lemma_find_next_unique(old(self)@, after, i as int);
        }
        if i < n {
            Some(self.entries.remove(i))
        } else {
            None
        }
    }
}

/// Replacing the entry at the place the insert scan found is what
/// `insert_entry` itself does.
proof fn lemma_insert_entry_update<V>(es: Seq<(u64, V)>, k: u64, v: V, i: int)
    requires
        entries_sorted(es),
        0 <= i < es.len(),
        forall|j: int| 0 <= j < i ==> (#[trigger] es[j]).0 < k,
        es[i].0 == k,
    ensures
        insert_entry(es, k, v) == es.update(i, (k, v)),
    decreases es.len(),
{
    if i == 0 {
        assert(insert_entry(es, k, v) =~= es.update(0, (k, v)));
    } else {
        let tail = es.subrange(1, es.len() as int);
        lemma_insert_entry_update(tail, k, v, i - 1);
        assert(insert_entry(es, k, v) == seq![es[0]] + tail.update(i - 1, (k, v)));
        assert(seq![es[0]] + tail.update(i - 1, (k, v)) =~= es.update(i, (k, v)));
    }
}

/// Inserting at the place the insert scan found, when no entry has key
/// `k`, is what `insert_entry` itself does.
proof fn lemma_insert_entry_fresh<V>(es: Seq<(u64, V)>, k: u64, v: V, i: int)
    requires
        entries_sorted(es),
        0 <= i <= es.len(),
        forall|j: int| 0 <= j < i ==> (#[trigger] es[j]).0 < k,
        i < es.len() ==> es[i].0 > k,
    ensures
        insert_entry(es, k, v) == es.insert(i, (k, v)),
    decreases es.len(),
{
    if es.len() == 0 {
        assert(insert_entry(es, k, v) =~= es.insert(0, (k, v)));
    } else if i == 0 {
        assert(k < es[0].0);
        assert(insert_entry(es, k, v) =~= es.insert(0, (k, v)));
    } else {
        let tail = es.subrange(1, es.len() as int);
        lemma_insert_entry_fresh(tail, k, v, i - 1);
        assert(insert_entry(es, k, v) == seq![es[0]] + tail.insert(i - 1, (k, v)));
        assert(seq![es[0]] + tail.insert(i - 1, (k, v)) =~= es.insert(i, (k, v)));
    }
}

} // verus!
