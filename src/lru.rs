//! Fixed-capacity least-recently-used table of cache entries.
//!
//! The table itself is `const_lru::ConstLru`; this module states what its
//! operations do over a sequence model ordered from the most to the least
//! recently used entry.

use const_lru::ConstLru;
use vstd::prelude::*;

verus! {

/// Number of entries the table holds before it starts evicting.
pub const LRU_CAPACITY: usize = 255;

/// The stored value of an entry: the ETag bytes and the time it was stored
/// (seconds since the Unix epoch).
pub type EntryValue = (Vec<u8>, u64);

/// Model of one entry: key bytes, ETag bytes, storage time.
pub type EntryModel = (Seq<u8>, (Seq<u8>, u64));

/// Position of the entry with key `k` in `s`, or -1 when there is none.
pub open spec fn key_index(s: Seq<EntryModel>, k: Seq<u8>) -> int
    decreases s.len(),
{
    if s.len() == 0 {
        -1
    } else if s[0].0 == k {
        0
    } else {
        let r = key_index(s.subrange(1, s.len() as int), k);
        if r < 0 {
            -1
        } else {
            r + 1
        }
    }
}

/// Whether `s` holds an entry for key `k`.
pub open spec fn has_key(s: Seq<EntryModel>, k: Seq<u8>) -> bool {
    exists|i: int| 0 <= i < s.len() && #[trigger] s[i].0 == k
}

/// Keys are unique and the table holds at most `cap` entries.
pub open spec fn lru_wf(s: Seq<EntryModel>, cap: nat) -> bool {
    &&& s.len() <= cap
    &&& forall|i: int, j: int|
        0 <= i < s.len() && 0 <= j < s.len() && i != j ==> #[trigger] s[i].0 != #[trigger] s[j].0
}

/// The entry at `i` moved to the most recently used position.
pub open spec fn touch(s: Seq<EntryModel>, i: int) -> Seq<EntryModel> {
    seq![s[i]] + s.remove(i)
}

/// A lookup of `k`: the entry found, if any, becomes the most recently used.
pub open spec fn lru_get(s: Seq<EntryModel>, k: Seq<u8>) -> Seq<EntryModel> {
    let i = key_index(s, k);
    if i < 0 {
        s
    } else {
        touch(s, i)
    }
}

/// Insertion of `(k, v)` into a table of capacity `cap`: an existing entry
/// for `k` is replaced; otherwise, when the table is full, the least recently
/// used entry is evicted. The new entry is the most recently used.
pub open spec fn lru_insert(s: Seq<EntryModel>, cap: nat, k: Seq<u8>, v: (Seq<u8>, u64)) -> Seq<
    EntryModel,
> {
    let i = key_index(s, k);
    if i >= 0 {
        seq![(k, v)] + s.remove(i)
    } else if s.len() < cap {
        seq![(k, v)] + s
    } else {
        seq![(k, v)] + s.drop_last()
    }
}

pub proof fn lemma_key_index(s: Seq<EntryModel>, k: Seq<u8>)
    ensures
        -1 <= key_index(s, k) < s.len(),
        key_index(s, k) >= 0 ==> s[key_index(s, k)].0 == k,
        key_index(s, k) < 0 <==> !has_key(s, k),
        key_index(s, k) >= 0 ==> forall|j: int| 0 <= j < key_index(s, k) ==> s[j].0 != k,
    decreases s.len(),
{
    if s.len() > 0 && s[0].0 != k {
        let t = s.subrange(1, s.len() as int);
        lemma_key_index(t, k);
        if has_key(s, k) {
            let i = choose|i: int| 0 <= i < s.len() && #[trigger] s[i].0 == k;
            assert(t[i - 1].0 == k);
        }
        if has_key(t, k) {
            let i = choose|i: int| 0 <= i < t.len() && #[trigger] t[i].0 == k;
            assert(s[i + 1].0 == k);
        }
        if key_index(t, k) >= 0 {
            assert forall|j: int| 0 <= j < key_index(s, k) implies s[j].0 != k by {
                if j > 0 {
                    assert(s[j] == t[j - 1]);
                }
            }
        }
    }
}

/// Value stored for `k`, in model form.
pub open spec fn lru_value(s: Seq<EntryModel>, k: Seq<u8>) -> Option<(Seq<u8>, u64)> {
    let i = key_index(s, k);
    if i < 0 {
        None
    } else {
        Some(s[i].1)
    }
}


/// A lookup keeps the table well formed and leaves its set of entries alone.
pub proof fn lemma_get_wf(s: Seq<EntryModel>, cap: nat, k: Seq<u8>)
    requires
        lru_wf(s, cap),
    ensures
        lru_wf(lru_get(s, k), cap),
        lru_get(s, k).len() == s.len(),
        forall|q: Seq<u8>| #[trigger] lru_value(lru_get(s, k), q) == lru_value(s, q),
        forall|a: int| 0 <= a < s.len() ==> s.contains(#[trigger] lru_get(s, k)[a]),
{
    lemma_key_index(s, k);
    let i = key_index(s, k);
    if i < 0 {
        assert forall|a: int| 0 <= a < s.len() implies s.contains(#[trigger] lru_get(s, k)[a]) by {
            assert(s[a] == lru_get(s, k)[a]);
        }
    }
    if i >= 0 {
        let t = lru_get(s, k);
        assert forall|a: int| 0 <= a < s.len() implies s.contains(#[trigger] t[a]) by {
            let pa = if a == 0 { i } else if a - 1 < i { a - 1 } else { a };
            assert(t[a] == s[pa]);
        }
        assert forall|a: int, b: int| 0 <= a < t.len() && 0 <= b < t.len() && a != b implies #[trigger] t[a].0
            != #[trigger] t[b].0 by {
            let pa = if a == 0 { i } else if a - 1 < i { a - 1 } else { a };
            let pb = if b == 0 { i } else if b - 1 < i { b - 1 } else { b };
            assert(t[a] == s[pa]);
            assert(t[b] == s[pb]);
        }
        assert forall|q: Seq<u8>| #[trigger] lru_value(t, q) == lru_value(s, q) by {
            lemma_key_index(s, q);
            lemma_key_index(t, q);
            let j = key_index(s, q);
            let u = key_index(t, q);
            if j >= 0 {
                let pj = if j == i { 0 } else if j < i { j + 1 } else { j };
                assert(t[pj] == s[j]);
                assert(has_key(t, q));
                lemma_unique_index(t, cap, q, pj);
            } else if u >= 0 {
                let pu = if u == 0 { i } else if u - 1 < i { u - 1 } else { u };
                assert(t[u] == s[pu]);
                assert(has_key(s, q));
            }
        }
    }
}

/// In a well-formed table the entry holding `k` is the one that `key_index` finds.
pub proof fn lemma_unique_index(s: Seq<EntryModel>, cap: nat, k: Seq<u8>, i: int)
    requires
        lru_wf(s, cap),
        0 <= i < s.len(),
        s[i].0 == k,
    ensures
        key_index(s, k) == i,
{
    lemma_key_index(s, k);
    assert(has_key(s, k));
}

/// An insertion keeps the table well formed and makes `k` map to `v`.
pub proof fn lemma_insert_wf(s: Seq<EntryModel>, cap: nat, k: Seq<u8>, v: (Seq<u8>, u64))
    requires
        lru_wf(s, cap),
        cap > 0,
    ensures
        lru_wf(lru_insert(s, cap, k, v), cap),
        lru_value(lru_insert(s, cap, k, v), k) == Some(v),
        0 < lru_insert(s, cap, k, v).len(),
        lru_insert(s, cap, k, v)[0] == (k, v),
        lru_insert(s, cap, k, v).len() == if has_key(s, k) || s.len() == cap {
            s.len()
        } else {
            s.len() + 1
        },
        forall|a: int|
            0 < a < lru_insert(s, cap, k, v).len() ==> s.contains(#[trigger] lru_insert(s, cap, k, v)[a]),
{
    lemma_key_index(s, k);
    let i = key_index(s, k);
    let t = lru_insert(s, cap, k, v);
    assert forall|a: int, b: int| 0 <= a < t.len() && 0 <= b < t.len() && a != b implies #[trigger] t[a].0
        != #[trigger] t[b].0 by {
        if i >= 0 {
            let pa = if a - 1 < i { a - 1 } else { a };
            let pb = if b - 1 < i { b - 1 } else { b };
            if a > 0 {
                assert(t[a] == s[pa]);
            }
            if b > 0 {
                assert(t[b] == s[pb]);
            }
        } else {
            if a > 0 {
                assert(t[a] == s[a - 1]);
                assert(s[a - 1].0 != k);
            }
            if b > 0 {
                assert(t[b] == s[b - 1]);
                assert(s[b - 1].0 != k);
            }
        }
    }
    lemma_unique_index(t, cap, k, 0);
    assert forall|a: int| 0 < a < t.len() implies s.contains(#[trigger] t[a]) by {
        if i >= 0 {
            let pa = if a - 1 < i { a - 1 } else { a };
            assert(t[a] == s[pa]);
        } else {
            assert(t[a] == s[a - 1]);
        }
    }
}

/// The table after inserting `items` one after the other, first to last.
pub open spec fn lru_insert_all(s: Seq<EntryModel>, cap: nat, items: Seq<EntryModel>) -> Seq<
    EntryModel,
>
    decreases items.len(),
{
    if items.len() == 0 {
        s
    } else {
        let last = items.last();
        lru_insert(lru_insert_all(s, cap, items.drop_last()), cap, last.0, last.1)
    }
}

/// Keys of `items` are pairwise distinct.
pub open spec fn distinct_keys(items: Seq<EntryModel>) -> bool {
    forall|i: int, j: int|
        0 <= i < items.len() && 0 <= j < items.len() && i != j ==> #[trigger] items[i].0
            != #[trigger] items[j].0
}

/// After distinct insertions, the last `min(m, cap)` inserted keys stand at
/// the front of the table, most recent first.
proof fn lemma_insert_all_recent(s: Seq<EntryModel>, cap: nat, items: Seq<EntryModel>)
    requires
        lru_wf(s, cap),
        cap > 0,
        distinct_keys(items),
    ensures
        lru_wf(lru_insert_all(s, cap, items), cap),
        lru_insert_all(s, cap, items).len() >= if items.len() < cap {
            items.len()
        } else {
            cap
        },
        forall|j: int|
            0 <= j < items.len() && items.len() - j <= cap ==> {
                &&& items.len() - 1 - j < lru_insert_all(s, cap, items).len()
                &&& #[trigger] lru_insert_all(s, cap, items)[items.len() - 1 - j] == items[j]
            },
    decreases items.len(),
{
    if items.len() > 0 {
        let m = items.len() - 1;
        let prev = items.drop_last();
        let last = items.last();
        assert forall|i: int, j: int|
            0 <= i < prev.len() && 0 <= j < prev.len() && i != j implies #[trigger] prev[i].0
            != #[trigger] prev[j].0 by {
            assert(prev[i] == items[i]);
            assert(prev[j] == items[j]);
        }
        lemma_insert_all_recent(s, cap, prev);
        let p = lru_insert_all(s, cap, prev);
        lemma_insert_wf(p, cap, last.0, last.1);
        lemma_key_index(p, last.0);
        let t = lru_insert_all(s, cap, items);
        assert(t == lru_insert(p, cap, last.0, last.1));
        let i = key_index(p, last.0);
        if i >= 0 && i < m && i < cap {
            let j = m - 1 - i;
            assert(prev.len() - j <= cap);
            assert(lru_insert_all(s, cap, prev)[prev.len() - 1 - j] == prev[j]);
            assert(prev[j] == items[j]);
            assert(items[j].0 != items[m].0);
        }
        assert forall|j: int| 0 <= j < items.len() && items.len() - j <= cap implies {
            &&& items.len() - 1 - j < t.len()
            &&& #[trigger] t[items.len() - 1 - j] == items[j]
        } by {
            if j < m {
                assert(prev[j] == items[j]);
                assert(prev.len() - j <= cap);
                assert(lru_insert_all(s, cap, prev)[prev.len() - 1 - j] == prev[j]);
                assert(prev.len() - 1 - j == m - 1 - j);
                if i >= 0 {
                    assert(i > m - 1 - j) by {
                        if i <= m - 1 - j {
                            if i == m - 1 - j {
                                assert(items[j].0 == last.0);
                            } else {
                                assert(m - 1 - (m - 1 - i) == i);
                                assert(p[m - 1 - (m - 1 - i)] == prev[m - 1 - i]);
                                assert(items[m - 1 - i].0 == last.0);
                            }
                        }
                    }
                    assert(t == seq![(last.0, last.1)] + p.remove(i));
                    assert(t[m - j] == p[m - 1 - j]);
                    assert(items.len() - 1 - j < t.len() && t[items.len() - 1 - j] == items[j]);
                } else if p.len() < cap {
                    assert(t == seq![(last.0, last.1)] + p);
                    assert(t[m - j] == p[m - 1 - j]);
                    assert(items.len() - 1 - j < t.len() && t[items.len() - 1 - j] == items[j]);
                } else {
                    assert(t == seq![(last.0, last.1)] + p.drop_last());
                    assert(t[m - j] == p[m - 1 - j]);
                    assert(items.len() - 1 - j < t.len() && t[items.len() - 1 - j] == items[j]);
                }
            } else {
                assert(t[0] == items[m]);
                assert(items.len() - 1 - j < t.len() && t[items.len() - 1 - j] == items[j]);
            }
        }
    }
}

/// Capacity eviction: into a table of capacity `cap`, inserting `cap + 1`
/// entries with distinct keys leaves the first key absent and every later
/// key present, with the value it was inserted with.
pub proof fn lemma_capacity_eviction(s: Seq<EntryModel>, cap: nat, items: Seq<EntryModel>)
    requires
        lru_wf(s, cap),
        cap > 0,
        items.len() == cap + 1,
        distinct_keys(items),
    ensures
        !has_key(lru_insert_all(s, cap, items), items[0].0),
        forall|j: int| 1 <= j < items.len() ==> has_key(lru_insert_all(s, cap, items), #[trigger] items[j].0),
        forall|j: int|
            1 <= j < items.len() ==> lru_value(lru_insert_all(s, cap, items), #[trigger] items[j].0) == Some(
                items[j].1,
            ),
{
    lemma_insert_all_recent(s, cap, items);
    let t = lru_insert_all(s, cap, items);
    assert forall|j: int| 1 <= j < items.len() implies has_key(t, #[trigger] items[j].0) by {
        assert(items.len() - 1 - j < t.len() && t[items.len() - 1 - j] == items[j]);
    }
    assert forall|j: int| 1 <= j < items.len() implies lru_value(t, #[trigger] items[j].0) == Some(items[j].1) by {
        assert(items.len() - 1 - j < t.len() && t[items.len() - 1 - j] == items[j]);
        lemma_unique_index(t, cap, items[j].0, items.len() - 1 - j);
    }
    if has_key(t, items[0].0) {
        let i = choose|i: int| 0 <= i < t.len() && #[trigger] t[i].0 == items[0].0;
        let j = cap - i;
        assert(t.len() <= cap);
        assert(1 <= j < items.len() && items.len() - j <= cap);
        assert(t[items.len() - 1 - j] == items[j]);
        assert(items[j].0 != items[0].0);
    }
}

/// The entries of a table, from the most to the least recently used.
pub uninterp spec fn lru_entries(t: LruTable) -> Seq<EntryModel>;

/// The `const_lru` table, with 255 slots addressed by a `u8` index.
#[verifier::external_body]
pub struct LruTable {
    table: Box<ConstLru<Vec<u8>, EntryValue, 255, u8>>,
}

impl LruTable {
    /// Relies on `ConstLru::new`: the table starts empty.
    #[verifier::external_body]
    pub(crate) fn new() -> (r: LruTable)
        ensures
            lru_entries(r) == Seq::<EntryModel>::empty(),
    {
        LruTable { table: Box::new(ConstLru::new()) }
    }

    /// Relies on `ConstLru::get`, which does not panic: finds the entry by key (compared with the
    /// `Ord` of `Vec<u8>`) and moves it to the most recently used position.
    #[verifier::external_body]
    pub(crate) fn get(&mut self, k: &Vec<u8>) -> (r: Option<EntryValue>)
        requires
            lru_wf(lru_entries(*old(self)), LRU_CAPACITY as nat),
        ensures
            lru_entries(*final(self)) == lru_get(lru_entries(*old(self)), k@),
            r matches Some(v) ==> lru_value(lru_entries(*old(self)), k@) == Some((v.0@, v.1)),
            r is None ==> lru_value(lru_entries(*old(self)), k@) is None,
        no_unwind
    {
        self.table.get(k).cloned()
    }

    /// Relies on `ConstLru::insert`, which does not panic: replaces the entry of an existing key,
    /// or evicts the least recently used entry when all 255 slots are taken;
    /// the inserted entry becomes the most recently used.
    #[verifier::external_body]
    pub(crate) fn insert(&mut self, k: Vec<u8>, v: EntryValue)
        requires
            lru_wf(lru_entries(*old(self)), LRU_CAPACITY as nat),
        ensures
            lru_entries(*final(self)) == lru_insert(
                lru_entries(*old(self)),
                LRU_CAPACITY as nat,
                k@,
                (v.0@, v.1),
            ),
        no_unwind
    {
        self.table.insert(k, v);
    }

    /// Relies on `ConstLru::len`: the number of entries.
    #[verifier::external_body]
    pub(crate) fn len(&self) -> (r: usize)
        ensures
            r == lru_entries(*self).len(),
    {
        self.table.len() as usize
    }

    /// Relies on `ConstLru::get_untouched`: the value stored for `k`, without
    /// changing the recency order.
    #[verifier::external_body]
    pub(crate) fn peek(&self, k: &Vec<u8>) -> (r: Option<EntryValue>)
        requires
            lru_wf(lru_entries(*self), LRU_CAPACITY as nat),
        ensures
            r matches Some(v) ==> lru_value(lru_entries(*self), k@) == Some((v.0@, v.1)),
            r is None ==> lru_value(lru_entries(*self), k@) is None,
    {
        self.table.get_untouched(k).cloned()
    }

    /// Relies on `ConstLru::iter`, which goes from the most to the least
    /// recently used entry and back: the key of the least recently used entry.
    #[verifier::external_body]
    pub(crate) fn lru_key(&self) -> (r: Option<Vec<u8>>)
        ensures
            r is None <==> lru_entries(*self).len() == 0,
            r matches Some(k) ==> k@ == lru_entries(*self).last().0,
    {
        self.table.iter().next_back().map(|(k, _)| k.clone())
    }

    /// Relies on `ConstLru::remove`, which does not panic: takes the entry of
    /// `k` out, if any, and keeps the order of the others.
    #[verifier::external_body]
    pub(crate) fn remove(&mut self, k: &Vec<u8>)
        requires
            lru_wf(lru_entries(*old(self)), LRU_CAPACITY as nat),
        ensures
            lru_entries(*final(self)) == if key_index(lru_entries(*old(self)), k@) < 0 {
                lru_entries(*old(self))
            } else {
                lru_entries(*old(self)).remove(key_index(lru_entries(*old(self)), k@))
            },
        no_unwind
    {
        self.table.remove(k);
    }
}

} // verus!
