use vstd::prelude::*;

use crate::entry::{CacheValue, CacheValueModel};

verus! {

/// One cache slot: the stored value and the time it was inserted. A slot is
/// logically present only while `now - inserted_at < ttl`; an expired slot may
/// stay resident but is never returned.
pub struct CacheEntry {
    pub value: CacheValue,
    pub inserted_at: u64,
}

/// Mathematical model of a `CacheEntry`.
pub struct CacheEntryModel {
    pub value: CacheValueModel,
    pub inserted_at: u64,
}

impl View for CacheEntry {
    type V = CacheEntryModel;

    open spec fn view(&self) -> CacheEntryModel {
        CacheEntryModel { value: self.value@, inserted_at: self.inserted_at }
    }
}

impl Clone for CacheEntry {
    fn clone(&self) -> (r: CacheEntry)
        ensures
            r@ == self@,
    {
        CacheEntry { value: self.value.clone(), inserted_at: self.inserted_at }
    }
}

/// There is a slot keyed `k` in the association sequence `s`.
pub open spec fn has_key(s: Seq<(Seq<char>, CacheEntryModel)>, k: Seq<char>) -> bool {
    exists|i: int| 0 <= i < s.len() && s[i].0 == k
}

/// The index of the slot keyed `k` (meaningful when `has_key` holds and keys
/// are distinct).
pub open spec fn idx_of(s: Seq<(Seq<char>, CacheEntryModel)>, k: Seq<char>) -> int {
    choose|i: int| 0 <= i < s.len() && s[i].0 == k
}

/// The slot keyed `k`.
pub open spec fn entry_at(s: Seq<(Seq<char>, CacheEntryModel)>, k: Seq<char>) -> CacheEntryModel {
    s[idx_of(s, k)].1
}

/// No two slots share a key.
pub open spec fn distinct_keys(s: Seq<(Seq<char>, CacheEntryModel)>) -> bool {
    forall|i: int, j: int| 0 <= i < j < s.len() ==> s[i].0 != s[j].0
}

/// A slot inserted at `inserted_at` is still valid at `now` under `ttl`.
pub open spec fn fresh_at(e: CacheEntryModel, now: u64, ttl: u64) -> bool {
    now - e.inserted_at < ttl
}

/// What a lookup observes: the slot keyed `k`, and only while it is fresh.
pub open spec fn spec_lookup(
    s: Seq<(Seq<char>, CacheEntryModel)>,
    k: Seq<char>,
    now: u64,
    ttl: u64,
) -> Option<CacheEntryModel> {
    if has_key(s, k) && fresh_at(entry_at(s, k), now, ttl) {
        Some(entry_at(s, k))
    } else {
        None
    }
}

/// A hit moves the slot to the most-recently-used end; the contents do not change.
pub open spec fn spec_touch(s: Seq<(Seq<char>, CacheEntryModel)>, k: Seq<char>) -> Seq<
    (Seq<char>, CacheEntryModel),
> {
    s.remove(idx_of(s, k)).push((k, entry_at(s, k)))
}

/// The effect of `put`: replace in place of an existing key, append while there
/// is room, and otherwise evict the least-recently-used slot (the head of the
/// recency order) to admit the new one.
pub open spec fn spec_put(
    s: Seq<(Seq<char>, CacheEntryModel)>,
    cap: int,
    k: Seq<char>,
    m: CacheEntryModel,
) -> Seq<(Seq<char>, CacheEntryModel)> {
    if has_key(s, k) {
        s.remove(idx_of(s, k)).push((k, m))
    } else if s.len() < cap {
        s.push((k, m))
    } else {
        s.drop_first().push((k, m))
    }
}

/// The index of the last `/` of `s`, or `-1` when there is none.
pub open spec fn last_slash_at(s: Seq<char>) -> int
    decreases s.len(),
{
    if s.len() == 0 {
        -1
    } else if s[s.len() - 1] == '/' {
        s.len() - 1
    } else {
        last_slash_at(s.drop_last())
    }
}

/// The parent of a path: everything before its last `/`; the parent of a
/// top-level name such as `/a` is `/`, and a path with no `/` has an empty parent.
pub open spec fn parent_path(s: Seq<char>) -> Seq<char> {
    let i = last_slash_at(s);
    if i < 0 {
        Seq::empty()
    } else if i == 0 {
        seq!['/']
    } else {
        s.subrange(0, i)
    }
}

/// `k` names `p` itself or something strictly below the directory `p`.
pub open spec fn at_or_below(k: Seq<char>, p: Seq<char>) -> bool {
    k == p || (k.len() > p.len() && k.subrange(0, p.len() as int) == p && k[p.len() as int] == '/')
}

/// The slots that `invalidate` keeps: those keyed neither by the path nor by
/// its parent.
pub open spec fn survives_invalidate(k: Seq<char>, parent: Seq<char>) -> spec_fn(
    (Seq<char>, CacheEntryModel),
) -> bool {
    |p: (Seq<char>, CacheEntryModel)| p.0 != k && p.0 != parent
}

/// The effect of `invalidate`: every slot keyed by the path or by its parent leaves.
pub open spec fn spec_invalidate(
    s: Seq<(Seq<char>, CacheEntryModel)>,
    k: Seq<char>,
    parent: Seq<char>,
) -> Seq<(Seq<char>, CacheEntryModel)> {
    s.filter(survives_invalidate(k, parent))
}

/// The slots that `invalidate_prefix` keeps: those not at or below the path.
pub open spec fn survives_prefix_invalidate(k: Seq<char>) -> spec_fn(
    (Seq<char>, CacheEntryModel),
) -> bool {
    |p: (Seq<char>, CacheEntryModel)| !at_or_below(p.0, k)
}

/// The effect of `invalidate_prefix`: every slot at or below the path leaves.
pub open spec fn spec_invalidate_prefix(
    s: Seq<(Seq<char>, CacheEntryModel)>,
    k: Seq<char>,
) -> Seq<(Seq<char>, CacheEntryModel)> {
    s.filter(survives_prefix_invalidate(k))
}

/// A path-keyed cache of directory listings and file metadata, with
/// time-based expiry and capacity-based least-recently-used eviction. The
/// association vector is kept in recency order: index `0` is the least
/// recently used slot, the last index the most recently used.
pub struct EntryCache {
    entries: Vec<(String, CacheEntry)>,
    ttl: u64,
    capacity: usize,
}

impl View for EntryCache {
    type V = Seq<(Seq<char>, CacheEntryModel)>;

    closed spec fn view(&self) -> Seq<(Seq<char>, CacheEntryModel)> {
        self.entries@.map_values(|p: (String, CacheEntry)| (p.0@, p.1@))
    }
}

impl EntryCache {
    pub closed spec fn spec_ttl(&self) -> u64 {
        self.ttl
    }

    pub closed spec fn spec_capacity(&self) -> int {
        self.capacity as int
    }

    /// Well-formed: keys are distinct and the cache never holds more slots
    /// than its capacity.
    pub open spec fn wf(&self) -> bool {
        &&& distinct_keys(self@)
        &&& self@.len() <= self.spec_capacity()
        &&& self.spec_capacity() >= 1
    }

    pub fn new(ttl: u64, capacity: usize) -> (c: EntryCache)
        requires
            capacity >= 1,
        ensures
            c.wf(),
            c@ == Seq::<(Seq<char>, CacheEntryModel)>::empty(),
            c.spec_ttl() == ttl,
            c.spec_capacity() == capacity,
    {
        let c = EntryCache { entries: Vec::new(), ttl, capacity };
        proof {
            assert(c@ =~= Seq::<(Seq<char>, CacheEntryModel)>::empty());
        }
        c
    }

    /// The position of `path` in the recency order, if it is resident at all.
    fn find_index(&self, path: &String) -> (r: Option<usize>)
        ensures
            match r {
                Some(i) => 0 <= i < self@.len() && self@[i as int].0 == path@,
                None => !has_key(self@, path@),
            },
    {
        let mut i: usize = 0;
        while i < self.entries.len()
            invariant
                i <= self.entries.len(),
                self@.len() == self.entries.len(),
                forall|j: int| 0 <= j < i ==> self@[j].0 != path@,
            decreases self.entries.len() - i,
        {
            if self.entries[i].0 == *path {
                return Some(i);
            }
            i = i + 1;
        }
        None
    }

    /// Return the slot stored under `path` while it is still valid at `now`,
    /// and record the access for the eviction order. An expired or absent
    /// slot is reported as absent.
    pub fn get(&mut self, path: &String, now: u64) -> (r: Option<CacheEntry>)
        requires
            old(self).wf(),
        ensures
            final(self).wf(),
            final(self).spec_ttl() == old(self).spec_ttl(),
            final(self).spec_capacity() == old(self).spec_capacity(),
            match r {
                Some(e) => {
                    &&& spec_lookup(old(self)@, path@, now, old(self).spec_ttl()) == Some(e@)
                    &&& final(self)@ == spec_touch(old(self)@, path@)
                },
                None => {
                    &&& spec_lookup(old(self)@, path@, now, old(self).spec_ttl()) is None
                    &&& final(self)@ == old(self)@
                },
            },
    {
        let ghost s0 = self@;
        match self.find_index(path) {
            None => None,
            Some(i) => {
                proof {
                    assert(has_key(s0, path@));
                    let j = idx_of(s0, path@);
                    assert(0 <= j < s0.len() && s0[j].0 == path@);
                    assert(j == i);
                }
                let ins = self.entries[i].1.inserted_at;
                if now < ins || now - ins < self.ttl {
                    let pair = self.entries.remove(i);
                    let result = pair.1.clone();
                    self.entries.push(pair);
                    proof {
                        assert(self@ =~= spec_touch(s0, path@));
                        assert(distinct_keys(self@)) by {
                            assert forall|a: int, b: int|
                                0 <= a < b < self@.len() implies self@[a].0 != self@[b].0 by {
                                if b < self@.len() - 1 {
                                    // both land in the removed part of the old order
                                    assert(self@[a] == s0.remove(i as int)[a]);
                                    assert(self@[b] == s0.remove(i as int)[b]);
                                }
                            }
                        }
                    }
                    Some(result)
                } else {
                    None
                }
            },
        }
    }

    /// Store `value` under `path`, stamped `now`: an existing slot is replaced
    /// in place; at capacity, the least-recently-used slot is evicted first.
    pub fn put(&mut self, path: String, value: CacheValue, now: u64)
        requires
            old(self).wf(),
        ensures
            final(self).wf(),
            final(self).spec_ttl() == old(self).spec_ttl(),
            final(self).spec_capacity() == old(self).spec_capacity(),
            final(self)@ == spec_put(
                old(self)@,
                old(self).spec_capacity(),
                path@,
                CacheEntryModel { value: value@, inserted_at: now },
            ),
    {
        let ghost s0 = self@;
        let ghost vm = value@;
        let ghost key = path@;
        let m = CacheEntry { value, inserted_at: now };
        match self.find_index(&path) {
            Some(i) => {
                proof {
                    assert(has_key(s0, key));
                    let j = idx_of(s0, key);
                    assert(0 <= j < s0.len() && s0[j].0 == key);
                    assert(j == i);
                }
                self.entries.remove(i);
                self.entries.push((path, m));
                proof {
                    let mm = CacheEntryModel { value: vm, inserted_at: now };
                    assert(self@ =~= s0.remove(i as int).push((key, mm)));
                    assert(distinct_keys(self@)) by {
                        assert forall|a: int, b: int| 0 <= a < b < self@.len() implies self@[a].0
                            != self@[b].0 by {
                            if b < self@.len() - 1 {
                                assert(self@[a] == s0.remove(i as int)[a]);
                                assert(self@[b] == s0.remove(i as int)[b]);
                            } else {
                                assert(self@[a] == s0.remove(i as int)[a]);
                            }
                        }
                    }
                }
            },
            None => {
                if self.entries.len() >= self.capacity {
                    self.entries.remove(0);
                }
                self.entries.push((path, m));
                proof {
                    let mm = CacheEntryModel { value: vm, inserted_at: now };
                    if s0.len() < self.spec_capacity() {
                        assert(self@ =~= s0.push((key, mm)));
                    } else {
                        assert(self@ =~= s0.drop_first().push((key, mm)));
                    }
                    assert(distinct_keys(self@)) by {
                        assert forall|a: int, b: int| 0 <= a < b < self@.len() implies self@[a].0
                            != self@[b].0 by {
                            if s0.len() < self.spec_capacity() {
                                if b == self@.len() - 1 {
                                    assert(self@[a] == s0[a]);
                                    assert(s0[a].0 != key);
                                }
                            } else {
                                if b == self@.len() - 1 {
                                    assert(self@[a] == s0[a + 1]);
                                    assert(s0[a + 1].0 != key);
                                } else {
                                    assert(self@[a] == s0[a + 1]);
                                    assert(self@[b] == s0[b + 1]);
                                }
                            }
                        }
                    }
                }
            },
        }
    }

    /// Drop the slot stored under `path`, and the slot of its parent
    /// directory's listing, which the mutation made stale.
    pub fn invalidate(&mut self, path: &String)
        requires
            old(self).wf(),
        ensures
            final(self).wf(),
            final(self).spec_ttl() == old(self).spec_ttl(),
            final(self).spec_capacity() == old(self).spec_capacity(),
            final(self)@ == spec_invalidate(old(self)@, path@, parent_path(path@)),
            !has_key(final(self)@, path@),
            !has_key(final(self)@, parent_path(path@)),
    {
        let parent = parent_of(path.as_str());
        let ghost s0 = self@;
        let ghost pred = survives_invalidate(path@, parent_path(path@));
        let mut kept: Vec<(String, CacheEntry)> = Vec::new();
        let mut i: usize = 0;
        while i < self.entries.len()
            invariant
                i <= self.entries.len(),
                s0 == self@,
                s0.len() == self.entries.len(),
                kept@.map_values(|p: (String, CacheEntry)| (p.0@, p.1@)) == s0.subrange(
                    0,
                    i as int,
                ).filter(pred),
                parent@ == parent_path(path@),
                pred == survives_invalidate(path@, parent_path(path@)),
            decreases self.entries.len() - i,
        {
            let ghost kv = kept@.map_values(|p: (String, CacheEntry)| (p.0@, p.1@));
            let keep = !(self.entries[i].0 == *path) && !(self.entries[i].0 == parent);
            if keep {
                let k2 = self.entries[i].0.clone();
                let e2 = self.entries[i].1.clone();
                kept.push((k2, e2));
            }
            proof {
                lemma_filter_push(s0.subrange(0, i as int), s0[i as int], pred);
                assert(s0.subrange(0, i + 1).drop_last() =~= s0.subrange(0, i as int));
                assert(s0.subrange(0, i + 1) =~= s0.subrange(0, i as int).push(s0[i as int]));
                if keep {
                    assert(kept@.map_values(|p: (String, CacheEntry)| (p.0@, p.1@)) =~= kv.push(
                        s0[i as int],
                    ));
                }
            }
            i = i + 1;
        }
        self.entries = kept;
        proof {
            assert(s0.subrange(0, s0.len() as int) =~= s0);
            assert(self@ == spec_invalidate(s0, path@, parent_path(path@)));
            lemma_filtered_key_absent(s0, path@, parent_path(path@));
            lemma_filter_len(s0, pred);
            assert(distinct_keys(self@)) by {
                assert forall|a: int, b: int| 0 <= a < b < self@.len() implies self@[a].0
                    != self@[b].0 by {
                    lemma_filter_is_subsequence(s0, pred, a, b);
                }
            }
        }
    }

    /// Drop every slot whose path is at or below `path`: used when a whole
    /// subtree is deleted or moved.
    pub fn invalidate_prefix(&mut self, path: &String)
        requires
            old(self).wf(),
        ensures
            final(self).wf(),
            final(self).spec_ttl() == old(self).spec_ttl(),
            final(self).spec_capacity() == old(self).spec_capacity(),
            final(self)@ == spec_invalidate_prefix(old(self)@, path@),
            !has_key(final(self)@, path@),
    {
        let ghost s0 = self@;
        let ghost pred = survives_prefix_invalidate(path@);
        let mut kept: Vec<(String, CacheEntry)> = Vec::new();
        let mut i: usize = 0;
        while i < self.entries.len()
            invariant
                i <= self.entries.len(),
                s0 == self@,
                s0.len() == self.entries.len(),
                kept@.map_values(|p: (String, CacheEntry)| (p.0@, p.1@)) == s0.subrange(
                    0,
                    i as int,
                ).filter(pred),
                pred == survives_prefix_invalidate(path@),
            decreases self.entries.len() - i,
        {
            let ghost kv = kept@.map_values(|p: (String, CacheEntry)| (p.0@, p.1@));
            let below = is_at_or_below(&self.entries[i].0, path);
            if !below {
                let k2 = self.entries[i].0.clone();
                let e2 = self.entries[i].1.clone();
                kept.push((k2, e2));
            }
            proof {
                lemma_filter_push(s0.subrange(0, i as int), s0[i as int], pred);
                assert(s0.subrange(0, i + 1).drop_last() =~= s0.subrange(0, i as int));
                assert(s0.subrange(0, i + 1) =~= s0.subrange(0, i as int).push(s0[i as int]));
                if !below {
                    assert(kept@.map_values(|p: (String, CacheEntry)| (p.0@, p.1@)) =~= kv.push(
                        s0[i as int],
                    ));
                }
            }
            i = i + 1;
        }
        self.entries = kept;
        proof {
            assert(s0.subrange(0, s0.len() as int) =~= s0);
            assert(self@ == spec_invalidate_prefix(s0, path@));
            lemma_filter_len(s0, pred);
            assert(!has_key(self@, path@)) by {
                if has_key(self@, path@) {
                    let i = idx_of(self@, path@);
                    assert(0 <= i < self@.len() && self@[i].0 == path@);
                    self@.lemma_filter_pred(pred, i);
                }
            }
            assert(distinct_keys(self@)) by {
                assert forall|a: int, b: int| 0 <= a < b < self@.len() implies self@[a].0
                    != self@[b].0 by {
                    lemma_filter_is_subsequence(s0, pred, a, b);
                }
            }
        }
    }
}

/// Filtering one more element keeps it exactly when the predicate holds of it.
proof fn lemma_filter_push<A>(s: Seq<A>, x: A, pred: spec_fn(A) -> bool)
    ensures
        s.push(x).filter(pred) == if pred(x) {
            s.filter(pred).push(x)
        } else {
            s.filter(pred)
        },
{
    reveal(Seq::filter);
    assert(s.push(x).drop_last() =~= s);
    assert(s.push(x).last() == x);
}

/// A filtered sequence is no longer than the original.
proof fn lemma_filter_len<A>(s: Seq<A>, pred: spec_fn(A) -> bool)
    ensures
        s.filter(pred).len() <= s.len(),
    decreases s.len(),
{
    reveal(Seq::filter);
    if s.len() > 0 {
        lemma_filter_len(s.drop_last(), pred);
    }
}

/// Two positions of a filtered sequence come from two distinct positions of
/// the original, in order.
proof fn lemma_filter_is_subsequence<A>(s: Seq<A>, pred: spec_fn(A) -> bool, a: int, b: int)
    requires
        0 <= a < b < s.filter(pred).len(),
    ensures
        exists|x: int, y: int|
            0 <= x < y < s.len() && s[x] == s.filter(pred)[a] && s[y] == s.filter(pred)[b],
    decreases s.len(),
{
    reveal(Seq::filter);
    if s.len() > 0 {
        let sub = s.drop_last().filter(pred);
        if pred(s.last()) {
            if b < sub.len() {
                lemma_filter_is_subsequence(s.drop_last(), pred, a, b);
                let (x, y) = choose|x: int, y: int|
                    0 <= x < y < s.drop_last().len() && s.drop_last()[x] == sub[a]
                        && s.drop_last()[y] == sub[b];
                assert(s[x] == s.filter(pred)[a] && s[y] == s.filter(pred)[b]);
            } else {
                // b is the appended last element
                lemma_filter_element_witness(s.drop_last(), pred, a);
                let x = choose|x: int| 0 <= x < s.drop_last().len() && s.drop_last()[x] == sub[a];
                assert(s[x] == s.filter(pred)[a]);
                assert(s[s.len() - 1] == s.filter(pred)[b]);
            }
        } else {
            lemma_filter_is_subsequence(s.drop_last(), pred, a, b);
            let (x, y) = choose|x: int, y: int|
                0 <= x < y < s.drop_last().len() && s.drop_last()[x] == sub[a] && s.drop_last()[y]
                    == sub[b];
            assert(s[x] == s.filter(pred)[a] && s[y] == s.filter(pred)[b]);
        }
    }
}

/// Every element of a filtered sequence occurs in the original.
pub proof fn lemma_filter_element_witness<A>(s: Seq<A>, pred: spec_fn(A) -> bool, a: int)
    requires
        0 <= a < s.filter(pred).len(),
    ensures
        exists|x: int| 0 <= x < s.len() && s[x] == s.filter(pred)[a],
    decreases s.len(),
{
    reveal(Seq::filter);
    if s.len() > 0 {
        let sub = s.drop_last().filter(pred);
        if pred(s.last()) && a == sub.len() {
            assert(s[s.len() - 1] == s.filter(pred)[a]);
        } else {
            lemma_filter_element_witness(s.drop_last(), pred, a);
            let x = choose|x: int| 0 <= x < s.drop_last().len() && s.drop_last()[x] == s.drop_last(
            ).filter(pred)[a];
            assert(s[x] == s.filter(pred)[a]);
        }
    }
}

/// After `spec_invalidate`, neither the path's key nor its parent's key remains.
proof fn lemma_filtered_key_absent(
    s: Seq<(Seq<char>, CacheEntryModel)>,
    k: Seq<char>,
    parent: Seq<char>,
)
    ensures
        !has_key(spec_invalidate(s, k, parent), k),
        !has_key(spec_invalidate(s, k, parent), parent),
{
    let pred = survives_invalidate(k, parent);
    let out = spec_invalidate(s, k, parent);
    if has_key(out, k) {
        let i = idx_of(out, k);
        assert(0 <= i < out.len() && out[i].0 == k);
        s.lemma_filter_pred(pred, i);
    }
    if has_key(out, parent) {
        let i = idx_of(out, parent);
        assert(0 <= i < out.len() && out[i].0 == parent);
        s.lemma_filter_pred(pred, i);
    }
}

/// The index of the last `/` of `path`, or its length when there is none
/// (so that the result is directly usable as a split point).
fn last_slash_index(path: &str) -> (r: Option<usize>)
    ensures
        match r {
            Some(i) => last_slash_at(path@) == i && i < path@.len(),
            None => last_slash_at(path@) == -1,
        },
{
    let n = path.unicode_len();
    let mut i: usize = n;
    proof {
        assert(path@.subrange(0, n as int) =~= path@);
    }
    while i > 0
        invariant
            i <= n,
            n == path@.len(),
            last_slash_at(path@) == last_slash_at(path@.subrange(0, i as int)),
        decreases i,
    {
        let c = path.get_char(i - 1);
        proof {
            assert(path@.subrange(0, i as int).drop_last() =~= path@.subrange(0, i - 1));
        }
        if c == '/' {
            return Some(i - 1);
        }
        i = i - 1;
    }
    proof {
        assert(path@.subrange(0, 0) =~= Seq::<char>::empty());
    }
    None
}

/// The parent of `path`: everything before its last `/`, `/` for a top-level
/// name, and the empty string for a path that holds no `/` at all.
pub fn parent_of(path: &str) -> (r: String)
    ensures
        r@ == parent_path(path@),
{
    match last_slash_index(path) {
        None => String::new(),
        Some(i) => {
            if i == 0 {
                let r = String::from_str("/");
                proof {
                    reveal_strlit("/");
                    assert(r@ =~= seq!['/']);
                }
                r
            } else {
                path.substring_char(0, i).to_owned()
            }
        },
    }
}

/// Whether `key` is `prefix` itself or lies strictly below it.
pub fn is_at_or_below(key: &String, prefix: &String) -> (b: bool)
    ensures
        b == at_or_below(key@, prefix@),
{
    if *key == *prefix {
        true
    } else {
        let klen = key.as_str().unicode_len();
        let plen = prefix.as_str().unicode_len();
        if klen > plen {
            let head = key.as_str().substring_char(0, plen).to_owned();
            if head == *prefix && key.as_str().get_char(plen) == '/' {
                true
            } else {
                false
            }
        } else {
            false
        }
    }
}

/// Law: recording an access (`spec_touch`) only reorders the recency order:
/// every key observes exactly the same lookup result afterwards, and keys
/// stay distinct.
pub proof fn lemma_touch_preserves_lookup(
    s: Seq<(Seq<char>, CacheEntryModel)>,
    k: Seq<char>,
    k2: Seq<char>,
    now: u64,
    ttl: u64,
)
    requires
        distinct_keys(s),
        has_key(s, k),
    ensures
        spec_lookup(spec_touch(s, k), k2, now, ttl) == spec_lookup(s, k2, now, ttl),
        distinct_keys(spec_touch(s, k)),
        spec_touch(s, k).len() == s.len(),
{
    let i = idx_of(s, k);
    assert(0 <= i < s.len() && s[i].0 == k);
    let t = spec_touch(s, k);
    assert(t.len() == s.len());
    assert forall|j: int| 0 <= j < i implies t[j] == s[j] by {}
    assert forall|j: int| i <= j < t.len() - 1 implies t[j] == s[j + 1] by {}
    assert(t[t.len() - 1] == (k, s[i].1));
    assert(distinct_keys(t)) by {
        assert forall|a: int, b: int| 0 <= a < b < t.len() implies t[a].0 != t[b].0 by {
            if b < t.len() - 1 {
            } else {
                if a < i {
                    assert(t[a] == s[a]);
                } else {
                    assert(t[a] == s[a + 1]);
                }
            }
        }
    }
    if has_key(s, k2) {
        let j = idx_of(s, k2);
        assert(0 <= j < s.len() && s[j].0 == k2);
        // the same slot, somewhere in the touched order
        let jt = if j == i {
            t.len() - 1
        } else if j < i {
            j
        } else {
            j - 1
        };
        assert(t[jt].0 == k2 && t[jt].1 == s[j].1);
        assert(has_key(t, k2));
        // both indexings are unique, so the observed slots agree
        let j2 = idx_of(t, k2);
        assert(0 <= j2 < t.len() && t[j2].0 == k2);
        assert(j2 == jt);
        assert(entry_at(t, k2) == entry_at(s, k2));
    } else {
        assert(!has_key(t, k2)) by {
            if has_key(t, k2) {
                let j2 = idx_of(t, k2);
                assert(0 <= j2 < t.len() && t[j2].0 == k2);
                if j2 == t.len() - 1 {
                    assert(s[i].0 == k2);
                } else if j2 < i {
                    assert(s[j2].0 == k2);
                } else {
                    assert(s[j2 + 1].0 == k2);
                }
            }
        }
    }
}

/// Law: the cache never serves an expired slot — whenever a lookup returns a
/// value, strictly less than `ttl` has passed since it was inserted.
pub proof fn lemma_lookup_never_expired(
    s: Seq<(Seq<char>, CacheEntryModel)>,
    k: Seq<char>,
    now: u64,
    ttl: u64,
)
    ensures
        spec_lookup(s, k, now, ttl) matches Some(e) ==> now - e.inserted_at < ttl,
{
}

/// Law: however many slots are put, the cache never exceeds its capacity, and
/// when a put evicts, the slot that leaves is the least recently used one —
/// the head of the recency order — while every other slot survives.
pub proof fn lemma_put_capacity_and_lru(
    s: Seq<(Seq<char>, CacheEntryModel)>,
    cap: int,
    k: Seq<char>,
    m: CacheEntryModel,
)
    requires
        distinct_keys(s),
        s.len() <= cap,
        cap >= 1,
    ensures
        spec_put(s, cap, k, m).len() <= cap,
        (!has_key(s, k) && s.len() == cap) ==> !has_key(spec_put(s, cap, k, m), s[0].0),
        (!has_key(s, k) && s.len() == cap) ==> forall|j: int|
            1 <= j < s.len() ==> has_key(spec_put(s, cap, k, m), s[j].0),
{
    let out = spec_put(s, cap, k, m);
    if has_key(s, k) {
        let j = idx_of(s, k);
        assert(0 <= j < s.len() && s[j].0 == k);
        assert(out.len() == s.len());
    } else if s.len() < cap {
    } else {
        // eviction: the head of the recency order leaves, everything else stays
        assert(!has_key(s, k));
        assert(has_key(s, s[0].0));
        if has_key(out, s[0].0) {
            let i = idx_of(out, s[0].0);
            assert(0 <= i < out.len() && out[i].0 == s[0].0);
            if i < out.len() - 1 {
                assert(out[i] == s[i + 1]);
            } else {
                assert(out[i].0 == k);
            }
        }
        assert forall|j: int| 1 <= j < s.len() implies has_key(out, s[j].0) by {
            assert(out[j - 1] == s[j]);
        }
    }
}

} // verus!
