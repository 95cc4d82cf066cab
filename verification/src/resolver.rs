use vstd::prelude::*;

use crate::cache::{spec_lookup, spec_touch, CacheEntryModel, EntryCache};
use crate::entry::{entry_models, CacheValue, CacheValueModel, Entry, EntryKind, EntryModel};

verus! {

/// Why a path failed to resolve.
#[derive(Clone, Copy, PartialEq, Eq, Structural, Debug)]
pub enum ResolveError {
    NotFound,
    NotADirectory,
}

/// What one pass of the resolver produced: a final answer, or the directory
/// listing the network must fetch (its cache key and its remote id) before
/// resolution can go on.
pub enum ResolveStep {
    Done(Result<Entry, ResolveError>),
    NeedListing(String, String),
}

/// Mathematical model of a `ResolveStep`.
pub enum ResolveOutcomeModel {
    Resolved(EntryModel),
    Failed(ResolveError),
    NeedListing(Seq<char>, Seq<char>),
}

/// The model of a `ResolveStep`.
pub open spec fn step_model(r: ResolveStep) -> ResolveOutcomeModel {
    match r {
        ResolveStep::Done(Ok(e)) => ResolveOutcomeModel::Resolved(e@),
        ResolveStep::Done(Err(er)) => ResolveOutcomeModel::Failed(er),
        ResolveStep::NeedListing(p, id) => ResolveOutcomeModel::NeedListing(p@, id@),
    }
}

/// The models of a vector of path components.
pub open spec fn string_models(s: Seq<String>) -> Seq<Seq<char>> {
    s.map_values(|x: String| x@)
}

/// Split a path into its components: the maximal runs of characters between
/// `/` separators, with empty runs (a leading, trailing or doubled `/`)
/// dropped. `cur` accumulates the run in progress.
pub open spec fn split_acc(s: Seq<char>, cur: Seq<char>) -> Seq<Seq<char>>
    decreases s.len(),
{
    if s.len() == 0 {
        if cur.len() == 0 {
            Seq::empty()
        } else {
            seq![cur]
        }
    } else if s[0] == '/' {
        if cur.len() == 0 {
            split_acc(s.drop_first(), Seq::empty())
        } else {
            seq![cur] + split_acc(s.drop_first(), Seq::empty())
        }
    } else {
        split_acc(s.drop_first(), cur.push(s[0]))
    }
}

/// The components of a path.
pub open spec fn path_components(s: Seq<char>) -> Seq<Seq<char>> {
    split_acc(s, Seq::empty())
}

/// Split a path into its components, exactly as `path_components` states.
pub fn split_path(path: &str) -> (r: Vec<String>)
    ensures
        string_models(r@) == path_components(path@),
{
    let n = path.unicode_len();
    let mut comps: Vec<String> = Vec::new();
    let mut start: usize = 0;
    let mut i: usize = 0;
    proof {
        assert(path@.skip(0) =~= path@);
        assert(path@.subrange(0, 0) =~= Seq::<char>::empty());
        assert(string_models(comps@) =~= Seq::<Seq<char>>::empty());
    }
    while i < n
        invariant
            start <= i <= n,
            n == path@.len(),
            path_components(path@) == string_models(comps@) + split_acc(
                path@.skip(i as int),
                path@.subrange(start as int, i as int),
            ),
        decreases n - i,
    {
        let ghost rest = path@.skip(i as int);
        let ghost cur = path@.subrange(start as int, i as int);
        let ghost comps0 = string_models(comps@);
        proof {
            assert(rest[0] == path@[i as int]);
            assert(rest.drop_first() =~= path@.skip(i + 1));
        }
        let c = path.get_char(i);
        if c == '/' {
            if i > start {
                let comp = path.substring_char(start, i).to_owned();
                proof {
                    assert(comp@ =~= cur);
                }
                comps.push(comp);
                proof {
                    assert(string_models(comps@) =~= comps0.push(cur));
                    assert(comps0 + (seq![cur] + split_acc(rest.drop_first(), Seq::empty()))
                        =~= comps0.push(cur) + split_acc(path@.skip(i + 1), Seq::empty()));
                }
            }
            start = i + 1;
            proof {
                assert(path@.subrange(i + 1, i + 1) =~= Seq::<char>::empty());
            }
        } else {
            proof {
                assert(path@.subrange(start as int, i + 1) =~= cur.push(path@[i as int]));
            }
        }
        i = i + 1;
    }
    proof {
        assert(path@.skip(n as int) =~= Seq::<char>::empty());
    }
    if n > start {
        let ghost comps0 = string_models(comps@);
        let ghost cur = path@.subrange(start as int, n as int);
        let comp = path.substring_char(start, n).to_owned();
        proof {
            assert(comp@ =~= cur);
        }
        comps.push(comp);
        proof {
            assert(string_models(comps@) =~= comps0.push(cur));
            assert(comps0 + seq![cur] =~= comps0.push(cur));
        }
    } else {
        proof {
            assert(string_models(comps@) + Seq::<Seq<char>>::empty() =~= string_models(comps@));
        }
    }
    comps
}

/// The first entry of the listing named `name` — deliberately the first
/// occurrence in API response order, should the remote ever report duplicate
/// names within one listing.
pub open spec fn spec_find_child(listing: Seq<EntryModel>, name: Seq<char>) -> Option<EntryModel>
    decreases listing.len(),
{
    if listing.len() == 0 {
        None
    } else if listing[0].name == name {
        Some(listing[0])
    } else {
        spec_find_child(listing.drop_first(), name)
    }
}

/// Scan a listing for a child, by exact, case-sensitive name; the first
/// occurrence wins.
pub fn find_child(listing: &Vec<Entry>, name: &String) -> (r: Option<Entry>)
    ensures
        match r {
            Some(e) => spec_find_child(entry_models(listing@), name@) == Some(e@),
            None => spec_find_child(entry_models(listing@), name@) is None,
        },
{
    let ghost full = entry_models(listing@);
    let mut i: usize = 0;
    proof {
        assert(full.skip(0) =~= full);
    }
    while i < listing.len()
        invariant
            i <= listing.len(),
            full == entry_models(listing@),
            full.len() == listing.len(),
            spec_find_child(full, name@) == spec_find_child(full.skip(i as int), name@),
        decreases listing.len() - i,
    {
        proof {
            assert(full.skip(i as int)[0] == full[i as int]);
            assert(full.skip(i as int).drop_first() =~= full.skip(i + 1));
        }
        if listing[i].name == *name {
            return Some(listing[i].clone());
        }
        i = i + 1;
    }
    proof {
        assert(full.skip(listing.len() as int) =~= Seq::<EntryModel>::empty());
    }
    None
}

/// The cache key of a child of the directory keyed `dir`: `dir` and the name,
/// joined by a `/` (none doubled at the root).
pub open spec fn child_key(dir: Seq<char>, name: Seq<char>) -> Seq<char> {
    if dir == seq!['/'] {
        dir + name
    } else {
        dir + seq!['/'] + name
    }
}

/// Join a directory key and a child name into the child's cache key.
pub fn join_child(dir: &String, name: &String) -> (r: String)
    ensures
        r@ == child_key(dir@, name@),
{
    let slash = String::from_str("/");
    proof {
        reveal_strlit("/");
        assert(slash@ =~= seq!['/']);
    }
    let mut r = dir.clone();
    if !(*dir == slash) {
        r.append("/");
        proof {
            assert(r@ =~= dir@ + seq!['/']);
        }
    }
    r.append(name.as_str());
    proof {
        if dir@ == seq!['/'] {
            assert(r@ =~= child_key(dir@, name@));
        } else {
            assert(r@ =~= child_key(dir@, name@));
        }
    }
    r
}

/// The resolver's walk against a fixed cache state: consume components from
/// the front, each time looking the current directory's listing up in the
/// cache. A fresh listing is scanned by name; a miss (or a slot that is no
/// listing) stops the walk and names the listing the network must fetch; a
/// missing name is `NotFound`; descending through a non-directory is
/// `NotADirectory`.
pub open spec fn spec_resolve(
    s: Seq<(Seq<char>, CacheEntryModel)>,
    now: u64,
    ttl: u64,
    comps: Seq<Seq<char>>,
    cur: EntryModel,
    cur_key: Seq<char>,
) -> ResolveOutcomeModel
    decreases comps.len(),
{
    if comps.len() == 0 {
        ResolveOutcomeModel::Resolved(cur)
    } else if cur.kind != EntryKind::Directory {
        ResolveOutcomeModel::Failed(ResolveError::NotADirectory)
    } else {
        match spec_lookup(s, cur_key, now, ttl) {
            None => ResolveOutcomeModel::NeedListing(cur_key, cur.id),
            Some(ce) => match ce.value {
                CacheValueModel::Single(_) => ResolveOutcomeModel::NeedListing(cur_key, cur.id),
                CacheValueModel::Listing(children) => match spec_find_child(children, comps[0]) {
                    None => ResolveOutcomeModel::Failed(ResolveError::NotFound),
                    Some(child) => spec_resolve(
                        s,
                        now,
                        ttl,
                        comps.drop_first(),
                        child,
                        child_key(cur_key, comps[0]),
                    ),
                },
            },
        }
    }
}

/// Walk `components` from the configured root against the cache: exactly
/// `spec_resolve` over the cache as it stood at the call — the walk records
/// accesses for the eviction order but changes no lookup's result. On a miss
/// the caller fetches the named listing, stores it, and calls again.
pub fn resolve_cached(
    cache: &mut EntryCache,
    root: &Entry,
    components: &Vec<String>,
    now: u64,
) -> (r: ResolveStep)
    requires
        old(cache).wf(),
    ensures
        final(cache).wf(),
        final(cache).spec_ttl() == old(cache).spec_ttl(),
        final(cache).spec_capacity() == old(cache).spec_capacity(),
        forall|q: Seq<char>, n2: u64|
            spec_lookup(final(cache)@, q, n2, old(cache).spec_ttl()) == spec_lookup(
                old(cache)@,
                q,
                n2,
                old(cache).spec_ttl(),
            ),
        step_model(r) == spec_resolve(
            old(cache)@,
            now,
            old(cache).spec_ttl(),
            string_models(components@),
            root@,
            seq!['/'],
        ),
{
    let ghost s0 = cache@;
    let ghost ttl = cache.spec_ttl();
    let ghost full = string_models(components@);
    let mut cur: Entry = root.clone();
    let mut cur_key: String = String::from_str("/");
    proof {
        reveal_strlit("/");
        assert(cur_key@ =~= seq!['/']);
        assert(full.skip(0) =~= full);
    }
    let mut i: usize = 0;
    let n = components.len();
    while i < n
        invariant
            i <= n,
            n == components@.len(),
            cache.wf(),
            cache.spec_ttl() == ttl,
            ttl == old(cache).spec_ttl(),
            cache.spec_capacity() == old(cache).spec_capacity(),
            s0 == old(cache)@,
            full == string_models(components@),
            full.len() == n,
            forall|q: Seq<char>, n2: u64|
                spec_lookup(cache@, q, n2, ttl) == spec_lookup(s0, q, n2, ttl),
            spec_resolve(s0, now, ttl, full, root@, seq!['/']) == spec_resolve(
                s0,
                now,
                ttl,
                full.skip(i as int),
                cur@,
                cur_key@,
            ),
        decreases n - i,
    {
        let ghost rest = full.skip(i as int);
        proof {
            assert(rest.len() > 0);
            assert(rest[0] == full[i as int]);
            assert(rest.drop_first() =~= full.skip(i + 1));
        }
        if cur.kind != EntryKind::Directory {
            return ResolveStep::Done(Err(ResolveError::NotADirectory));
        }
        let ghost pre = cache@;
        let got = cache.get(&cur_key, now);
        proof {
            if got is Some {
                lemma_lookups_still_preserved(pre, s0, cur_key@, now, ttl);
            }
        }
        match got {
            None => {
                return ResolveStep::NeedListing(cur_key, cur.id);
            },
            Some(ce) => {
                match ce.value {
                    CacheValue::Single(_) => {
                        return ResolveStep::NeedListing(cur_key, cur.id);
                    },
                    CacheValue::Listing(children) => {
                        match find_child(&children, &components[i]) {
                            None => {
                                return ResolveStep::Done(Err(ResolveError::NotFound));
                            },
                            Some(child) => {
                                let next_key = join_child(&cur_key, &components[i]);
                                cur = child;
                                cur_key = next_key;
                            },
                        }
                    },
                }
            },
        }
        i = i + 1;
    }
    proof {
        assert(full.skip(n as int) =~= Seq::<Seq<char>>::empty());
    }
    ResolveStep::Done(Ok(cur))
}

/// The cache agrees with the remote state `remote` (the listing each
/// directory key would return at resolution time): whatever listing a lookup
/// observes is the remote's listing for that key.
pub open spec fn cache_reflects(
    s: Seq<(Seq<char>, CacheEntryModel)>,
    remote: Map<Seq<char>, Seq<EntryModel>>,
    now: u64,
    ttl: u64,
) -> bool {
    forall|k: Seq<char>|
        match #[trigger] spec_lookup(s, k, now, ttl) {
            Some(ce) => match ce.value {
                CacheValueModel::Listing(children) => remote.contains_key(k) && children
                    == remote[k],
                CacheValueModel::Single(_) => true,
            },
            None => true,
        }
}

/// The same walk taken directly against the remote state, with no cache in
/// between; `None` where the remote state does not cover a directory the walk
/// needs.
pub open spec fn spec_resolve_remote(
    remote: Map<Seq<char>, Seq<EntryModel>>,
    comps: Seq<Seq<char>>,
    cur: EntryModel,
    cur_key: Seq<char>,
) -> Option<Result<EntryModel, ResolveError>>
    decreases comps.len(),
{
    if comps.len() == 0 {
        Some(Ok(cur))
    } else if cur.kind != EntryKind::Directory {
        Some(Err(ResolveError::NotADirectory))
    } else if !remote.contains_key(cur_key) {
        None
    } else {
        match spec_find_child(remote[cur_key], comps[0]) {
            None => Some(Err(ResolveError::NotFound)),
            Some(child) => spec_resolve_remote(
                remote,
                comps.drop_first(),
                child,
                child_key(cur_key, comps[0]),
            ),
        }
    }
}

/// Law: resolution is a pure function of the path and of the remote state at
/// resolution time. Whenever the walk completes against a cache that agrees
/// with the remote state — however and whenever its slots were filled — its
/// answer is the one the remote state itself determines.
pub proof fn lemma_resolution_pure(
    s: Seq<(Seq<char>, CacheEntryModel)>,
    remote: Map<Seq<char>, Seq<EntryModel>>,
    now: u64,
    ttl: u64,
    comps: Seq<Seq<char>>,
    cur: EntryModel,
    cur_key: Seq<char>,
)
    requires
        cache_reflects(s, remote, now, ttl),
    ensures
        match spec_resolve(s, now, ttl, comps, cur, cur_key) {
            ResolveOutcomeModel::Resolved(e) => spec_resolve_remote(remote, comps, cur, cur_key)
                == Some(Ok::<EntryModel, ResolveError>(e)),
            ResolveOutcomeModel::Failed(er) => spec_resolve_remote(remote, comps, cur, cur_key)
                == Some(Err::<EntryModel, ResolveError>(er)),
            ResolveOutcomeModel::NeedListing(_, _) => true,
        },
    decreases comps.len(),
{
    if comps.len() == 0 {
    } else if cur.kind != EntryKind::Directory {
    } else {
        match spec_lookup(s, cur_key, now, ttl) {
            None => {},
            Some(ce) => match ce.value {
                CacheValueModel::Single(_) => {},
                CacheValueModel::Listing(children) => {
                    assert(remote.contains_key(cur_key) && children == remote[cur_key]);
                    match spec_find_child(children, comps[0]) {
                        None => {},
                        Some(child) => {
                            lemma_resolution_pure(
                                s,
                                remote,
                                now,
                                ttl,
                                comps.drop_first(),
                                child,
                                child_key(cur_key, comps[0]),
                            );
                        },
                    }
                },
            },
        }
    }
}

/// Law: two resolutions of the same unmodified path through two separately
/// filled caches — different fills, different moments, different expiry
/// settings — return identical entry data as long as both caches agree with
/// the same remote state.
pub proof fn lemma_two_fills_agree(
    s1: Seq<(Seq<char>, CacheEntryModel)>,
    s2: Seq<(Seq<char>, CacheEntryModel)>,
    remote: Map<Seq<char>, Seq<EntryModel>>,
    now1: u64,
    now2: u64,
    ttl1: u64,
    ttl2: u64,
    comps: Seq<Seq<char>>,
    cur: EntryModel,
    cur_key: Seq<char>,
    e1: EntryModel,
    e2: EntryModel,
)
    requires
        cache_reflects(s1, remote, now1, ttl1),
        cache_reflects(s2, remote, now2, ttl2),
        spec_resolve(s1, now1, ttl1, comps, cur, cur_key) == ResolveOutcomeModel::Resolved(e1),
        spec_resolve(s2, now2, ttl2, comps, cur, cur_key) == ResolveOutcomeModel::Resolved(e2),
    ensures
        e1 == e2,
{
    lemma_resolution_pure(s1, remote, now1, ttl1, comps, cur, cur_key);
    lemma_resolution_pure(s2, remote, now2, ttl2, comps, cur, cur_key);
}

/// Helper for `resolve_cached`: a hit's touch keeps every lookup of the walk's
/// starting state intact.
proof fn lemma_lookups_still_preserved(
    pre: Seq<(Seq<char>, CacheEntryModel)>,
    s0: Seq<(Seq<char>, CacheEntryModel)>,
    k: Seq<char>,
    now: u64,
    ttl: u64,
)
    requires
        crate::cache::distinct_keys(pre),
        crate::cache::has_key(pre, k),
        forall|q: Seq<char>, n2: u64| spec_lookup(pre, q, n2, ttl) == spec_lookup(s0, q, n2, ttl),
    ensures
        forall|q: Seq<char>, n2: u64|
            spec_lookup(spec_touch(pre, k), q, n2, ttl) == spec_lookup(s0, q, n2, ttl),
{
    assert forall|q: Seq<char>, n2: u64|
        spec_lookup(spec_touch(pre, k), q, n2, ttl) == spec_lookup(s0, q, n2, ttl) by {
        crate::cache::lemma_touch_preserves_lookup(pre, k, q, n2, ttl);
    }
}

} // verus!
