use vstd::prelude::*;

use crate::cache::{
    has_key, parent_path, spec_invalidate, spec_invalidate_prefix, spec_lookup, CacheEntryModel,
    EntryCache,
};
use crate::retry::DriveError;

verus! {

/// The error vocabulary handed to the protocol layer.
#[derive(Clone, Copy, PartialEq, Eq, Structural, Debug)]
pub enum FsError {
    NotFound,
    Conflict,
    PermissionDenied,
    IoFailure,
}

/// How a drive failure that survived the retry policy reads to the protocol
/// layer: the remote taxonomy collapses onto the four protocol errors, and
/// outages surface as plain I/O failures rather than retry internals.
pub open spec fn spec_fs_error(e: DriveError) -> FsError {
    match e {
        DriveError::NotFound => FsError::NotFound,
        DriveError::Conflict => FsError::Conflict,
        DriveError::Unauthorized => FsError::PermissionDenied,
        DriveError::RateLimited | DriveError::Transient | DriveError::Fatal => FsError::IoFailure,
    }
}

/// Translate a drive failure for the protocol layer; see `spec_fs_error`.
pub fn fs_error_of(e: DriveError) -> (r: FsError)
    ensures
        r == spec_fs_error(e),
{
    match e {
        DriveError::NotFound => FsError::NotFound,
        DriveError::Conflict => FsError::Conflict,
        DriveError::Unauthorized => FsError::PermissionDenied,
        DriveError::RateLimited | DriveError::Transient | DriveError::Fatal => FsError::IoFailure,
    }
}

/// The capability set the protocol layer asks of the adapter.
#[derive(Clone, Copy, PartialEq, Eq, Structural, Debug)]
pub enum FsOp {
    List,
    Stat,
    Read,
    Create,
    Write,
    Delete,
    Rename,
}

/// The operations that change the remote tree.
pub open spec fn is_mutating(op: FsOp) -> bool {
    match op {
        FsOp::List | FsOp::Stat | FsOp::Read => false,
        FsOp::Create | FsOp::Write | FsOp::Delete | FsOp::Rename => true,
    }
}

/// Enforce read-only mode: a mutating operation is refused with
/// `PermissionDenied` before it ever reaches the network.
pub fn guard_operation(read_only: bool, op: FsOp) -> (r: Result<(), FsError>)
    ensures
        r is Err <==> (read_only && is_mutating(op)),
        r is Err ==> r == Err::<(), FsError>(FsError::PermissionDenied),
{
    match op {
        FsOp::List | FsOp::Stat | FsOp::Read => Ok(()),
        FsOp::Create | FsOp::Write | FsOp::Delete | FsOp::Rename => {
            if read_only {
                Err(FsError::PermissionDenied)
            } else {
                Ok(())
            }
        },
    }
}

/// After a successful mutation of `path`, drop its slot and its parent
/// listing's slot before the operation returns, so no later read — from any
/// task — observes the pre-mutation cached data.
pub fn after_mutation(cache: &mut EntryCache, path: &String)
    requires
        old(cache).wf(),
    ensures
        final(cache).wf(),
        final(cache).spec_ttl() == old(cache).spec_ttl(),
        final(cache).spec_capacity() == old(cache).spec_capacity(),
        final(cache)@ == spec_invalidate(old(cache)@, path@, parent_path(path@)),
        forall|now: u64|
            spec_lookup(final(cache)@, path@, now, final(cache).spec_ttl()) is None,
        forall|now: u64|
            spec_lookup(final(cache)@, parent_path(path@), now, final(cache).spec_ttl()) is None,
{
    cache.invalidate(path);
}

/// After a successful mutation that moved or removed the whole subtree at
/// `path`, drop every slot at or below it, and the parent listing's slot.
pub fn after_subtree_mutation(cache: &mut EntryCache, path: &String)
    requires
        old(cache).wf(),
    ensures
        final(cache).wf(),
        final(cache).spec_ttl() == old(cache).spec_ttl(),
        final(cache).spec_capacity() == old(cache).spec_capacity(),
        final(cache)@ == spec_invalidate(
            spec_invalidate_prefix(old(cache)@, path@),
            path@,
            parent_path(path@),
        ),
        forall|now: u64|
            spec_lookup(final(cache)@, path@, now, final(cache).spec_ttl()) is None,
        forall|now: u64|
            spec_lookup(final(cache)@, parent_path(path@), now, final(cache).spec_ttl()) is None,
{
    cache.invalidate_prefix(path);
    cache.invalidate(path);
}

/// Law: no stale read after a mutation. Whatever the cache held, once the
/// mutated path and its parent listing are invalidated, a lookup of either —
/// at any time, from any task — observes nothing, rather than pre-mutation
/// data; every other path's slot is untouched.
pub proof fn lemma_no_stale_read_after_mutation(
    s: Seq<(Seq<char>, CacheEntryModel)>,
    path: Seq<char>,
    now: u64,
    ttl: u64,
)
    ensures
        spec_lookup(spec_invalidate(s, path, parent_path(path)), path, now, ttl) is None,
        spec_lookup(spec_invalidate(s, path, parent_path(path)), parent_path(path), now, ttl)
            is None,
        forall|q: Seq<char>, v: CacheEntryModel|
            q != path && q != parent_path(path) && #[trigger] spec_invalidate(
                s,
                path,
                parent_path(path),
            ).contains((q, v)) ==> s.contains((q, v)),
{
    let out = spec_invalidate(s, path, parent_path(path));
    let pred = crate::cache::survives_invalidate(path, parent_path(path));
    assert(!has_key(out, path) && !has_key(out, parent_path(path))) by {
        if has_key(out, path) {
            let i = crate::cache::idx_of(out, path);
            assert(0 <= i < out.len() && out[i].0 == path);
            s.lemma_filter_pred(pred, i);
        }
        if has_key(out, parent_path(path)) {
            let i = crate::cache::idx_of(out, parent_path(path));
            assert(0 <= i < out.len() && out[i].0 == parent_path(path));
            s.lemma_filter_pred(pred, i);
        }
    }
    assert forall|q: Seq<char>, v: CacheEntryModel|
        q != path && q != parent_path(path) && #[trigger] out.contains((q, v)) implies s.contains(
        (q, v),
    ) by {
        let i = choose|i: int| 0 <= i < out.len() && out[i] == (q, v);
        crate::cache::lemma_filter_element_witness(s, pred, i);
        let x = choose|x: int| 0 <= x < s.len() && s[x] == out[i];
        assert(s[x] == (q, v));
    }
}

} // verus!
