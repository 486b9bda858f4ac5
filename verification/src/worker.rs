//! The two producers' decision logic.  The live-tail path takes each pushed
//! header in arrival order and slides the window; the catch-up path walks
//! the heights between the stored boundary and the observed network head.
//! Network and persistence stay with the caller: it fetches what these
//! functions ask for, hands the plain values in, and commits the batch each
//! accepted step returns as one transaction.

use vstd::prelude::*;

use crate::SyncError;
use crate::header::RawHeader;
use crate::header::stripped_of;
use crate::header::strip_header;
use crate::store::KvOp;
use crate::store::WindowStore;
use crate::store::advance_tr;
use crate::store::backfill_tr;
use crate::store::sat_succ;

verus! {

/// How many heights the window reaches back at bootstrap: about two weeks
/// of blocks.
pub const RETENTION_SPAN: u64 = 80640;

/// The height the initial window is seeded at for an observed network head:
/// the retention span below the head, clamped at the chain's first height.
pub fn initial_seed_height(network_head: u64) -> (r: u64)
    ensures
        r == if network_head > RETENTION_SPAN {
            (network_head - RETENTION_SPAN) as int
        } else {
            1int
        },
{
    if network_head > RETENTION_SPAN {
        network_head - RETENTION_SPAN
    } else {
        1
    }
}

/// The next height the catch-up path must fetch, if the store still trails
/// the observed network head.
pub fn next_backfill_height(highest: u64, network_head: u64) -> (r: Option<u64>)
    ensures
        highest < network_head ==> r == Some((highest + 1) as u64),
        highest >= network_head ==> r is None,
{
    if highest < network_head {
        Some(highest + 1)
    } else {
        None
    }
}

/// One live-tail step: a pushed header claiming `height`, with its payload.
/// The height is checked against the window's upper boundary before any
/// other work — a gap is a desynchronization and is rejected, never applied
/// as if adjacent — then the header is compressed, its root checked against
/// its declared hash, and the window slides by one.  On any rejection the
/// store is unchanged.
pub fn tail_step(store: &mut WindowStore, height: u64, header: &RawHeader, eds: Vec<u8>) -> (r:
    Result<Vec<KvOp>, SyncError>)
    requires
        old(store).wf(),
    ensures
        final(store).wf(),
        height as int != old(store).highest as int + 1 ==> {
            &&& r == Err::<Vec<KvOp>, SyncError>(
                SyncError::Desync { expected: sat_succ(old(store).highest), got: height },
            )
            &&& *final(store) == *old(store)
        },
        height as int == old(store).highest as int + 1 && !header@.self_consistent() ==> {
            &&& r == Err::<Vec<KvOp>, SyncError>(SyncError::RootMismatch)
            &&& *final(store) == *old(store)
        },
        height as int == old(store).highest as int + 1 && header@.self_consistent() ==> {
            &&& r is Ok
            &&& final(store).model() =~= advance_tr(
                old(store).model(),
                height as int,
                stripped_of(header@),
                eds@,
            )
            &&& r matches Ok(ops) ==> crate::store::op_views(ops@) =~= crate::store::advance_ops(
                old(store).lowest,
                height,
                stripped_of(header@),
                eds@,
            )
        },
{
    if store.highest == u64::MAX || height != store.highest + 1 {
        let expected = if store.highest == u64::MAX {
            u64::MAX
        } else {
            store.highest + 1
        };
        return Err(SyncError::Desync { expected, got: height });
    }
    let stripped = match strip_header(header) {
        Ok(s) => s,
        Err(e) => {
            return Err(e);
        },
    };
    store.advance_high(height, stripped, eds)
}

/// One catch-up step: the header fetched for `height`, with its payload.
/// The height must be the one `next_backfill_height` asked for — exactly
/// adjacent to the window's upper boundary — the header is compressed and
/// checked, and the window extends by one.  On any rejection the store is
/// unchanged.
pub fn backfill_step(store: &mut WindowStore, height: u64, header: &RawHeader, eds: Vec<u8>) -> (r:
    Result<Vec<KvOp>, SyncError>)
    requires
        old(store).wf(),
    ensures
        final(store).wf(),
        height as int != old(store).highest as int + 1 ==> {
            &&& r == Err::<Vec<KvOp>, SyncError>(
                SyncError::Desync { expected: sat_succ(old(store).highest), got: height },
            )
            &&& *final(store) == *old(store)
        },
        height as int == old(store).highest as int + 1 && !header@.self_consistent() ==> {
            &&& r == Err::<Vec<KvOp>, SyncError>(SyncError::RootMismatch)
            &&& *final(store) == *old(store)
        },
        height as int == old(store).highest as int + 1 && header@.self_consistent() ==> {
            &&& r is Ok
            &&& final(store).model() =~= backfill_tr(
                old(store).model(),
                height as int,
                stripped_of(header@),
                eds@,
            )
            &&& r matches Ok(ops) ==> crate::store::op_views(ops@) =~= crate::store::backfill_ops(
                height,
                stripped_of(header@),
                eds@,
            )
        },
{
    if store.highest == u64::MAX || height != store.highest + 1 {
        let expected = if store.highest == u64::MAX {
            u64::MAX
        } else {
            store.highest + 1
        };
        return Err(SyncError::Desync { expected, got: height });
    }
    let stripped = match strip_header(header) {
        Ok(s) => s,
        Err(e) => {
            return Err(e);
        },
    };
    store.backfill(height, stripped, eds)
}

} // verus!
