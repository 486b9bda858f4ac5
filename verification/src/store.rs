//! The windowed store: a contiguous span of heights, each with a stripped
//! header and a payload blob, bounded by a `lowest` and a `highest` marker.
//!
//! Every mutation returns the batch of key/value operations that persists
//! it; a caller commits the whole batch as one transaction, so the window
//! is never observable half-updated.  Advancing the tip slides the window —
//! the oldest height is evicted in the same batch — while catching up only
//! extends it: eviction is owned by the live-tail path alone, so the two
//! paths never disagree about which height leaves the window.

use vstd::prelude::*;
use vstd::bytes::spec_u64_to_le_bytes;
use vstd::bytes::u64_to_le_bytes;

use crate::SyncError;
use crate::codec::encode_stripped_header;
use crate::codec::spec_enc_header;
use crate::header::StrippedHeader;
use crate::header::StrippedHeaderView;

verus! {

// --- persisted key layout -------------------------------------------------

/// The scalar key `lowest_saved_head`.
pub open spec fn spec_lowest_key() -> Seq<u8> {
    seq![108u8, 111, 119, 101, 115, 116, 95, 115, 97, 118, 101, 100, 95, 104, 101, 97, 100]
}

/// The scalar key `highest_saved_head`.
pub open spec fn spec_highest_key() -> Seq<u8> {
    seq![104u8, 105, 103, 104, 101, 115, 116, 95, 115, 97, 118, 101, 100, 95, 104, 101, 97, 100]
}

/// The per-height header key: the tag `stripped_header` followed by the
/// height as a fixed-width 64-bit little-endian value.
pub open spec fn spec_stripped_header_key(height: u64) -> Seq<u8> {
    seq![115u8, 116, 114, 105, 112, 112, 101, 100, 95, 104, 101, 97, 100, 101, 114]
        + spec_u64_to_le_bytes(height)
}

/// The per-height payload key: the tag `eds` followed by the height as a
/// fixed-width 64-bit little-endian value.
pub open spec fn spec_eds_key(height: u64) -> Seq<u8> {
    seq![101u8, 100, 115] + spec_u64_to_le_bytes(height)
}

/// The key `lowest_saved_head` as bytes.
pub fn lowest_key() -> (r: Vec<u8>)
    ensures
        r@ == spec_lowest_key(),
{
    let r: Vec<u8> = vec![108, 111, 119, 101, 115, 116, 95, 115, 97, 118, 101, 100, 95, 104, 101, 97, 100];
    r
}

/// The key `highest_saved_head` as bytes.
pub fn highest_key() -> (r: Vec<u8>)
    ensures
        r@ == spec_highest_key(),
{
    let r: Vec<u8> = vec![104, 105, 103, 104, 101, 115, 116, 95, 115, 97, 118, 101, 100, 95, 104, 101, 97, 100];
    r
}

/// The header-record key for `height`.
pub fn get_stripped_header_key(height: u64) -> (r: Vec<u8>)
    ensures
        r@ == spec_stripped_header_key(height),
{
    let mut r: Vec<u8> = vec![115, 116, 114, 105, 112, 112, 101, 100, 95, 104, 101, 97, 100, 101, 114];
    let mut sfx = u64_to_le_bytes(height);
    r.append(&mut sfx);
    r
}

/// The payload-record key for `height`.
pub fn get_eds_key(height: u64) -> (r: Vec<u8>)
    ensures
        r@ == spec_eds_key(height),
{
    let mut r: Vec<u8> = vec![101, 100, 115];
    let mut sfx = u64_to_le_bytes(height);
    r.append(&mut sfx);
    r
}

// --- key/value operations -------------------------------------------------

/// One persisted operation of an atomic batch.
pub enum KvOp {
    Put { key: Vec<u8>, value: Vec<u8> },
    Delete { key: Vec<u8> },
}

#[verifier::ext_equal]
pub ghost enum KvOpView {
    Put { key: Seq<u8>, value: Seq<u8> },
    Delete { key: Seq<u8> },
}

impl View for KvOp {
    type V = KvOpView;

    open spec fn view(&self) -> KvOpView {
        match self {
            KvOp::Put { key, value } => KvOpView::Put { key: key@, value: value@ },
            KvOp::Delete { key } => KvOpView::Delete { key: key@ },
        }
    }
}

/// The views of a batch of operations.
pub open spec fn op_views(ops: Seq<KvOp>) -> Seq<KvOpView> {
    Seq::new(ops.len(), |j: int| ops[j]@)
}

/// One operation applied to a key/value image.
pub open spec fn apply_op(kv: Map<Seq<u8>, Seq<u8>>, op: KvOpView) -> Map<Seq<u8>, Seq<u8>> {
    match op {
        KvOpView::Put { key, value } => kv.insert(key, value),
        KvOpView::Delete { key } => kv.remove(key),
    }
}

/// A batch applied in order to a key/value image.  An unapplied batch — a
/// transaction built but never committed — leaves the image untouched.
pub open spec fn apply_ops(kv: Map<Seq<u8>, Seq<u8>>, ops: Seq<KvOpView>) -> Map<Seq<u8>, Seq<u8>>
    decreases ops.len(),
{
    if ops.len() == 0 {
        kv
    } else {
        apply_op(apply_ops(kv, ops.drop_last()), ops.last())
    }
}

// --- the window model -----------------------------------------------------

/// Mathematical model of the window: its two boundaries and the records,
/// keyed by height.
#[verifier::ext_equal]
pub ghost struct WindowModel {
    pub lowest: int,
    pub highest: int,
    pub headers: Map<int, StrippedHeaderView>,
    pub eds: Map<int, Seq<u8>>,
}

impl WindowModel {
    /// The window invariant: the boundaries are ordered and exactly the
    /// heights between them, inclusive, have both a header and a payload
    /// record.
    pub open spec fn wf(self) -> bool {
        &&& self.lowest <= self.highest
        &&& self.headers.dom() == Set::new(|h: int| self.lowest <= h <= self.highest)
        &&& self.eds.dom() == Set::new(|h: int| self.lowest <= h <= self.highest)
    }

    /// How many heights the window spans.
    pub open spec fn span(self) -> int {
        self.highest - self.lowest + 1
    }
}

/// The model seeded with a single height.
pub open spec fn init_model(seed: int, hdr: StrippedHeaderView, e: Seq<u8>) -> WindowModel {
    WindowModel {
        lowest: seed,
        highest: seed,
        headers: Map::new(|h: int| h == seed, |h: int| hdr),
        eds: Map::new(|h: int| h == seed, |h: int| e),
    }
}

/// Advancing the tip: only the height adjacent to the upper boundary is
/// accepted; the lowest height is evicted in the same step, so the span is
/// unchanged.  Any other height leaves the model untouched.
pub open spec fn advance_tr(m: WindowModel, h: int, hdr: StrippedHeaderView, e: Seq<u8>) -> WindowModel {
    if h == m.highest + 1 {
        WindowModel {
            lowest: m.lowest + 1,
            highest: h,
            headers: m.headers.remove(m.lowest).insert(h, hdr),
            eds: m.eds.remove(m.lowest).insert(h, e),
        }
    } else {
        m
    }
}

/// Catching up: only the height adjacent to the upper boundary is accepted;
/// the window extends and nothing is evicted.  Any other height leaves the
/// model untouched.
pub open spec fn backfill_tr(m: WindowModel, h: int, hdr: StrippedHeaderView, e: Seq<u8>) -> WindowModel {
    if h == m.highest + 1 {
        WindowModel {
            lowest: m.lowest,
            highest: h,
            headers: m.headers.insert(h, hdr),
            eds: m.eds.insert(h, e),
        }
    } else {
        m
    }
}

// --- the store ------------------------------------------------------------

/// The in-memory window: records held contiguously, lowest height first.
pub struct WindowStore {
    pub lowest: u64,
    pub highest: u64,
    pub headers: Vec<StrippedHeader>,
    pub eds: Vec<Vec<u8>>,
}

impl WindowStore {
    /// The representation holds one header and one payload per height of
    /// the span.
    pub open spec fn wf(self) -> bool {
        &&& self.lowest <= self.highest
        &&& self.headers@.len() == self.highest - self.lowest + 1
        &&& self.eds@.len() == self.headers@.len()
    }

    /// The mathematical window this store represents.
    pub open spec fn model(self) -> WindowModel {
        WindowModel {
            lowest: self.lowest as int,
            highest: self.highest as int,
            headers: Map::new(
                |h: int| self.lowest <= h <= self.highest,
                |h: int| self.headers@[h - self.lowest]@,
            ),
            eds: Map::new(
                |h: int| self.lowest <= h <= self.highest,
                |h: int| self.eds@[h - self.lowest]@,
            ),
        }
    }

    /// A well-formed store represents a well-formed window.
    pub proof fn lemma_wf_model(self)
        requires
            self.wf(),
        ensures
            self.model().wf(),
    {
    }

    /// Seed a one-height window; the workers extend it forward from here.
    /// Returns the store and the batch that persists it.
    pub fn init(seed_height: u64, seed_header: StrippedHeader, seed_eds: Vec<u8>) -> (r: (
        WindowStore,
        Vec<KvOp>,
    ))
        ensures
            r.0.wf(),
            r.0.model() =~= init_model(seed_height as int, seed_header@, seed_eds@),
            op_views(r.1@) =~= init_ops(seed_height, seed_header@, seed_eds@),
    {
        let enc = encode_stripped_header(&seed_header);
        let mut ops: Vec<KvOp> = Vec::new();
        ops.push(KvOp::Put { key: lowest_key(), value: u64_to_le_bytes(seed_height) });
        ops.push(KvOp::Put { key: highest_key(), value: u64_to_le_bytes(seed_height) });
        ops.push(KvOp::Put { key: get_stripped_header_key(seed_height), value: enc });
        ops.push(KvOp::Put { key: get_eds_key(seed_height), value: seed_eds.clone() });
        let mut headers: Vec<StrippedHeader> = Vec::new();
        headers.push(seed_header);
        let mut eds: Vec<Vec<u8>> = Vec::new();
        eds.push(seed_eds);
        let s = WindowStore { lowest: seed_height, highest: seed_height, headers, eds };
        (s, ops)
    }

    /// Rebuild a store from persisted parts; rejected unless the parts
    /// describe a contiguous window.
    pub fn from_parts(lowest: u64, highest: u64, headers: Vec<StrippedHeader>, eds: Vec<Vec<u8>>)
        -> (r: Result<WindowStore, SyncError>)
        ensures
            r is Ok <==> {
                &&& lowest <= highest
                &&& headers@.len() == highest - lowest + 1
                &&& eds@.len() == headers@.len()
            },
            r matches Ok(s) ==> s == (WindowStore { lowest, highest, headers, eds }),
            r is Err ==> r == Err::<WindowStore, SyncError>(SyncError::Malformed),
    {
        let n = headers.len();
        if lowest > highest {
            return Err(SyncError::Malformed);
        }
        if highest - lowest == u64::MAX {
            return Err(SyncError::Malformed);
        }
        if n as u64 != highest - lowest + 1 {
            return Err(SyncError::Malformed);
        }
        if eds.len() != n {
            return Err(SyncError::Malformed);
        }
        Ok(WindowStore { lowest, highest, headers, eds })
    }

    /// Slide the window forward by one height: evict the record at the
    /// current lowest height, admit the new one at the tip, and move both
    /// boundaries up, all described by one atomic batch.  A height that is
    /// not exactly adjacent to the upper boundary is rejected and nothing
    /// changes.
    pub fn advance_high(&mut self, new_height: u64, header: StrippedHeader, eds: Vec<u8>) -> (r:
        Result<Vec<KvOp>, SyncError>)
        requires
            old(self).wf(),
        ensures
            final(self).wf(),
            new_height as int == old(self).highest as int + 1 ==> {
                &&& r is Ok
                &&& final(self).model() =~= advance_tr(
                    old(self).model(),
                    new_height as int,
                    header@,
                    eds@,
                )
                &&& final(self).model().span() == old(self).model().span()
            },
            r matches Ok(ops) ==> op_views(ops@) =~= advance_ops(
                old(self).lowest,
                new_height,
                header@,
                eds@,
            ),
            new_height as int != old(self).highest as int + 1 ==> {
                &&& r == Err::<Vec<KvOp>, SyncError>(
                    SyncError::Desync { expected: sat_succ(old(self).highest), got: new_height },
                )
                &&& *final(self) == *old(self)
            },
    {
        if self.highest == u64::MAX || new_height != self.highest + 1 {
            let expected = if self.highest == u64::MAX {
                u64::MAX
            } else {
                self.highest + 1
            };
            return Err(SyncError::Desync { expected, got: new_height });
        }
        let ghost m0 = self.model();
        let enc = encode_stripped_header(&header);
        let old_lowest = self.lowest;
        let mut ops: Vec<KvOp> = Vec::new();
        ops.push(KvOp::Delete { key: get_eds_key(old_lowest) });
        ops.push(KvOp::Delete { key: get_stripped_header_key(old_lowest) });
        ops.push(KvOp::Put { key: lowest_key(), value: u64_to_le_bytes(old_lowest + 1) });
        ops.push(KvOp::Put { key: get_eds_key(new_height), value: eds.clone() });
        ops.push(KvOp::Put { key: get_stripped_header_key(new_height), value: enc });
        ops.push(KvOp::Put { key: highest_key(), value: u64_to_le_bytes(new_height) });
        let _ = self.headers.remove(0);
        let _ = self.eds.remove(0);
        self.headers.push(header);
        self.eds.push(eds);
        self.lowest = old_lowest + 1;
        self.highest = new_height;
        proof {
            assert(op_views(ops@) =~= advance_ops(old(self).lowest, new_height, header@, eds@));
            assert(self.model().headers =~= advance_tr(m0, new_height as int, header@, eds@)
                .headers);
            assert(self.model().eds =~= advance_tr(m0, new_height as int, header@, eds@).eds);
            assert(self.model() =~= advance_tr(m0, new_height as int, header@, eds@));
        }
        Ok(ops)
    }

    /// Extend the window at the tip while catching up: admit the record at
    /// the height adjacent to the upper boundary and move only that
    /// boundary, all described by one atomic batch.  Nothing is evicted —
    /// eviction belongs to the live-tail path alone.  A height that is not
    /// exactly adjacent is rejected and nothing changes.
    pub fn backfill(&mut self, new_height: u64, header: StrippedHeader, eds: Vec<u8>) -> (r:
        Result<Vec<KvOp>, SyncError>)
        requires
            old(self).wf(),
        ensures
            final(self).wf(),
            new_height as int == old(self).highest as int + 1 ==> {
                &&& r is Ok
                &&& final(self).model() =~= backfill_tr(
                    old(self).model(),
                    new_height as int,
                    header@,
                    eds@,
                )
            },
            r matches Ok(ops) ==> op_views(ops@) =~= backfill_ops(new_height, header@, eds@),
            new_height as int != old(self).highest as int + 1 ==> {
                &&& r == Err::<Vec<KvOp>, SyncError>(
                    SyncError::Desync { expected: sat_succ(old(self).highest), got: new_height },
                )
                &&& *final(self) == *old(self)
            },
    {
        if self.highest == u64::MAX || new_height != self.highest + 1 {
            let expected = if self.highest == u64::MAX {
                u64::MAX
            } else {
                self.highest + 1
            };
            return Err(SyncError::Desync { expected, got: new_height });
        }
        let ghost m0 = self.model();
        let enc = encode_stripped_header(&header);
        let mut ops: Vec<KvOp> = Vec::new();
        ops.push(KvOp::Put { key: get_eds_key(new_height), value: eds.clone() });
        ops.push(KvOp::Put { key: get_stripped_header_key(new_height), value: enc });
        ops.push(KvOp::Put { key: highest_key(), value: u64_to_le_bytes(new_height) });
        self.headers.push(header);
        self.eds.push(eds);
        self.highest = new_height;
        proof {
            assert(op_views(ops@) =~= backfill_ops(new_height, header@, eds@));
            assert(self.model().headers =~= backfill_tr(m0, new_height as int, header@, eds@)
                .headers);
            assert(self.model().eds =~= backfill_tr(m0, new_height as int, header@, eds@).eds);
            assert(self.model() =~= backfill_tr(m0, new_height as int, header@, eds@));
        }
        Ok(ops)
    }

    /// The header stored for `height`, if that height is in the window.
    pub fn header_at(&self, height: u64) -> (r: Option<StrippedHeader>)
        requires
            self.wf(),
        ensures
            r is Some <==> self.lowest <= height <= self.highest,
            r matches Some(s) ==> s@ == self.model().headers[height as int],
    {
        if height < self.lowest || height > self.highest {
            None
        } else {
            proof {
                assert(self.model().headers[height as int] == self.headers@[height
                    - self.lowest]@);
            }
            let _len_bound = self.headers.len();
            Some(self.headers[(height - self.lowest) as usize].clone())
        }
    }

    /// The payload stored for `height`, if that height is in the window.
    pub fn eds_at(&self, height: u64) -> (r: Option<Vec<u8>>)
        requires
            self.wf(),
        ensures
            r is Some <==> self.lowest <= height <= self.highest,
            r matches Some(e) ==> e@ == self.model().eds[height as int],
    {
        if height < self.lowest || height > self.highest {
            None
        } else {
            proof {
                assert(self.model().eds[height as int] == self.eds@[height - self.lowest]@);
            }
            let _len_bound = self.eds.len();
            Some(self.eds[(height - self.lowest) as usize].clone())
        }
    }
}

/// The successor of a height, clamped at the largest representable height.
pub open spec fn sat_succ(h: u64) -> u64 {
    if h == u64::MAX {
        u64::MAX
    } else {
        (h + 1) as u64
    }
}

/// The batch that persists a seeded window.
pub open spec fn init_ops(seed: u64, hdr: StrippedHeaderView, e: Seq<u8>) -> Seq<KvOpView> {
    seq![
        KvOpView::Put { key: spec_lowest_key(), value: spec_u64_to_le_bytes(seed) },
        KvOpView::Put { key: spec_highest_key(), value: spec_u64_to_le_bytes(seed) },
        KvOpView::Put { key: spec_stripped_header_key(seed), value: spec_enc_header(hdr) },
        KvOpView::Put { key: spec_eds_key(seed), value: e },
    ]
}

/// The batch that persists one slide of the window.
pub open spec fn advance_ops(old_lowest: u64, h: u64, hdr: StrippedHeaderView, e: Seq<u8>) -> Seq<
    KvOpView,
> {
    seq![
        KvOpView::Delete { key: spec_eds_key(old_lowest) },
        KvOpView::Delete { key: spec_stripped_header_key(old_lowest) },
        KvOpView::Put { key: spec_lowest_key(), value: spec_u64_to_le_bytes(sat_succ(old_lowest)) },
        KvOpView::Put { key: spec_eds_key(h), value: e },
        KvOpView::Put { key: spec_stripped_header_key(h), value: spec_enc_header(hdr) },
        KvOpView::Put { key: spec_highest_key(), value: spec_u64_to_le_bytes(h) },
    ]
}

/// The batch that persists one catch-up extension.
pub open spec fn backfill_ops(h: u64, hdr: StrippedHeaderView, e: Seq<u8>) -> Seq<KvOpView> {
    seq![
        KvOpView::Put { key: spec_eds_key(h), value: e },
        KvOpView::Put { key: spec_stripped_header_key(h), value: spec_enc_header(hdr) },
        KvOpView::Put { key: spec_highest_key(), value: spec_u64_to_le_bytes(h) },
    ]
}

// --- the window-invariant laws --------------------------------------------

/// A sequence of tip advances folded over a starting window.
pub open spec fn advance_fold(m: WindowModel, steps: Seq<(int, StrippedHeaderView, Seq<u8>)>)
    -> WindowModel
    decreases steps.len(),
{
    if steps.len() == 0 {
        m
    } else {
        advance_tr(advance_fold(m, steps.drop_last()), steps.last().0, steps.last().1, steps.last().2)
    }
}

/// One accepted or rejected tip advance keeps the window invariant and its
/// span.
pub proof fn lemma_advance_tr_wf(m: WindowModel, h: int, hdr: StrippedHeaderView, e: Seq<u8>)
    requires
        m.wf(),
    ensures
        advance_tr(m, h, hdr, e).wf(),
        advance_tr(m, h, hdr, e).span() == m.span(),
{
    if h == m.highest + 1 {
        let n = advance_tr(m, h, hdr, e);
        assert(n.headers.dom() =~= Set::new(|x: int| n.lowest <= x <= n.highest));
        assert(n.eds.dom() =~= Set::new(|x: int| n.lowest <= x <= n.highest));
    }
}

/// The window invariant holds after any sequence of tip advances from a
/// valid window, and the span never changes: the window truly slides.
/// Exactly the heights between the final boundaries hold records, by the
/// invariant's domain condition.
pub proof fn lemma_window_invariant(m: WindowModel, steps: Seq<(int, StrippedHeaderView, Seq<u8>)>)
    requires
        m.wf(),
    ensures
        advance_fold(m, steps).wf(),
        advance_fold(m, steps).span() == m.span(),
    decreases steps.len(),
{
    if steps.len() > 0 {
        lemma_window_invariant(m, steps.drop_last());
        lemma_advance_tr_wf(
            advance_fold(m, steps.drop_last()),
            steps.last().0,
            steps.last().1,
            steps.last().2,
        );
    }
}

/// A rejected advance is the identity: a height not adjacent to the upper
/// boundary never corrupts the window.
pub proof fn lemma_advance_rejects_gap(m: WindowModel, h: int, hdr: StrippedHeaderView, e: Seq<u8>)
    requires
        h != m.highest + 1,
    ensures
        advance_tr(m, h, hdr, e) == m,
{
}

/// A run of catch-up steps, each at the height adjacent to the tip reached
/// by the step before it, folded over a starting window.
pub open spec fn backfill_fold(m: WindowModel, recs: Seq<(StrippedHeaderView, Seq<u8>)>)
    -> WindowModel
    decreases recs.len(),
{
    if recs.len() == 0 {
        m
    } else {
        let prev = backfill_fold(m, recs.drop_last());
        backfill_tr(prev, prev.highest + 1, recs.last().0, recs.last().1)
    }
}

/// Catch-up convergence: feeding the catch-up path one record per height
/// above the starting boundary leaves `highest` at the last height fed —
/// the final observed head — with every height of the run written exactly
/// once, every prior record untouched, and the invariant intact.
pub proof fn lemma_catchup_convergence(m: WindowModel, recs: Seq<(StrippedHeaderView, Seq<u8>)>)
    requires
        m.wf(),
    ensures
        backfill_fold(m, recs).wf(),
        backfill_fold(m, recs).lowest == m.lowest,
        backfill_fold(m, recs).highest == m.highest + recs.len(),
        forall|j: int| 0 <= j < recs.len() ==> backfill_fold(m, recs).headers[m.highest + 1 + j]
            == recs[j].0,
        forall|j: int| 0 <= j < recs.len() ==> backfill_fold(m, recs).eds[m.highest + 1 + j]
            == recs[j].1,
        forall|h: int| m.lowest <= h <= m.highest ==> backfill_fold(m, recs).headers[h]
            == m.headers[h],
        forall|h: int| m.lowest <= h <= m.highest ==> backfill_fold(m, recs).eds[h] == m.eds[h],
    decreases recs.len(),
{
    if recs.len() > 0 {
        lemma_catchup_convergence(m, recs.drop_last());
        let prev = backfill_fold(m, recs.drop_last());
        let f = backfill_fold(m, recs);
        assert(f.headers.dom() =~= Set::new(|x: int| f.lowest <= x <= f.highest));
        assert(f.eds.dom() =~= Set::new(|x: int| f.lowest <= x <= f.highest));
        assert forall|h: int| m.lowest <= h <= m.highest implies f.headers[h] == m.headers[h] by {
            assert(f.headers[h] == prev.headers[h]);
        }
        assert forall|h: int| m.lowest <= h <= m.highest implies f.eds[h] == m.eds[h] by {
            assert(f.eds[h] == prev.eds[h]);
        }
        assert forall|j: int| 0 <= j < recs.len() implies f.headers[m.highest + 1 + j] == recs[j].0
            && f.eds[m.highest + 1 + j] == recs[j].1 by {
            if j < recs.len() - 1 {
                assert(prev.headers[m.highest + 1 + j] == recs.drop_last()[j].0);
                assert(prev.eds[m.highest + 1 + j] == recs.drop_last()[j].1);
            }
        }
    }
}

} // verus!
