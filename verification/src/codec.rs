//! Byte framing for persisted records.  A stripped header is stored as a
//! sequence of length-prefixed fields (every integer a fixed-width 64-bit
//! little-endian value); decoding validates the frame and replays both
//! carried inclusion proofs against the carried hash before accepting the
//! record.

use vstd::prelude::*;
use vstd::bytes::lemma_auto_spec_u64_to_from_le_bytes;
use vstd::bytes::spec_u64_from_le_bytes;
use vstd::bytes::spec_u64_to_le_bytes;
use vstd::bytes::u64_from_le_bytes;
use vstd::bytes::u64_to_le_bytes;
use vstd::slice::slice_subrange;
use vstd::slice::slice_to_vec;

use crate::SyncError;
use crate::header::StrippedHeader;
use crate::header::StrippedHeaderView;
use crate::merkle::MerkleProof;
use crate::merkle::MerkleProofView;
use crate::merkle::verify_inclusion;

verus! {

/// A byte string framed by its 64-bit little-endian length.
pub open spec fn spec_enc_bytes(b: Seq<u8>) -> Seq<u8> {
    spec_u64_to_le_bytes(b.len() as u64) + b
}

/// Sibling digests framed one after the other.
pub open spec fn spec_enc_sibs(sibs: Seq<Seq<u8>>) -> Seq<u8>
    decreases sibs.len(),
{
    if sibs.len() == 0 {
        Seq::empty()
    } else {
        spec_enc_sibs(sibs.drop_last()) + spec_enc_bytes(sibs.last())
    }
}

/// An inclusion proof: index, leaf count, sibling count, then the siblings.
pub open spec fn spec_enc_proof(p: MerkleProofView) -> Seq<u8> {
    spec_u64_to_le_bytes(p.index as u64) + spec_u64_to_le_bytes(p.total as u64)
        + spec_u64_to_le_bytes(p.siblings.len() as u64) + spec_enc_sibs(p.siblings)
}

/// A stripped header: hash, previous block id and its proof, data root and
/// its proof.
pub open spec fn spec_enc_header(s: StrippedHeaderView) -> Seq<u8> {
    spec_enc_bytes(s.hash) + spec_enc_bytes(s.last_block_id) + spec_enc_proof(
        s.last_block_id_proof,
    ) + spec_enc_bytes(s.data_root) + spec_enc_proof(s.data_root_proof)
}

fn write_u64(out: &mut Vec<u8>, x: u64)
    ensures
        final(out)@ == old(out)@ + spec_u64_to_le_bytes(x),
{
    let mut b = u64_to_le_bytes(x);
    out.append(&mut b);
}

fn write_bytes(out: &mut Vec<u8>, b: &Vec<u8>)
    ensures
        final(out)@ == old(out)@ + spec_enc_bytes(b@),
{
    proof {
        lemma_auto_spec_u64_to_from_le_bytes();
    }
    write_u64(out, b.len() as u64);
    let mut c = b.clone();
    out.append(&mut c);
    proof {
        assert(out@ =~= old(out)@ + spec_enc_bytes(b@));
    }
}

fn write_proof(out: &mut Vec<u8>, p: &MerkleProof)
    ensures
        final(out)@ == old(out)@ + spec_enc_proof(p@),
{
    write_u64(out, p.index);
    write_u64(out, p.total);
    write_u64(out, p.siblings.len() as u64);
    let ghost mid = out@;
    let mut j: usize = 0;
    while j < p.siblings.len()
        invariant
            j <= p.siblings@.len(),
            out@ == mid + spec_enc_sibs(p@.siblings.take(j as int)),
        decreases p.siblings@.len() - j,
    {
        let ghost before = p@.siblings.take(j as int);
        write_bytes(out, &p.siblings[j]);
        proof {
            let after = p@.siblings.take(j + 1);
            assert(after.drop_last() =~= before);
            assert(after.last() == p.siblings@[j as int]@);
        }
        j += 1;
    }
    proof {
        assert(p@.siblings.take(p.siblings@.len() as int) =~= p@.siblings);
        assert(out@ =~= old(out)@ + spec_enc_proof(p@));
    }
}

/// Encode a stripped header into the persisted frame.
pub fn encode_stripped_header(s: &StrippedHeader) -> (r: Vec<u8>)
    ensures
        r@ == spec_enc_header(s@),
{
    let mut out: Vec<u8> = Vec::new();
    write_bytes(&mut out, &s.hash);
    write_bytes(&mut out, &s.last_block_id);
    write_proof(&mut out, &s.last_block_id_proof);
    write_bytes(&mut out, &s.data_root);
    write_proof(&mut out, &s.data_root_proof);
    proof {
        assert(out@ =~= spec_enc_header(s@));
    }
    out
}

/// Read a 64-bit little-endian integer at `pos`.
pub open spec fn spec_read_u64(buf: Seq<u8>, pos: int) -> Option<(u64, int)> {
    if 0 <= pos && pos + 8 <= buf.len() {
        Some((spec_u64_from_le_bytes(buf.subrange(pos, pos + 8)), pos + 8))
    } else {
        None
    }
}

/// Read a length-prefixed byte string at `pos`.
pub open spec fn spec_read_bytes(buf: Seq<u8>, pos: int) -> Option<(Seq<u8>, int)> {
    match spec_read_u64(buf, pos) {
        Some((n, p)) => if p + n <= buf.len() {
            Some((buf.subrange(p, p + n), p + n))
        } else {
            None
        },
        None => None,
    }
}

/// Read `count` length-prefixed byte strings at `pos`.
pub open spec fn spec_read_sibs(buf: Seq<u8>, pos: int, count: int) -> Option<(Seq<Seq<u8>>, int)>
    decreases count,
{
    if count <= 0 {
        Some((Seq::empty(), pos))
    } else {
        match spec_read_bytes(buf, pos) {
            Some((b, p)) => match spec_read_sibs(buf, p, count - 1) {
                Some((rest, end)) => Some((seq![b] + rest, end)),
                None => None,
            },
            None => None,
        }
    }
}

/// Read an inclusion proof at `pos`.
pub open spec fn spec_read_proof(buf: Seq<u8>, pos: int) -> Option<(MerkleProofView, int)> {
    match spec_read_u64(buf, pos) {
        Some((index, p1)) => match spec_read_u64(buf, p1) {
            Some((total, p2)) => match spec_read_u64(buf, p2) {
                Some((count, p3)) => match spec_read_sibs(buf, p3, count as int) {
                    Some((sibs, end)) => Some(
                        (
                            MerkleProofView {
                                siblings: sibs,
                                index: index as int,
                                total: total as int,
                            },
                            end,
                        ),
                    ),
                    None => None,
                },
                None => None,
            },
            None => None,
        },
        None => None,
    }
}

/// Parse a whole stripped-header frame; the frame must be consumed exactly.
pub open spec fn spec_parse_header(buf: Seq<u8>) -> Option<StrippedHeaderView> {
    match spec_read_bytes(buf, 0) {
        Some((hash, p1)) => match spec_read_bytes(buf, p1) {
            Some((last_block_id, p2)) => match spec_read_proof(buf, p2) {
                Some((last_block_id_proof, p3)) => match spec_read_bytes(buf, p3) {
                    Some((data_root, p4)) => match spec_read_proof(buf, p4) {
                        Some((data_root_proof, end)) => if end == buf.len() {
                            Some(
                                StrippedHeaderView {
                                    hash,
                                    last_block_id,
                                    last_block_id_proof,
                                    data_root,
                                    data_root_proof,
                                },
                            )
                        } else {
                            None
                        },
                        None => None,
                    },
                    None => None,
                },
                None => None,
            },
            None => None,
        },
        None => None,
    }
}

fn read_u64_at(buf: &[u8], pos: usize) -> (r: Option<(u64, usize)>)
    ensures
        match r {
            Some((x, p)) => spec_read_u64(buf@, pos as int) == Some((x, p as int)),
            None => spec_read_u64(buf@, pos as int) is None,
        },
{
    if buf.len() >= 8 && pos <= buf.len() - 8 {
        let s = slice_subrange(buf, pos, pos + 8);
        Some((u64_from_le_bytes(s), pos + 8))
    } else {
        None
    }
}

fn read_bytes_at(buf: &[u8], pos: usize) -> (r: Option<(Vec<u8>, usize)>)
    ensures
        match r {
            Some((b, p)) => spec_read_bytes(buf@, pos as int) == Some((b@, p as int)),
            None => spec_read_bytes(buf@, pos as int) is None,
        },
{
    match read_u64_at(buf, pos) {
        Some((n, p)) => {
            if n <= (buf.len() - p) as u64 {
                let np = p + n as usize;
                let s = slice_subrange(buf, p, np);
                Some((slice_to_vec(s), np))
            } else {
                None
            }
        },
        None => None,
    }
}

fn read_proof_at(buf: &[u8], pos: usize) -> (r: Option<(MerkleProof, usize)>)
    ensures
        match r {
            Some((p, e)) => spec_read_proof(buf@, pos as int) == Some((p@, e as int)),
            None => spec_read_proof(buf@, pos as int) is None,
        },
{
    let (index, p1) = match read_u64_at(buf, pos) {
        Some(v) => v,
        None => {
            return None;
        },
    };
    let (total, p2) = match read_u64_at(buf, p1) {
        Some(v) => v,
        None => {
            return None;
        },
    };
    let (count, p3) = match read_u64_at(buf, p2) {
        Some(v) => v,
        None => {
            return None;
        },
    };
    let mut sibs: Vec<Vec<u8>> = Vec::new();
    let mut cur: usize = p3;
    let mut t: u64 = 0;
    while t < count
        invariant
            t <= count,
            sibs@.len() == t,
            spec_read_u64(buf@, pos as int) == Some((index, p1 as int)),
            spec_read_u64(buf@, p1 as int) == Some((total, p2 as int)),
            spec_read_u64(buf@, p2 as int) == Some((count, p3 as int)),
            match spec_read_sibs(buf@, cur as int, count - t) {
                Some((rest, end)) => spec_read_sibs(buf@, p3 as int, count as int) == Some(
                    (crate::merkle::views(sibs@) + rest, end),
                ),
                None => spec_read_sibs(buf@, p3 as int, count as int) is None,
            },
        decreases count - t,
    {
        let ghost acc = crate::merkle::views(sibs@);
        match read_bytes_at(buf, cur) {
            Some((b, p)) => {
                proof {
                    let rem = count - t;
                    match spec_read_sibs(buf@, p as int, rem - 1) {
                        Some((rest2, end2)) => {
                            assert(spec_read_sibs(buf@, cur as int, rem) == Some(
                                (seq![b@] + rest2, end2),
                            ));
                            assert(acc + (seq![b@] + rest2) =~= crate::merkle::views(
                                sibs@.push(b),
                            ) + rest2);
                        },
                        None => {},
                    }
                }
                sibs.push(b);
                cur = p;
                t = t + 1;
            },
            None => {
                proof {
                    assert(spec_read_sibs(buf@, cur as int, count - t) is None);
                }
                return None;
            },
        }
    }
    proof {
        assert(spec_read_sibs(buf@, cur as int, 0) == Some(
            (Seq::<Seq<u8>>::empty(), cur as int),
        ));
        assert(crate::merkle::views(sibs@) + Seq::<Seq<u8>>::empty() =~= crate::merkle::views(
            sibs@,
        ));
    }
    let p = MerkleProof { siblings: sibs, index, total };
    Some((p, cur))
}

/// Decode a persisted stripped-header frame.  The frame must parse exactly,
/// both proofs must carry 32-byte siblings at the two canonical indices over
/// the canonical leaf count, and each must replay to the carried 32-byte
/// hash; anything else is rejected as malformed.
pub fn decode_stripped_header(buf: &[u8]) -> (r: Result<StrippedHeader, SyncError>)
    ensures
        r is Ok <==> (spec_parse_header(buf@) matches Some(h) && h.wf()),
        r matches Ok(s) ==> spec_parse_header(buf@) == Some(s@),
        r is Err ==> r == Err::<StrippedHeader, SyncError>(SyncError::Malformed),
{
    let (hash, p1) = match read_bytes_at(buf, 0) {
        Some(v) => v,
        None => {
            return Err(SyncError::Malformed);
        },
    };
    let (last_block_id, p2) = match read_bytes_at(buf, p1) {
        Some(v) => v,
        None => {
            return Err(SyncError::Malformed);
        },
    };
    let (last_block_id_proof, p3) = match read_proof_at(buf, p2) {
        Some(v) => v,
        None => {
            return Err(SyncError::Malformed);
        },
    };
    let (data_root, p4) = match read_bytes_at(buf, p3) {
        Some(v) => v,
        None => {
            return Err(SyncError::Malformed);
        },
    };
    let (data_root_proof, end) = match read_proof_at(buf, p4) {
        Some(v) => v,
        None => {
            return Err(SyncError::Malformed);
        },
    };
    if end != buf.len() {
        return Err(SyncError::Malformed);
    }
    let s = StrippedHeader { hash, last_block_id, last_block_id_proof, data_root, data_root_proof };
    proof {
        assert(spec_parse_header(buf@) == Some(s@));
        lemma_sibs_wf_bridge(s.last_block_id_proof);
        lemma_sibs_wf_bridge(s.data_root_proof);
    }
    if s.hash.len() != 32 {
        return Err(SyncError::Malformed);
    }
    if s.last_block_id_proof.index != 4 || s.last_block_id_proof.total != 14 {
        return Err(SyncError::Malformed);
    }
    if s.data_root_proof.index != 6 || s.data_root_proof.total != 14 {
        return Err(SyncError::Malformed);
    }
    if !sibs_are_digests(&s.last_block_id_proof.siblings) {
        return Err(SyncError::Malformed);
    }
    if !sibs_are_digests(&s.data_root_proof.siblings) {
        return Err(SyncError::Malformed);
    }
    if !verify_inclusion(s.last_block_id.as_slice(), &s.last_block_id_proof, s.hash.as_slice()) {
        return Err(SyncError::Malformed);
    }
    if !verify_inclusion(s.data_root.as_slice(), &s.data_root_proof, s.hash.as_slice()) {
        return Err(SyncError::Malformed);
    }
    Ok(s)
}

// --- the round-trip law -----------------------------------------------------

proof fn lemma_read_u64_of_le(buf: Seq<u8>, pos: int, x: u64)
    requires
        0 <= pos,
        pos + 8 <= buf.len(),
        buf.subrange(pos, pos + 8) == spec_u64_to_le_bytes(x),
    ensures
        spec_read_u64(buf, pos) == Some((x, pos + 8)),
{
    lemma_auto_spec_u64_to_from_le_bytes();
}

proof fn lemma_read_bytes_of_enc(buf: Seq<u8>, pos: int, b: Seq<u8>)
    requires
        0 <= pos,
        b.len() <= u64::MAX,
        pos + 8 + b.len() <= buf.len(),
        buf.subrange(pos, pos + 8 + b.len()) == spec_enc_bytes(b),
    ensures
        spec_read_bytes(buf, pos) == Some((b, pos + 8 + b.len())),
{
    lemma_auto_spec_u64_to_from_le_bytes();
    let whole = buf.subrange(pos, pos + 8 + b.len());
    assert(buf.subrange(pos, pos + 8) =~= whole.subrange(0, 8));
    assert(whole.subrange(0, 8) =~= spec_u64_to_le_bytes(b.len() as u64));
    lemma_read_u64_of_le(buf, pos, b.len() as u64);
    assert(buf.subrange(pos + 8, pos + 8 + b.len()) =~= whole.subrange(8, 8 + b.len() as int));
    assert(whole.subrange(8, 8 + b.len() as int) =~= b);
}

/// Framing siblings from the front: the first framed field is the first
/// sibling.
proof fn lemma_enc_sibs_first(sibs: Seq<Seq<u8>>)
    requires
        sibs.len() >= 1,
    ensures
        spec_enc_sibs(sibs) == spec_enc_bytes(sibs[0]) + spec_enc_sibs(sibs.skip(1)),
    decreases sibs.len(),
{
    if sibs.len() == 1 {
        assert(sibs.drop_last() =~= Seq::<Seq<u8>>::empty());
        assert(sibs.skip(1) =~= Seq::<Seq<u8>>::empty());
        assert(spec_enc_bytes(sibs[0]) + spec_enc_sibs(sibs.skip(1)) =~= spec_enc_bytes(
            sibs.last(),
        ));
    } else {
        let front = sibs.drop_last();
        lemma_enc_sibs_first(front);
        assert(front.skip(1) =~= sibs.skip(1).drop_last());
        assert(sibs.skip(1).last() == sibs.last());
        assert(spec_enc_sibs(sibs) =~= spec_enc_bytes(sibs[0]) + (spec_enc_sibs(
            sibs.skip(1).drop_last(),
        ) + spec_enc_bytes(sibs.skip(1).last())));
    }
}

proof fn lemma_read_sibs_of_enc(buf: Seq<u8>, pos: int, sibs: Seq<Seq<u8>>)
    requires
        0 <= pos,
        forall|j: int| 0 <= j < sibs.len() ==> (#[trigger] sibs[j]).len() <= u64::MAX,
        pos + spec_enc_sibs(sibs).len() <= buf.len(),
        buf.subrange(pos, pos + spec_enc_sibs(sibs).len()) == spec_enc_sibs(sibs),
    ensures
        spec_read_sibs(buf, pos, sibs.len() as int) == Some(
            (sibs, pos + spec_enc_sibs(sibs).len()),
        ),
    decreases sibs.len(),
{
    if sibs.len() == 0 {
        assert(sibs =~= Seq::<Seq<u8>>::empty());
    } else {
        lemma_auto_spec_u64_to_from_le_bytes();
        lemma_enc_sibs_first(sibs);
        let b = sibs[0];
        let rest = sibs.skip(1);
        let whole = spec_enc_sibs(sibs);
        let head_len = 8 + b.len() as int;
        assert(whole.len() == head_len + spec_enc_sibs(rest).len());
        assert(buf.subrange(pos, pos + head_len) =~= whole.subrange(0, head_len));
        assert(whole.subrange(0, head_len) =~= spec_enc_bytes(b));
        lemma_read_bytes_of_enc(buf, pos, b);
        assert(buf.subrange(pos + head_len, pos + head_len + spec_enc_sibs(rest).len())
            =~= whole.subrange(head_len, whole.len() as int));
        assert(whole.subrange(head_len, whole.len() as int) =~= spec_enc_sibs(rest));
        lemma_read_sibs_of_enc(buf, pos + head_len, rest);
        assert(seq![b] + rest =~= sibs);
    }
}

proof fn lemma_read_proof_of_enc(buf: Seq<u8>, pos: int, p: MerkleProofView)
    requires
        0 <= pos,
        0 <= p.index <= u64::MAX,
        0 <= p.total <= u64::MAX,
        p.siblings.len() <= u64::MAX,
        forall|j: int| 0 <= j < p.siblings.len() ==> (#[trigger] p.siblings[j]).len() <= u64::MAX,
        pos + spec_enc_proof(p).len() <= buf.len(),
        buf.subrange(pos, pos + spec_enc_proof(p).len()) == spec_enc_proof(p),
    ensures
        spec_read_proof(buf, pos) == Some((p, pos + spec_enc_proof(p).len())),
{
    lemma_auto_spec_u64_to_from_le_bytes();
    let whole = spec_enc_proof(p);
    let sibs_enc = spec_enc_sibs(p.siblings);
    assert(whole.len() == 24 + sibs_enc.len());
    assert(buf.subrange(pos, pos + 8) =~= whole.subrange(0, 8));
    assert(whole.subrange(0, 8) =~= spec_u64_to_le_bytes(p.index as u64));
    lemma_read_u64_of_le(buf, pos, p.index as u64);
    assert(buf.subrange(pos + 8, pos + 16) =~= whole.subrange(8, 16));
    assert(whole.subrange(8, 16) =~= spec_u64_to_le_bytes(p.total as u64));
    lemma_read_u64_of_le(buf, pos + 8, p.total as u64);
    assert(buf.subrange(pos + 16, pos + 24) =~= whole.subrange(16, 24));
    assert(whole.subrange(16, 24) =~= spec_u64_to_le_bytes(p.siblings.len() as u64));
    lemma_read_u64_of_le(buf, pos + 16, p.siblings.len() as u64);
    assert(buf.subrange(pos + 24, pos + 24 + sibs_enc.len()) =~= whole.subrange(
        24,
        whole.len() as int,
    ));
    assert(whole.subrange(24, whole.len() as int) =~= sibs_enc);
    lemma_read_sibs_of_enc(buf, pos + 24, p.siblings);
}

/// The round-trip law of the persisted frame: decoding the library's own
/// encoding of a stripped header parses back exactly that header, provided
/// its pieces fit the frame's 64-bit length fields.
pub proof fn lemma_codec_round_trip(s: StrippedHeaderView)
    requires
        s.hash.len() <= u64::MAX,
        s.last_block_id.len() <= u64::MAX,
        s.data_root.len() <= u64::MAX,
        0 <= s.last_block_id_proof.index <= u64::MAX,
        0 <= s.last_block_id_proof.total <= u64::MAX,
        s.last_block_id_proof.siblings.len() <= u64::MAX,
        forall|j: int| 0 <= j < s.last_block_id_proof.siblings.len()
            ==> (#[trigger] s.last_block_id_proof.siblings[j]).len() <= u64::MAX,
        0 <= s.data_root_proof.index <= u64::MAX,
        0 <= s.data_root_proof.total <= u64::MAX,
        s.data_root_proof.siblings.len() <= u64::MAX,
        forall|j: int| 0 <= j < s.data_root_proof.siblings.len()
            ==> (#[trigger] s.data_root_proof.siblings[j]).len() <= u64::MAX,
    ensures
        spec_parse_header(spec_enc_header(s)) == Some(s),
{
    lemma_auto_spec_u64_to_from_le_bytes();
    let buf = spec_enc_header(s);
    let e1 = spec_enc_bytes(s.hash);
    let e2 = spec_enc_bytes(s.last_block_id);
    let e3 = spec_enc_proof(s.last_block_id_proof);
    let e4 = spec_enc_bytes(s.data_root);
    let e5 = spec_enc_proof(s.data_root_proof);
    let p1 = e1.len() as int;
    let p2 = p1 + e2.len();
    let p3 = p2 + e3.len();
    let p4 = p3 + e4.len();
    let end = p4 + e5.len();
    assert(buf.len() == end);
    assert(buf.subrange(0, p1) =~= e1);
    lemma_read_bytes_of_enc(buf, 0, s.hash);
    assert(buf.subrange(p1, p2) =~= e2);
    lemma_read_bytes_of_enc(buf, p1, s.last_block_id);
    assert(buf.subrange(p2, p3) =~= e3);
    lemma_read_proof_of_enc(buf, p2, s.last_block_id_proof);
    assert(buf.subrange(p3, p4) =~= e4);
    lemma_read_bytes_of_enc(buf, p3, s.data_root);
    assert(buf.subrange(p4, end) =~= e5);
    lemma_read_proof_of_enc(buf, p4, s.data_root_proof);
    assert(spec_parse_header(buf) == Some(s));
}

/// The width check on the stored sibling vectors is the well-formedness of
/// the proof's view.
proof fn lemma_sibs_wf_bridge(p: MerkleProof)
    ensures
        (forall|t: int| 0 <= t < p.siblings@.len() ==> (#[trigger] p.siblings@[t])@.len() == 32)
            == p@.wf(),
{
    let v = crate::merkle::views(p.siblings@);
    if forall|t: int| 0 <= t < p.siblings@.len() ==> (#[trigger] p.siblings@[t])@.len() == 32 {
        assert forall|j: int| 0 <= j < v.len() implies (#[trigger] v[j]).len() == 32 by {
            assert(v[j] == p.siblings@[j]@);
        }
        assert(p@.wf());
    }
    if p@.wf() {
        assert forall|t: int|
            0 <= t < p.siblings@.len() implies (#[trigger] p.siblings@[t])@.len() == 32 by {
            assert(p@.siblings[t] == p.siblings@[t]@);
        }
    }
}

/// Whether every entry has the canonical 32-byte digest width.
fn sibs_are_digests(sibs: &Vec<Vec<u8>>) -> (r: bool)
    ensures
        r == (forall|t: int| 0 <= t < sibs@.len() ==> (#[trigger] sibs@[t])@.len() == 32),
{
    let mut j: usize = 0;
    let mut ok = true;
    while j < sibs.len()
        invariant
            j <= sibs@.len(),
            ok == (forall|t: int| 0 <= t < j ==> (#[trigger] sibs@[t])@.len() == 32),
        decreases sibs@.len() - j,
    {
        if sibs[j].len() != 32 {
            ok = false;
        }
        j += 1;
    }
    ok
}

} // verus!
