//! Delta synchronization: block signatures, rolling-window diffing, and
//! patch application, so that only the differences between a stale copy
//! and the current file need to travel.
//!
//! The holder of the stale copy computes a [`Signature`] (one checksum
//! per fixed-size block) and sends it; the holder of the current copy
//! scans its file against the signature — on a checksum hit it emits a
//! `Copy` of a whole block and advances a full block, on a miss it
//! extends an `Insert` of literal bytes and advances one byte — and the
//! stale side applies the resulting [`Delta`] to reconstruct the current
//! content. The reconstruction is exact whenever no two differing
//! windows collide on the checksum.

use crate::error::{ErrorKind, ProtocolError};
use vstd::math::min;
use vstd::prelude::*;

verus! {

/// Default block size for signatures, derived from the network buffer
/// size so one block fits one data-channel message.
pub const DEFAULT_BLOCK_SIZE: usize = 4096;

/// Largest block size the checksum arithmetic is proved overflow-free
/// for.
pub const MAX_BLOCK_SIZE: usize = 4096;

/// First component of the rolling checksum: the plain byte sum.
pub open spec fn sum_a(s: Seq<u8>) -> int
    decreases s.len(),
{
    if s.len() == 0 {
        0
    } else {
        sum_a(s.drop_last()) + s.last()
    }
}

/// Second component: the sum of all prefix byte sums, which weights
/// earlier bytes more and makes the checksum position-sensitive.
pub open spec fn sum_b(s: Seq<u8>) -> int
    decreases s.len(),
{
    if s.len() == 0 {
        0
    } else {
        sum_b(s.drop_last()) + sum_a(s)
    }
}

/// The per-block checksum: both components packed into one value.
pub open spec fn weak_sum(s: Seq<u8>) -> int {
    sum_a(s) + 0x1_0000_0000 * sum_b(s)
}

/// Compute the checksum of one block or window.
pub fn weak_checksum(block: &[u8]) -> (r: u64)
    requires
        block@.len() <= MAX_BLOCK_SIZE,
    ensures
        r as int == weak_sum(block@),
{
    let mut a: u64 = 0;
    let mut b: u64 = 0;
    let mut i: usize = 0;
    while i < block.len()
        invariant
            0 <= i <= block@.len() <= MAX_BLOCK_SIZE,
            a as int == sum_a(block@.take(i as int)),
            b as int == sum_b(block@.take(i as int)),
            a <= 255 * i,
            b <= 1044480 * i,
        decreases block@.len() - i,
    {
        a = a + (block[i] as u64);
        b = b + a;
        i = i + 1;
        proof {
            assert(block@.take(i as int).drop_last() =~= block@.take(i - 1));
            assert(block@.take(i as int).last() == block@[i - 1]);
        }
    }
    proof {
        assert(block@.take(block@.len() as int) =~= block@);
    }
    a + b * 0x1_0000_0000
}

/// The `i`-th block of a file cut into `bs`-byte blocks; the last block
/// may be shorter.
pub open spec fn spec_block_at(stale: Seq<u8>, bs: int, i: int) -> Seq<u8> {
    stale.subrange(i * bs, min((i + 1) * bs, stale.len() as int))
}

/// An ordered sequence of per-block checksums over a reference file,
/// generated by the holder of the stale copy.
#[derive(Clone, Debug)]
pub struct Signature {
    /// The block size the file was cut with.
    pub block_size: usize,
    /// The reference file's length in bytes.
    pub file_len: usize,
    /// How many blocks are full `block_size`-byte blocks.
    pub full_blocks: usize,
    /// One checksum per block, in file order.
    pub sums: Vec<u64>,
}

impl Signature {
    /// Structural invariant: a usable block size, and `full_blocks`
    /// consistent with the file length.
    pub open spec fn wf(self) -> bool {
        &&& 1 <= self.block_size <= MAX_BLOCK_SIZE
        &&& self.full_blocks * self.block_size <= self.file_len
        &&& self.file_len < (self.full_blocks + 1) * self.block_size
        &&& self.full_blocks <= self.sums@.len()
    }

    /// This signature describes exactly the file `stale`.
    pub open spec fn matches_file(self, stale: Seq<u8>) -> bool {
        &&& self.wf()
        &&& self.file_len == stale.len()
        &&& stale.len() <= self.sums@.len() * self.block_size
        &&& forall|i: int|
            0 <= i < self.sums@.len() ==> (#[trigger] self.sums@[i]) as int == weak_sum(
                spec_block_at(stale, self.block_size as int, i),
            )
    }
}

/// Compute the signature of a reference file: cut it into blocks and
/// checksum each one.
pub fn compute_signature(stale: &Vec<u8>, block_size: usize) -> (r: Signature)
    requires
        1 <= block_size <= MAX_BLOCK_SIZE,
    ensures
        r.block_size == block_size,
        r.matches_file(stale@),
{
    let bs = block_size;
    let mut sums: Vec<u64> = Vec::new();
    let mut full_blocks: usize = 0;
    let mut pos: usize = 0;
    while stale.len() - pos >= bs
        invariant
            1 <= bs <= MAX_BLOCK_SIZE,
            0 <= pos <= stale@.len(),
            full_blocks == sums@.len(),
            full_blocks * bs == pos,
            forall|i: int|
                0 <= i < sums@.len() ==> (#[trigger] sums@[i]) as int == weak_sum(
                    spec_block_at(stale@, bs as int, i),
                ),
        decreases stale@.len() - pos,
    {
        let w = weak_checksum(vstd::slice::slice_subrange(stale.as_slice(), pos, pos + bs));
        let ghost c = sums@.len() as int;
        sums.push(w);
        proof {
            assert((c + 1) * bs == c * bs + bs) by (nonlinear_arith);
            assert(stale@.subrange(pos as int, (pos + bs) as int) =~= spec_block_at(
                stale@,
                bs as int,
                c,
            ));
            assert forall|i: int|
                0 <= i < sums@.len() implies (#[trigger] sums@[i]) as int == weak_sum(
                spec_block_at(stale@, bs as int, i),
            ) by {
                if i < c {
                    assert(sums@[i] == sums@.subrange(0, c)[i]);
                }
            }
            assert(full_blocks <= full_blocks * bs) by (nonlinear_arith)
                requires bs >= 1, full_blocks >= 0;
        }
        full_blocks = full_blocks + 1;
        pos = pos + bs;
    }
    if pos < stale.len() {
        let w = weak_checksum(
            vstd::slice::slice_subrange(stale.as_slice(), pos, stale.len()),
        );
        let ghost c = sums@.len() as int;
        sums.push(w);
        proof {
            assert((c + 1) * bs == c * bs + bs) by (nonlinear_arith);
            assert(stale@.subrange(pos as int, stale@.len() as int) =~= spec_block_at(
                stale@,
                bs as int,
                c,
            ));
            assert forall|i: int|
                0 <= i < sums@.len() implies (#[trigger] sums@[i]) as int == weak_sum(
                spec_block_at(stale@, bs as int, i),
            ) by {
                if i < c {
                    assert(sums@[i] == sums@.subrange(0, c)[i]);
                }
            }
        }
    }
    let r = Signature { block_size: bs, file_len: stale.len(), full_blocks, sums };
    proof {
        assert((r.full_blocks + 1) * bs == r.full_blocks * bs + bs) by (nonlinear_arith);
        assert(r.sums@.len() * bs >= r.full_blocks * bs) by (nonlinear_arith)
            requires r.sums@.len() >= r.full_blocks, bs >= 1;
        assert((r.sums@.len() as int) * (bs as int) >= stale@.len() as int) by (nonlinear_arith)
            requires
                r.sums@.len() >= r.full_blocks,
                bs >= 1,
                r.full_blocks * bs <= stale@.len() < (r.full_blocks + 1) * bs,
                stale@.len() > r.full_blocks * bs ==> r.sums@.len() >= r.full_blocks + 1;
    }
    r
}

/// One delta instruction: copy a whole block of the stale file, or
/// insert literal bytes carried in the delta itself.
#[derive(Clone, Debug)]
pub enum DeltaOp {
    /// Reproduce the `block_index`-th block of the stale file.
    Copy { block_index: usize },
    /// Reproduce these literal bytes.
    Insert { data: Vec<u8> },
}

/// An ordered list of copy/insert instructions that transforms a stale
/// file into the current one.
#[derive(Clone, Debug)]
pub struct Delta {
    /// The block size `Copy` instructions refer to.
    pub block_size: usize,
    /// The instructions, in output order.
    pub ops: Vec<DeltaOp>,
}

/// How many output bytes one instruction stands for.
pub open spec fn op_len(op: DeltaOp, bs: int) -> int {
    match op {
        DeltaOp::Copy { .. } => bs,
        DeltaOp::Insert { data } => data@.len() as int,
    }
}

/// Total literal bytes carried by `Insert` instructions: the part of a
/// delta whose size scales with the edit, not with the file.
pub open spec fn insert_bytes(ops: Seq<DeltaOp>) -> int
    decreases ops.len(),
{
    if ops.len() == 0 {
        0
    } else {
        insert_bytes(ops.drop_last()) + match ops.last() {
            DeltaOp::Copy { .. } => 0,
            DeltaOp::Insert { data } => data@.len() as int,
        }
    }
}

/// Structurally well-formed instructions: every `Insert` carries at
/// least one literal byte.
pub open spec fn delta_ops_wf(ops: Seq<DeltaOp>) -> bool {
    forall|i: int|
        0 <= i < ops.len() ==> ((#[trigger] ops[i]) matches DeltaOp::Insert { data }
            ==> data@.len() >= 1)
}

/// Every `Insert`'s literal length fits a 64-bit length prefix.
pub open spec fn delta_ops_bounded(ops: Seq<DeltaOp>) -> bool {
    forall|i: int|
        0 <= i < ops.len() ==> ((#[trigger] ops[i]) matches DeltaOp::Insert { data }
            ==> data@.len() <= u64::MAX)
}

/// The instructions `ops` decompose `current`'s first `to` bytes: each
/// `Copy` covers a window whose checksum equals the signature's entry
/// for a full block, and each `Insert` covers exactly its literal bytes.
pub open spec fn delta_covers(ops: Seq<DeltaOp>, sig: Signature, current: Seq<u8>, to: int) -> bool
    decreases ops.len(),
{
    if ops.len() == 0 {
        to == 0
    } else {
        let op = ops.last();
        let bs = sig.block_size as int;
        let from = to - op_len(op, bs);
        &&& 0 <= from
        &&& to <= current.len()
        &&& delta_covers(ops.drop_last(), sig, current, from)
        &&& match op {
            DeltaOp::Copy { block_index } => {
                &&& (block_index + 1) * bs <= sig.file_len
                &&& block_index < sig.sums@.len()
                &&& (sig.sums@[block_index as int] as int) == weak_sum(
                    current.subrange(from, to),
                )
            },
            DeltaOp::Insert { data } => {
                &&& data@.len() >= 1
                &&& current.subrange(from, to) == data@
            },
        }
    }
}

/// What applying instructions to a stale file reconstructs: `None` when
/// a `Copy` reaches outside the stale file.
pub open spec fn apply_spec(stale: Seq<u8>, bs: int, ops: Seq<DeltaOp>) -> Option<Seq<u8>>
    decreases ops.len(),
{
    if ops.len() == 0 {
        Some(Seq::empty())
    } else {
        match apply_spec(stale, bs, ops.drop_last()) {
            None => None,
            Some(front) => match ops.last() {
                DeltaOp::Copy { block_index } => if (block_index + 1) * bs <= stale.len() {
                    Some(front + stale.subrange(
                        block_index * bs,
                        (block_index + 1) * bs,
                    ))
                } else {
                    None
                },
                DeltaOp::Insert { data } => Some(front + data@),
            },
        }
    }
}

/// No window of the current file shares a checksum with a differing full
/// block of the stale file. Checksum collisions are possible in
/// principle; this is the hypothesis under which delta reconstruction is
/// exact.
pub open spec fn no_weak_collision(stale: Seq<u8>, bs: int, current: Seq<u8>) -> bool {
    forall|p: int, i: int|
        0 <= p && p + bs <= current.len() && 0 <= i && (i + 1) * bs <= stale.len() && weak_sum(
            #[trigger] current.subrange(p, p + bs),
        ) == weak_sum(#[trigger] stale.subrange(i * bs, (i + 1) * bs))
            ==> current.subrange(p, p + bs) == stale.subrange(i * bs, (i + 1) * bs)
}

/// Applying instructions that cover the first `to` bytes of `current`
/// reconstructs exactly those bytes, provided the signature describes
/// `stale` and no checksum collision occurs.
proof fn lemma_covers_apply(
    stale: Seq<u8>,
    sig: Signature,
    current: Seq<u8>,
    ops: Seq<DeltaOp>,
    to: int,
)
    requires
        sig.matches_file(stale),
        delta_covers(ops, sig, current, to),
        no_weak_collision(stale, sig.block_size as int, current),
    ensures
        apply_spec(stale, sig.block_size as int, ops) == Some(current.subrange(0, to)),
    decreases ops.len(),
{
    let bs = sig.block_size as int;
    if ops.len() == 0 {
        assert(current.subrange(0, 0) =~= Seq::<u8>::empty());
    } else {
        let op = ops.last();
        let from = to - op_len(op, bs);
        lemma_covers_apply(stale, sig, current, ops.drop_last(), from);
        match op {
            DeltaOp::Copy { block_index } => {
                let i = block_index as int;
                assert(spec_block_at(stale, bs, i) =~= stale.subrange(i * bs, (i + 1) * bs));
                assert(weak_sum(current.subrange(from, to)) == weak_sum(
                    stale.subrange(i * bs, (i + 1) * bs),
                ));
                assert(current.subrange(from, to) == current.subrange(from, from + bs));
                assert(current.subrange(from, from + bs) == stale.subrange(
                    i * bs,
                    (i + 1) * bs,
                ));
                assert(current.subrange(0, from) + current.subrange(from, to) =~= current
                    .subrange(0, to));
            },
            DeltaOp::Insert { data } => {
                assert(current.subrange(0, from) + data@ =~= current.subrange(0, to));
            },
        }
    }
}

/// Delta round trip: a delta that covers all of `current`, applied to
/// the stale file its signature was computed from, reconstructs
/// `current` exactly — whenever no checksum collision occurs between the
/// two files.
pub proof fn lemma_delta_round_trip(
    stale: Seq<u8>,
    sig: Signature,
    current: Seq<u8>,
    ops: Seq<DeltaOp>,
)
    requires
        sig.matches_file(stale),
        delta_covers(ops, sig, current, current.len() as int),
        no_weak_collision(stale, sig.block_size as int, current),
    ensures
        apply_spec(stale, sig.block_size as int, ops) == Some(current),
{
    lemma_covers_apply(stale, sig, current, ops, current.len() as int);
    assert(current.subrange(0, current.len() as int) =~= current);
}

/// No full block of the signature matches the window at `p`: either no
/// full window starts there, or its checksum is not among the
/// signature's full-block checksums.
pub open spec fn no_match_at(sig: Signature, current: Seq<u8>, p: int) -> bool {
    !(p + sig.block_size <= current.len() && exists|j: int|
        0 <= j < sig.full_blocks && (#[trigger] sig.sums@[j]) as int == weak_sum(
            current.subrange(p, p + sig.block_size),
        ))
}

/// Literal bytes appear only where the scan found no block match: every
/// byte of an `Insert` stands at a position whose window matched no full
/// block of the signature.
pub open spec fn inserts_only_on_miss(
    ops: Seq<DeltaOp>,
    sig: Signature,
    current: Seq<u8>,
    to: int,
) -> bool
    decreases ops.len(),
{
    if ops.len() == 0 {
        true
    } else {
        let op = ops.last();
        let from = to - op_len(op, sig.block_size as int);
        &&& inserts_only_on_miss(ops.drop_last(), sig, current, from)
        &&& match op {
            DeltaOp::Copy { .. } => true,
            DeltaOp::Insert { .. } => forall|p: int|
                from <= p < to ==> no_match_at(sig, current, p),
        }
    }
}

/// Instructions that cover a current file only copy blocks lying inside
/// the reference file, so applying them to that file cannot fail.
pub proof fn lemma_covers_apply_succeeds(
    stale: Seq<u8>,
    sig: Signature,
    current: Seq<u8>,
    ops: Seq<DeltaOp>,
    to: int,
)
    requires
        sig.file_len == stale.len(),
        delta_covers(ops, sig, current, to),
    ensures
        apply_spec(stale, sig.block_size as int, ops) is Some,
    decreases ops.len(),
{
    if ops.len() > 0 {
        let bs = sig.block_size as int;
        let op = ops.last();
        lemma_covers_apply_succeeds(stale, sig, current, ops.drop_last(), to - op_len(op, bs));
    }
}

/// Diff the current file against a signature with a rolling window: a
/// full window whose checksum appears among the signature's full blocks
/// becomes a `Copy` and the scan advances a whole block; any other byte
/// extends an `Insert` and the scan advances one byte.
pub fn compute_delta(current: &Vec<u8>, sig: &Signature) -> (r: Delta)
    requires
        sig.wf(),
    ensures
        r.block_size == sig.block_size,
        delta_covers(r.ops@, *sig, current@, current@.len() as int),
        delta_ops_wf(r.ops@),
        delta_ops_bounded(r.ops@),
        inserts_only_on_miss(r.ops@, *sig, current@, current@.len() as int),
{
    let bs = sig.block_size;
    let mut ops: Vec<DeltaOp> = Vec::new();
    let mut pos: usize = 0;
    while pos < current.len()
        invariant
            sig.wf(),
            bs == sig.block_size,
            0 <= pos <= current@.len(),
            delta_covers(ops@, *sig, current@, pos as int),
            delta_ops_wf(ops@),
            delta_ops_bounded(ops@),
            inserts_only_on_miss(ops@, *sig, current@, pos as int),
        decreases current@.len() - pos,
    {
        let window_full = current.len() - pos >= bs;
        let mut matched: Option<usize> = None;
        let mut w: u64 = 0;
        if window_full {
            w = weak_checksum(
                vstd::slice::slice_subrange(current.as_slice(), pos, pos + bs),
            );
            let mut j: usize = 0;
            while j < sig.sums.len()
                invariant
                    sig.wf(),
                    0 <= j <= sig.sums@.len(),
                    matched matches Some(idx) ==> idx < sig.full_blocks
                        && idx < sig.sums@.len() && sig.sums@[idx as int] == w,
                    matched is None ==> forall|jj: int|
                        0 <= jj < j ==> !(jj < sig.full_blocks && (#[trigger] sig.sums@[jj])
                            == w),
                decreases sig.sums@.len() - j,
            {
                if matched.is_none() && j < sig.full_blocks && sig.sums[j] == w {
                    matched = Some(j);
                }
                j = j + 1;
            }
        }
        if let Some(idx) = matched {
            let ghost pre_ops = ops@;
            ops.push(DeltaOp::Copy { block_index: idx });
            proof {
                assert(ops@.drop_last() =~= pre_ops);
                assert((idx + 1) * (bs as int) <= sig.full_blocks * (bs as int))
                    by (nonlinear_arith)
                    requires (idx as int) + 1 <= sig.full_blocks as int, bs >= 1;
            }
            pos = pos + bs;
            continue;
        }
        // no match at this position: the byte is literal
        proof {
            assert(no_match_at(*sig, current@, pos as int)) by {
                if (pos as int) + (sig.block_size as int) <= current@.len() as int {
                    assert(window_full);
                    assert forall|j: int| 0 <= j < sig.full_blocks implies (
                    #[trigger] sig.sums@[j]) as int != weak_sum(
                        current@.subrange(pos as int, pos + sig.block_size),
                    ) by {
                        assert(!(j < sig.full_blocks && sig.sums@[j] == w));
                    }
                }
            }
        }
        let byte = current[pos];
        let ghost pre_ops = ops@;
        let extend = if ops.len() > 0 {
            matches!(ops[ops.len() - 1], DeltaOp::Insert { .. })
        } else {
            false
        };
        if extend {
            let last_op = ops.pop().unwrap();
            match last_op {
                DeltaOp::Insert { mut data } => {
                    let ghost pre_data = data@;
                    data.push(byte);
                    let dlen = data.len();
                    ops.push(DeltaOp::Insert { data });
                    proof {
                        assert(dlen <= usize::MAX as int && dlen <= u64::MAX as int);
                        assert(ops@.drop_last() =~= pre_ops.drop_last());
                        let from = pos - pre_data.len();
                        assert(current@.subrange(from, pos as int) == pre_data);
                        assert(current@.subrange(from, pos + 1) =~= pre_data.push(byte));
                    }
                },
                DeltaOp::Copy { .. } => {
                    proof {
                        assert(false);
                    }
                },
            }
        } else {
            let mut data: Vec<u8> = Vec::new();
            data.push(byte);
            ops.push(DeltaOp::Insert { data });
            proof {
                assert(ops@.drop_last() =~= pre_ops);
                assert(current@.subrange(pos as int, pos + 1) =~= seq![byte]);
            }
        }
        pos = pos + 1;
    }
    Delta { block_size: bs, ops }
}

/// A failed application of a prefix fails the whole instruction list.
proof fn lemma_apply_none_extends(stale: Seq<u8>, bs: int, ops: Seq<DeltaOp>, k: int)
    requires
        0 <= k <= ops.len(),
        apply_spec(stale, bs, ops.take(k)) is None,
    ensures
        apply_spec(stale, bs, ops) is None,
    decreases ops.len() - k,
{
    if k == ops.len() {
        assert(ops.take(k) =~= ops);
    } else {
        assert(ops.take(k + 1).drop_last() =~= ops.take(k));
        lemma_apply_none_extends(stale, bs, ops, k + 1);
    }
}

/// Whether `x` is a whole number of `bs`-sized blocks.
pub open spec fn block_aligned(x: int, bs: int) -> bool {
    exists|k: int| 0 <= k && x == #[trigger] (k * bs)
}

proof fn lemma_no_literals_aligned(stale: Seq<u8>, sig: Signature, ops: Seq<DeltaOp>, to: int)
    requires
        sig.matches_file(stale),
        block_aligned(stale.len() as int, sig.block_size as int),
        delta_covers(ops, sig, stale, to),
        inserts_only_on_miss(ops, sig, stale, to),
    ensures
        insert_bytes(ops) == 0,
        block_aligned(to, sig.block_size as int),
    decreases ops.len(),
{
    let bs = sig.block_size as int;
    if ops.len() == 0 {
        assert(0 == 0 * bs) by (nonlinear_arith);
        assert(block_aligned(0, bs));
    } else {
        let op = ops.last();
        let from = to - op_len(op, bs);
        lemma_no_literals_aligned(stale, sig, ops.drop_last(), from);
        match op {
            DeltaOp::Copy { .. } => {
                let k = choose|k: int| 0 <= k && from == #[trigger] (k * bs);
                assert((k + 1) * bs == k * bs + bs) by (nonlinear_arith);
                assert(to == (k + 1) * bs);
                assert(block_aligned(to, bs));
            },
            DeltaOp::Insert { data } => {
                let k1 = choose|k: int| 0 <= k && from == #[trigger] (k * bs);
                let klen = choose|k: int| 0 <= k && stale.len() == #[trigger] (k * bs);
                assert(stale.len() == sig.full_blocks * bs) by (nonlinear_arith)
                    requires
                        sig.full_blocks * bs <= stale.len() < (sig.full_blocks as int + 1)
                            * bs,
                        stale.len() == klen * bs,
                        0 <= klen,
                        bs >= 1,
                ;
                assert(data@.len() >= 1);
                assert(from < to <= stale.len());
                assert(k1 + 1 <= sig.full_blocks) by (nonlinear_arith)
                    requires
                        from == k1 * bs,
                        stale.len() == sig.full_blocks * bs,
                        from < stale.len(),
                        bs >= 1,
                        0 <= k1,
                ;
                assert((k1 + 1) * bs <= stale.len() && (k1 + 1) * bs == k1 * bs + bs)
                    by (nonlinear_arith)
                    requires
                        k1 + 1 <= sig.full_blocks as int,
                        stale.len() == sig.full_blocks * bs,
                        bs >= 1,
                        0 <= k1,
                ;
                assert(spec_block_at(stale, bs, k1) =~= stale.subrange(from, from + bs));
                assert(k1 < sig.sums@.len());
                assert((sig.sums@[k1] as int) == weak_sum(stale.subrange(from, from + bs)));
                assert(!no_match_at(sig, stale, from));
                assert(no_match_at(sig, stale, from));
            },
        }
    }
}

/// A file already identical to the reference, taking a whole number of
/// blocks, needs no literal bytes at all: its delta is pure block
/// copies, so what travels scales with the edit — here none — and not
/// with the file.
pub proof fn lemma_unchanged_file_needs_no_literals(
    stale: Seq<u8>,
    sig: Signature,
    ops: Seq<DeltaOp>,
)
    requires
        sig.matches_file(stale),
        block_aligned(stale.len() as int, sig.block_size as int),
        delta_covers(ops, sig, stale, stale.len() as int),
        inserts_only_on_miss(ops, sig, stale, stale.len() as int),
    ensures
        insert_bytes(ops) == 0,
{
    lemma_no_literals_aligned(stale, sig, ops, stale.len() as int);
}

/// Apply a delta to the stale copy: `Copy` reads a whole block from the
/// local stale file, `Insert` takes the literal bytes. A `Copy` that
/// reaches outside the stale file means the delta does not belong to
/// this copy and fails as `FileInvalid`; nothing is reconstructed then.
pub fn apply_delta(stale: &Vec<u8>, delta: &Delta) -> (r: Result<Vec<u8>, ProtocolError>)
    requires
        1 <= delta.block_size <= MAX_BLOCK_SIZE,
    ensures
        (apply_spec(stale@, delta.block_size as int, delta.ops@) matches Some(v) ==> (
        r matches Ok(out) && out@ == v)),
        (apply_spec(stale@, delta.block_size as int, delta.ops@) is None ==> (
        r matches Err(e) && e.kind == ErrorKind::FileInvalid)),
{
    let bs = delta.block_size;
    let mut out: Vec<u8> = Vec::new();
    let mut i: usize = 0;
    proof {
        assert(delta.ops@.take(0) =~= Seq::<DeltaOp>::empty());
    }
    while i < delta.ops.len()
        invariant
            bs == delta.block_size,
            1 <= bs <= MAX_BLOCK_SIZE,
            0 <= i <= delta.ops@.len(),
            apply_spec(stale@, bs as int, delta.ops@.take(i as int)) == Some(out@),
        decreases delta.ops@.len() - i,
    {
        let ghost pre = delta.ops@.take(i as int);
        proof {
            assert(delta.ops@.take(i + 1).drop_last() =~= pre);
            assert(delta.ops@.take(i + 1).last() == delta.ops@[i as int]);
        }
        match &delta.ops[i] {
            DeltaOp::Copy { block_index } => {
                let bi = *block_index;
                proof {
                    assert((bi as int + 1) * (bs as int) <= (usize::MAX as int + 1) * (
                    MAX_BLOCK_SIZE as int)) by (nonlinear_arith)
                        requires
                            0 <= bi as int <= usize::MAX as int,
                            1 <= bs as int <= MAX_BLOCK_SIZE as int,
                    ;
                }
                if (bi as u128 + 1) * (bs as u128) > stale.len() as u128 {
                    proof {
                        assert(apply_spec(stale@, bs as int, delta.ops@.take(i + 1)) is None);
                        lemma_apply_none_extends(stale@, bs as int, delta.ops@, i + 1);
                    }
                    return Err(ProtocolError::new(
                        ErrorKind::FileInvalid,
                        "delta references a block outside the stale copy".to_string(),
                    ));
                }
                proof {
                    assert((bi as int + 1) * (bs as int) == bi as int * bs as int
                        + bs as int) by (nonlinear_arith);
                }
                let start = bi * bs;
                let mut piece = vstd::slice::slice_to_vec(
                    vstd::slice::slice_subrange(stale.as_slice(), start, start + bs),
                );
                out.append(&mut piece);
            },
            DeltaOp::Insert { data } => {
                let mut piece = vstd::slice::slice_to_vec(data.as_slice());
                out.append(&mut piece);
            },
        }
        i = i + 1;
    }
    proof {
        assert(delta.ops@.take(delta.ops@.len() as int) =~= delta.ops@);
    }
    Ok(out)
}

/// The whole delta-sync pipeline run in memory: signature of the stale
/// copy, diff against the current copy, patch applied back onto the
/// stale copy. Whenever the two files have no checksum collision, the
/// result is byte-identical to the current file.
pub fn delta_sync(stale: &Vec<u8>, current: &Vec<u8>, block_size: usize) -> (r: Result<
    Vec<u8>,
    ProtocolError,
>)
    requires
        1 <= block_size <= MAX_BLOCK_SIZE,
    ensures
        r is Ok,
        no_weak_collision(stale@, block_size as int, current@) ==> (r matches Ok(v) && v@
            == current@),
{
    let sig = compute_signature(stale, block_size);
    let delta = compute_delta(current, &sig);
    proof {
        lemma_covers_apply_succeeds(
            stale@,
            sig,
            current@,
            delta.ops@,
            current@.len() as int,
        );
        if no_weak_collision(stale@, block_size as int, current@) {
            lemma_delta_round_trip(stale@, sig, current@, delta.ops@);
        }
    }
    match apply_delta(stale, &delta) {
        Ok(v) => Ok(v),
        Err(e) => {
            proof {
                assert(false);
            }
            Err(e)
        },
    }
}

/// Count the literal bytes a delta carries.
pub fn literal_byte_count(delta: &Delta) -> (n: usize)
    requires
        insert_bytes(delta.ops@) <= usize::MAX,
    ensures
        n == insert_bytes(delta.ops@),
{
    let mut n: usize = 0;
    let mut i: usize = 0;
    proof {
        assert(delta.ops@.take(0) =~= Seq::<DeltaOp>::empty());
    }
    while i < delta.ops.len()
        invariant
            0 <= i <= delta.ops@.len(),
            n == insert_bytes(delta.ops@.take(i as int)),
            insert_bytes(delta.ops@) <= usize::MAX,
        decreases delta.ops@.len() - i,
    {
        proof {
            assert(delta.ops@.take(i + 1).drop_last() =~= delta.ops@.take(i as int));
            assert(delta.ops@.take(i + 1).last() == delta.ops@[i as int]);
            lemma_insert_bytes_prefix(delta.ops@, i + 1);
        }
        match &delta.ops[i] {
            DeltaOp::Copy { .. } => {},
            DeltaOp::Insert { data } => {
                n = n + data.len();
            },
        }
        i = i + 1;
    }
    proof {
        assert(delta.ops@.take(delta.ops@.len() as int) =~= delta.ops@);
    }
    n
}

/// Literal bytes over a prefix never exceed those of the whole list.
proof fn lemma_insert_bytes_prefix(ops: Seq<DeltaOp>, k: int)
    requires
        0 <= k <= ops.len(),
    ensures
        insert_bytes(ops.take(k)) <= insert_bytes(ops),
        insert_bytes(ops.take(k)) >= 0,
    decreases ops.len() - k,
{
    lemma_insert_bytes_nonneg(ops.take(k));
    if k < ops.len() {
        lemma_insert_bytes_prefix(ops, k + 1);
        assert(ops.take(k + 1).drop_last() =~= ops.take(k));
    } else {
        assert(ops.take(k) =~= ops);
    }
}

/// Literal byte counts are never negative.
proof fn lemma_insert_bytes_nonneg(ops: Seq<DeltaOp>)
    ensures
        insert_bytes(ops) >= 0,
    decreases ops.len(),
{
    if ops.len() > 0 {
        lemma_insert_bytes_nonneg(ops.drop_last());
    }
}

} // verus!
