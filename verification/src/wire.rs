//! Wire encodings for delta mode: the signature and delta streams that
//! travel over the data channel, the delta stream closed by an explicit
//! end-of-transmission marker.

use crate::delta::{
    apply_spec, delta_ops_bounded, delta_ops_wf, lemma_covers_apply_succeeds,
    lemma_delta_round_trip, no_weak_collision, Delta, DeltaOp, Signature, MAX_BLOCK_SIZE,
};
use crate::error::{ErrorKind, ProtocolError};
use vstd::bytes::*;
use vstd::prelude::*;

verus! {

/// End-of-transmission marker closing a delta stream (the ASCII EOT
/// character).
pub const STOP_WORD: u8 = 0x04;

/// Wire tag opening a `Copy` instruction.
pub const TAG_COPY: u8 = 0x01;

/// Wire tag opening an `Insert` instruction.
pub const TAG_INSERT: u8 = 0x02;

/// The checksums of a signature, each as 8 little-endian bytes.
pub open spec fn sums_bytes(sums: Seq<u64>) -> Seq<u8>
    decreases sums.len(),
{
    if sums.len() == 0 {
        Seq::empty()
    } else {
        sums_bytes(sums.drop_last()) + spec_u64_to_le_bytes(sums.last())
    }
}

/// Encoded checksums take 8 bytes each.
pub proof fn lemma_sums_bytes_len(sums: Seq<u64>)
    ensures
        sums_bytes(sums).len() == 8 * sums.len(),
    decreases sums.len(),
{
    lemma_auto_spec_u64_to_from_le_bytes();
    if sums.len() > 0 {
        lemma_sums_bytes_len(sums.drop_last());
    }
}

/// Equal encodings mean equal checksum lists.
proof fn lemma_sums_bytes_injective(s1: Seq<u64>, s2: Seq<u64>)
    requires
        s1.len() == s2.len(),
        sums_bytes(s1) == sums_bytes(s2),
    ensures
        s1 == s2,
    decreases s1.len(),
{
    lemma_auto_spec_u64_to_from_le_bytes();
    if s1.len() > 0 {
        lemma_sums_bytes_len(s1.drop_last());
        lemma_sums_bytes_len(s2.drop_last());
        let b = sums_bytes(s1);
        let k = 8 * (s1.len() - 1);
        assert(b.subrange(k as int, b.len() as int) =~= spec_u64_to_le_bytes(s1.last()));
        assert(b.subrange(k as int, b.len() as int) =~= spec_u64_to_le_bytes(s2.last()));
        assert(s1.last() == s2.last());
        assert(b.subrange(0, k as int) =~= sums_bytes(s1.drop_last()));
        assert(b.subrange(0, k as int) =~= sums_bytes(s2.drop_last()));
        lemma_sums_bytes_injective(s1.drop_last(), s2.drop_last());
        assert forall|i: int| 0 <= i < s1.len() implies s1[i] == s2[i] by {
            if i < s1.len() - 1 {
                assert(s1[i] == s1.drop_last()[i]);
                assert(s2[i] == s2.drop_last()[i]);
            }
        }
        assert(s1 =~= s2);
    } else {
        assert(s1 =~= s2);
    }
}

/// The wire form of a signature: block size, file length, full-block
/// count and checksum count as little-endian 64-bit values, then the
/// checksums.
pub open spec fn spec_encode_signature(sig: Signature) -> Seq<u8> {
    spec_u64_to_le_bytes(sig.block_size as u64) + spec_u64_to_le_bytes(sig.file_len as u64)
        + spec_u64_to_le_bytes(sig.full_blocks as u64) + spec_u64_to_le_bytes(
        sig.sums@.len() as u64,
    ) + sums_bytes(sig.sums@)
}

/// Whether bytes are a structurally valid signature message: a complete
/// header whose fields are in range and mutually consistent, followed by
/// exactly the announced number of checksums.
pub open spec fn signature_bytes_valid(s: Seq<u8>) -> bool {
    &&& s.len() >= 32
    &&& ({
        let bs = spec_u64_from_le_bytes(s.subrange(0, 8)) as int;
        let fl = spec_u64_from_le_bytes(s.subrange(8, 16)) as int;
        let fb = spec_u64_from_le_bytes(s.subrange(16, 24)) as int;
        let count = spec_u64_from_le_bytes(s.subrange(24, 32)) as int;
        &&& 1 <= bs <= MAX_BLOCK_SIZE
        &&& fl <= usize::MAX
        &&& fb <= count
        &&& s.len() == 32 + 8 * count
        &&& fb * bs <= fl
        &&& fl < (fb + 1) * bs
    })
}

/// Where each piece of a signature encoding lies.
pub proof fn lemma_signature_encode_shape(sig: Signature)
    ensures
        spec_encode_signature(sig).len() == 32 + 8 * sig.sums@.len(),
        spec_encode_signature(sig).subrange(0, 8) == spec_u64_to_le_bytes(
            sig.block_size as u64,
        ),
        spec_encode_signature(sig).subrange(8, 16) == spec_u64_to_le_bytes(
            sig.file_len as u64,
        ),
        spec_encode_signature(sig).subrange(16, 24) == spec_u64_to_le_bytes(
            sig.full_blocks as u64,
        ),
        spec_encode_signature(sig).subrange(24, 32) == spec_u64_to_le_bytes(
            sig.sums@.len() as u64,
        ),
        spec_encode_signature(sig).subrange(32, spec_encode_signature(sig).len() as int)
            == sums_bytes(sig.sums@),
{
    lemma_auto_spec_u64_to_from_le_bytes();
    lemma_sums_bytes_len(sig.sums@);
    let e = spec_encode_signature(sig);
    assert(e.subrange(0, 8) =~= spec_u64_to_le_bytes(sig.block_size as u64));
    assert(e.subrange(8, 16) =~= spec_u64_to_le_bytes(sig.file_len as u64));
    assert(e.subrange(16, 24) =~= spec_u64_to_le_bytes(sig.full_blocks as u64));
    assert(e.subrange(24, 32) =~= spec_u64_to_le_bytes(sig.sums@.len() as u64));
    assert(e.subrange(32, e.len() as int) =~= sums_bytes(sig.sums@));
}

/// Encoding a well-formed signature yields a valid message: what one
/// endpoint sends, the other accepts.
pub proof fn lemma_encode_signature_valid(sig: Signature)
    requires
        sig.wf(),
        sig.sums@.len() <= u64::MAX,
    ensures
        signature_bytes_valid(spec_encode_signature(sig)),
{
    lemma_auto_spec_u64_to_from_le_bytes();
    lemma_signature_encode_shape(sig);
}

/// Two well-formed signatures with the same encoding are the same.
pub proof fn lemma_signature_encode_injective(s1: Signature, s2: Signature)
    requires
        spec_encode_signature(s1) == spec_encode_signature(s2),
        s1.sums@.len() <= u64::MAX,
        s2.sums@.len() <= u64::MAX,
    ensures
        s1.block_size == s2.block_size,
        s1.file_len == s2.file_len,
        s1.full_blocks == s2.full_blocks,
        s1.sums@ == s2.sums@,
{
    lemma_auto_spec_u64_to_from_le_bytes();
    lemma_signature_encode_shape(s1);
    lemma_signature_encode_shape(s2);
    let e = spec_encode_signature(s1);
    assert(s1.block_size as u64 == spec_u64_from_le_bytes(e.subrange(0, 8)));
    assert(s1.sums@.len() as u64 == spec_u64_from_le_bytes(e.subrange(24, 32)));
    lemma_sums_bytes_injective(s1.sums@, s2.sums@);
}

/// Encode a signature for the wire.
pub fn encode_signature(sig: &Signature) -> (r: Vec<u8>)
    ensures
        r@ == spec_encode_signature(*sig),
{
    let mut v = u64_to_le_bytes(sig.block_size as u64);
    let mut piece = u64_to_le_bytes(sig.file_len as u64);
    v.append(&mut piece);
    let mut piece = u64_to_le_bytes(sig.full_blocks as u64);
    v.append(&mut piece);
    let mut piece = u64_to_le_bytes(sig.sums.len() as u64);
    v.append(&mut piece);
    let ghost header = v@;
    let mut j: usize = 0;
    while j < sig.sums.len()
        invariant
            0 <= j <= sig.sums@.len(),
            v@ == header + sums_bytes(sig.sums@.take(j as int)),
        decreases sig.sums@.len() - j,
    {
        let mut piece = u64_to_le_bytes(sig.sums[j]);
        v.append(&mut piece);
        j = j + 1;
        proof {
            assert(sig.sums@.take(j as int).drop_last() =~= sig.sums@.take(j - 1));
            assert(sig.sums@.take(j as int).last() == sig.sums@[j - 1]);
            assert(header + sums_bytes(sig.sums@.take(j - 1)) + spec_u64_to_le_bytes(
                sig.sums@[j - 1],
            ) =~= header + sums_bytes(sig.sums@.take(j as int)));
        }
    }
    proof {
        assert(sig.sums@.take(sig.sums@.len() as int) =~= sig.sums@);
        assert(v@ =~= spec_encode_signature(*sig));
    }
    v
}

/// Decode one signature message. Succeeds exactly on structurally valid
/// messages; anything else is a `NetworkIO` error, never a panic. On
/// success the bytes are exactly the encoding of the returned signature,
/// and it is well-formed.
pub fn decode_signature(bytes: &Vec<u8>) -> (r: Result<Signature, ProtocolError>)
    ensures
        r is Ok <==> signature_bytes_valid(bytes@),
        r matches Ok(sig) ==> bytes@ == spec_encode_signature(sig) && sig.wf(),
        r matches Err(e) ==> e.kind == ErrorKind::NetworkIO,
{
    proof {
        lemma_auto_spec_u64_to_from_le_bytes();
    }
    if bytes.len() < 32 {
        return Err(ProtocolError::new(
            ErrorKind::NetworkIO,
            "signature message is truncated".to_string(),
        ));
    }
    let bs64 = u64_from_le_bytes(vstd::slice::slice_subrange(bytes.as_slice(), 0, 8));
    let fl64 = u64_from_le_bytes(vstd::slice::slice_subrange(bytes.as_slice(), 8, 16));
    let fb64 = u64_from_le_bytes(vstd::slice::slice_subrange(bytes.as_slice(), 16, 24));
    let count64 = u64_from_le_bytes(vstd::slice::slice_subrange(bytes.as_slice(), 24, 32));
    if bs64 < 1 || bs64 > MAX_BLOCK_SIZE as u64 {
        return Err(ProtocolError::new(
            ErrorKind::NetworkIO,
            "signature block size is out of range".to_string(),
        ));
    }
    if fl64 > usize::MAX as u64 || fb64 > count64 {
        return Err(ProtocolError::new(
            ErrorKind::NetworkIO,
            "signature header is inconsistent".to_string(),
        ));
    }
    if bytes.len() as u128 != 32 + 8 * (count64 as u128) {
        return Err(ProtocolError::new(
            ErrorKind::NetworkIO,
            "signature length does not match its checksum count".to_string(),
        ));
    }
    proof {
        assert((fb64 as int) * (bs64 as int) <= (u64::MAX as int) * 4096) by (nonlinear_arith)
            requires
                0 <= fb64 as int <= u64::MAX as int,
                0 <= bs64 as int <= 4096,
        ;
        assert(((fb64 as int) + 1) * (bs64 as int) <= ((u64::MAX as int) + 1) * 4096)
            by (nonlinear_arith)
            requires
                0 <= fb64 as int <= u64::MAX as int,
                0 <= bs64 as int <= 4096,
        ;
    }
    if (fb64 as u128) * (bs64 as u128) > fl64 as u128 || fl64 as u128 >= ((
    fb64 as u128) + 1) * (bs64 as u128) {
        return Err(ProtocolError::new(
            ErrorKind::NetworkIO,
            "signature block accounting is inconsistent".to_string(),
        ));
    }
    let count = count64 as usize;
    let blen = bytes.len();
    proof {
        assert(bytes@.len() == 32 + 8 * (count64 as int));
    }
    let mut sums: Vec<u64> = Vec::new();
    let mut j: usize = 0;
    while j < count
        invariant
            blen == bytes@.len(),
            blen == 32 + 8 * count,
            0 <= j <= count,
            sums@.len() == j,
            sums_bytes(sums@) =~= bytes@.subrange(32, 32 + 8 * j),
        decreases count - j,
    {
        proof {
            assert(32 + 8 * j + 8 <= blen);
        }
        let w = u64_from_le_bytes(
            vstd::slice::slice_subrange(bytes.as_slice(), 32 + 8 * j, 40 + 8 * j),
        );
        let ghost pre = sums@;
        sums.push(w);
        j = j + 1;
        proof {
            lemma_auto_spec_u64_to_from_le_bytes();
            let s8 = bytes@.subrange(32 + 8 * (j - 1), 40 + 8 * (j - 1));
            assert(w == spec_u64_from_le_bytes(s8));
            assert(spec_u64_to_le_bytes(spec_u64_from_le_bytes(s8)) == s8);
            assert(sums@.drop_last() =~= pre);
            assert(sums@.last() == w);
            assert(sums_bytes(sums@) == sums_bytes(pre) + spec_u64_to_le_bytes(w));
            assert(sums_bytes(sums@) =~= bytes@.subrange(32, 32 + 8 * j));
        }
    }
    let sig = Signature {
        block_size: bs64 as usize,
        file_len: fl64 as usize,
        full_blocks: fb64 as usize,
        sums,
    };
    proof {
        assert(bytes@ =~= spec_encode_signature(sig));
    }
    Ok(sig)
}

/// The wire form of one instruction: a tag byte, then the block index
/// (for `Copy`) or a length prefix and the literal bytes (for `Insert`).
pub open spec fn op_bytes(op: DeltaOp) -> Seq<u8> {
    match op {
        DeltaOp::Copy { block_index } => seq![TAG_COPY] + spec_u64_to_le_bytes(
            block_index as u64,
        ),
        DeltaOp::Insert { data } => seq![TAG_INSERT] + spec_u64_to_le_bytes(
            data@.len() as u64,
        ) + data@,
    }
}

/// The wire form of an instruction list, in order.
pub open spec fn ops_bytes(ops: Seq<DeltaOp>) -> Seq<u8>
    decreases ops.len(),
{
    if ops.len() == 0 {
        Seq::empty()
    } else {
        op_bytes(ops[0]) + ops_bytes(ops.skip(1))
    }
}

/// Appending one instruction appends its bytes.
proof fn lemma_ops_bytes_snoc(ops: Seq<DeltaOp>, op: DeltaOp)
    ensures
        ops_bytes(ops.push(op)) == ops_bytes(ops) + op_bytes(op),
    decreases ops.len(),
{
    if ops.len() == 0 {
        assert(ops.push(op)[0] == op);
        assert(ops.push(op).skip(1) =~= Seq::<DeltaOp>::empty());
        assert(ops_bytes(ops.push(op)) == op_bytes(ops.push(op)[0]) + ops_bytes(
            ops.push(op).skip(1),
        ));
        assert(ops_bytes(ops) == Seq::<u8>::empty());
        assert(ops_bytes(ops.push(op)) =~= ops_bytes(ops) + op_bytes(op));
    } else {
        assert(ops.push(op)[0] == ops[0]);
        assert(ops.push(op).skip(1) =~= ops.skip(1).push(op));
        lemma_ops_bytes_snoc(ops.skip(1), op);
        assert(op_bytes(ops[0]) + (ops_bytes(ops.skip(1)) + op_bytes(op)) =~= (op_bytes(
            ops[0],
        ) + ops_bytes(ops.skip(1))) + op_bytes(op));
    }
}

/// Whether bytes are a structurally valid instruction stream: complete
/// instructions one after the other, closed by the end marker as the
/// very last byte.
pub open spec fn delta_ops_stream_valid(s: Seq<u8>) -> bool
    decreases s.len(),
{
    if s.len() == 0 {
        false
    } else if s[0] == STOP_WORD {
        s.len() == 1
    } else if s[0] == TAG_COPY {
        if s.len() < 9 {
            false
        } else if spec_u64_from_le_bytes(s.subrange(1, 9)) as int > usize::MAX as int {
            false
        } else {
            delta_ops_stream_valid(s.skip(9))
        }
    } else if s[0] == TAG_INSERT {
        if s.len() < 9 {
            false
        } else {
            let n = spec_u64_from_le_bytes(s.subrange(1, 9)) as int;
            if n < 1 || 9 + n > s.len() {
                false
            } else {
                delta_ops_stream_valid(s.skip(9 + n))
            }
        }
    } else {
        false
    }
}

/// The wire form of a whole delta: the block size, the instructions,
/// and the end-of-transmission marker.
pub open spec fn spec_encode_delta(d: Delta) -> Seq<u8> {
    spec_u64_to_le_bytes(d.block_size as u64) + ops_bytes(d.ops@) + seq![STOP_WORD]
}

/// Whether bytes are a structurally valid delta message.
pub open spec fn delta_bytes_valid(s: Seq<u8>) -> bool {
    &&& s.len() >= 8
    &&& 1 <= spec_u64_from_le_bytes(s.subrange(0, 8)) <= MAX_BLOCK_SIZE
    &&& delta_ops_stream_valid(s.skip(8))
}

/// A well-formed instruction list followed by the end marker is a valid
/// stream.
proof fn lemma_ops_stream_valid(ops: Seq<DeltaOp>)
    requires
        delta_ops_wf(ops),
        delta_ops_bounded(ops),
    ensures
        delta_ops_stream_valid(ops_bytes(ops) + seq![STOP_WORD]),
    decreases ops.len(),
{
    lemma_auto_spec_u64_to_from_le_bytes();
    let s = ops_bytes(ops) + seq![STOP_WORD];
    if ops.len() == 0 {
        assert(s =~= seq![STOP_WORD]);
    } else {
        let rest = ops.skip(1);
        assert(delta_ops_wf(rest) && delta_ops_bounded(rest)) by {
            assert(forall|i: int| 0 <= i < rest.len() ==> rest[i] == ops[i + 1]);
        }
        lemma_ops_stream_valid(rest);
        let tail = ops_bytes(rest) + seq![STOP_WORD];
        match ops[0] {
            DeltaOp::Copy { block_index } => {
                assert(s[0] == TAG_COPY);
                assert(s.subrange(1, 9) =~= spec_u64_to_le_bytes(block_index as u64));
                assert(spec_u64_from_le_bytes(s.subrange(1, 9)) == block_index as u64);
                assert(s.skip(9) =~= tail);
            },
            DeltaOp::Insert { data } => {
                assert(s[0] == TAG_INSERT);
                assert(s.subrange(1, 9) =~= spec_u64_to_le_bytes(data@.len() as u64));
                assert(spec_u64_from_le_bytes(s.subrange(1, 9)) == data@.len() as u64);
                assert(s.skip(9 + data@.len() as int) =~= tail);
            },
        }
    }
}

/// Encoding a well-formed delta yields a valid message: what one
/// endpoint sends, the other accepts.
pub proof fn lemma_encode_delta_valid(d: Delta)
    requires
        delta_ops_wf(d.ops@),
        delta_ops_bounded(d.ops@),
        1 <= d.block_size <= MAX_BLOCK_SIZE,
    ensures
        delta_bytes_valid(spec_encode_delta(d)),
{
    lemma_auto_spec_u64_to_from_le_bytes();
    let e = spec_encode_delta(d);
    assert(e.subrange(0, 8) =~= spec_u64_to_le_bytes(d.block_size as u64));
    assert(e.skip(8) =~= ops_bytes(d.ops@) + seq![STOP_WORD]);
    lemma_ops_stream_valid(d.ops@);
}

/// Whether two instructions carry the same content.
pub open spec fn op_eq(a: DeltaOp, b: DeltaOp) -> bool {
    match (a, b) {
        (DeltaOp::Copy { block_index: i }, DeltaOp::Copy { block_index: j }) => i == j,
        (DeltaOp::Insert { data: d1 }, DeltaOp::Insert { data: d2 }) => d1@ == d2@,
        _ => false,
    }
}

/// Whether two instruction lists carry the same content.
pub open spec fn ops_eq(o1: Seq<DeltaOp>, o2: Seq<DeltaOp>) -> bool {
    o1.len() == o2.len() && forall|i: int| 0 <= i < o1.len() ==> op_eq(#[trigger] o1[i], o2[i])
}

/// Equal encodings mean the same instructions.
proof fn lemma_ops_bytes_injective(o1: Seq<DeltaOp>, o2: Seq<DeltaOp>)
    requires
        delta_ops_bounded(o1),
        delta_ops_bounded(o2),
        ops_bytes(o1) == ops_bytes(o2),
    ensures
        ops_eq(o1, o2),
    decreases o1.len(),
{
    lemma_auto_spec_u64_to_from_le_bytes();
    if o1.len() == 0 || o2.len() == 0 {
        if o1.len() != 0 {
            assert(ops_bytes(o1).len() >= 1);
        }
        if o2.len() != 0 {
            assert(ops_bytes(o2).len() >= 1);
        }
        assert(o1.len() == 0 && o2.len() == 0);
    } else {
        let b = ops_bytes(o1);
        let rest1 = o1.skip(1);
        let rest2 = o2.skip(1);
        assert(delta_ops_bounded(rest1) && delta_ops_bounded(rest2)) by {
            assert(forall|i: int| 0 <= i < rest1.len() ==> rest1[i] == o1[i + 1]);
            assert(forall|i: int| 0 <= i < rest2.len() ==> rest2[i] == o2[i + 1]);
        }
        match (o1[0], o2[0]) {
            (DeltaOp::Copy { block_index: i1 }, DeltaOp::Copy { block_index: i2 }) => {
                assert(b.subrange(1, 9) =~= spec_u64_to_le_bytes(i1 as u64));
                assert(b.subrange(1, 9) =~= spec_u64_to_le_bytes(i2 as u64));
                assert(i1 as u64 == i2 as u64);
                assert(b.skip(9) =~= ops_bytes(rest1));
                assert(b.skip(9) =~= ops_bytes(rest2));
                lemma_ops_bytes_injective(rest1, rest2);
                assert(forall|i: int| 1 <= i < o1.len() ==> o1[i] == rest1[i - 1]);
                assert(forall|i: int| 1 <= i < o2.len() ==> o2[i] == rest2[i - 1]);
            },
            (DeltaOp::Insert { data: d1 }, DeltaOp::Insert { data: d2 }) => {
                assert(b.subrange(1, 9) =~= spec_u64_to_le_bytes(d1@.len() as u64));
                assert(b.subrange(1, 9) =~= spec_u64_to_le_bytes(d2@.len() as u64));
                assert(d1@.len() as u64 == d2@.len() as u64);
                let n = d1@.len() as int;
                assert(b.subrange(9, 9 + n) =~= d1@);
                assert(b.subrange(9, 9 + n) =~= d2@);
                assert(b.skip(9 + n) =~= ops_bytes(rest1));
                assert(b.skip(9 + n) =~= ops_bytes(rest2));
                lemma_ops_bytes_injective(rest1, rest2);
                assert(forall|i: int| 1 <= i < o1.len() ==> o1[i] == rest1[i - 1]);
                assert(forall|i: int| 1 <= i < o2.len() ==> o2[i] == rest2[i - 1]);
            },
            (DeltaOp::Copy { block_index: i1 }, DeltaOp::Insert { data: d2 }) => {
                assert(b[0] == TAG_COPY);
                assert(b[0] == TAG_INSERT);
            },
            (DeltaOp::Insert { data: d1 }, DeltaOp::Copy { block_index: i2 }) => {
                assert(b[0] == TAG_INSERT);
                assert(b[0] == TAG_COPY);
            },
        }
    }
}

/// Two well-formed deltas with the same encoding carry the same block
/// size and the same instructions.
pub proof fn lemma_delta_encode_injective(d1: Delta, d2: Delta)
    requires
        delta_ops_bounded(d1.ops@),
        delta_ops_bounded(d2.ops@),
        spec_encode_delta(d1) == spec_encode_delta(d2),
    ensures
        d1.block_size == d2.block_size,
        ops_eq(d1.ops@, d2.ops@),
{
    lemma_auto_spec_u64_to_from_le_bytes();
    let e = spec_encode_delta(d1);
    assert(e.subrange(0, 8) =~= spec_u64_to_le_bytes(d1.block_size as u64));
    assert(e.subrange(0, 8) =~= spec_u64_to_le_bytes(d2.block_size as u64));
    assert(d1.block_size as u64 == d2.block_size as u64);
    assert(e.subrange(8, e.len() - 1) =~= ops_bytes(d1.ops@));
    assert(e.subrange(8, e.len() - 1) =~= ops_bytes(d2.ops@));
    lemma_ops_bytes_injective(d1.ops@, d2.ops@);
}

/// Encode a delta for the wire, closing it with the end marker.
pub fn encode_delta(delta: &Delta) -> (r: Vec<u8>)
    ensures
        r@ == spec_encode_delta(*delta),
{
    let mut v = u64_to_le_bytes(delta.block_size as u64);
    let ghost header = v@;
    let mut j: usize = 0;
    while j < delta.ops.len()
        invariant
            0 <= j <= delta.ops@.len(),
            v@ == header + ops_bytes(delta.ops@.take(j as int)),
        decreases delta.ops@.len() - j,
    {
        let ghost pre_taken = delta.ops@.take(j as int);
        match &delta.ops[j] {
            DeltaOp::Copy { block_index } => {
                v.push(TAG_COPY);
                let mut piece = u64_to_le_bytes(*block_index as u64);
                v.append(&mut piece);
            },
            DeltaOp::Insert { data } => {
                v.push(TAG_INSERT);
                let mut piece = u64_to_le_bytes(data.len() as u64);
                v.append(&mut piece);
                let mut literal = vstd::slice::slice_to_vec(data.as_slice());
                v.append(&mut literal);
            },
        }
        j = j + 1;
        proof {
            assert(delta.ops@.take(j as int) =~= pre_taken.push(delta.ops@[j - 1]));
            lemma_ops_bytes_snoc(pre_taken, delta.ops@[j - 1]);
            assert(v@ =~= header + ops_bytes(delta.ops@.take(j as int)));
        }
    }
    v.push(STOP_WORD);
    proof {
        assert(delta.ops@.take(delta.ops@.len() as int) =~= delta.ops@);
        assert(v@ =~= spec_encode_delta(*delta));
    }
    v
}

/// Decode one delta message. Succeeds exactly on structurally valid
/// messages — complete instructions closed by the end marker as the last
/// byte — and returns the delta whose encoding the bytes are. Anything
/// else is a `NetworkIO` error, never a panic.
pub fn decode_delta(bytes: &Vec<u8>) -> (r: Result<Delta, ProtocolError>)
    ensures
        r is Ok <==> delta_bytes_valid(bytes@),
        r matches Ok(d) ==> bytes@ == spec_encode_delta(d) && delta_ops_wf(d.ops@)
            && delta_ops_bounded(d.ops@) && 1 <= d.block_size <= MAX_BLOCK_SIZE,
        r matches Err(e) ==> e.kind == ErrorKind::NetworkIO,
{
    proof {
        lemma_auto_spec_u64_to_from_le_bytes();
    }
    let blen = bytes.len();
    if blen < 8 {
        return Err(ProtocolError::new(
            ErrorKind::NetworkIO,
            "delta message is truncated".to_string(),
        ));
    }
    let bs64 = u64_from_le_bytes(vstd::slice::slice_subrange(bytes.as_slice(), 0, 8));
    if bs64 < 1 || bs64 > MAX_BLOCK_SIZE as u64 {
        return Err(ProtocolError::new(
            ErrorKind::NetworkIO,
            "delta block size is out of range".to_string(),
        ));
    }
    let mut ops: Vec<DeltaOp> = Vec::new();
    let mut pos: usize = 8;
    proof {
        assert(bytes@.subrange(8, 8) =~= ops_bytes(ops@));
    }
    while pos < blen
        invariant
            blen == bytes@.len(),
            8 <= pos <= blen,
            1 <= bs64 <= MAX_BLOCK_SIZE,
            bs64 == spec_u64_from_le_bytes(bytes@.subrange(0, 8)),
            ops_bytes(ops@) =~= bytes@.subrange(8, pos as int),
            delta_ops_wf(ops@),
            delta_ops_bounded(ops@),
            delta_ops_stream_valid(bytes@.skip(8)) <==> delta_ops_stream_valid(
                bytes@.skip(pos as int),
            ),
        decreases blen - pos,
    {
        let ghost suffix = bytes@.skip(pos as int);
        proof {
            assert(suffix[0] == bytes@[pos as int]);
            assert(suffix.len() == blen - pos);
        }
        let tag = bytes[pos];
        if tag == STOP_WORD {
            if blen - pos == 1 {
                let d = Delta { block_size: bs64 as usize, ops };
                proof {
                    lemma_auto_spec_u64_to_from_le_bytes();
                    assert(spec_u64_to_le_bytes(spec_u64_from_le_bytes(bytes@.subrange(0, 8)))
                        == bytes@.subrange(0, 8));
                    assert(suffix =~= seq![STOP_WORD]);
                    assert(delta_ops_stream_valid(suffix));
                    assert(bytes@ =~= spec_encode_delta(d));
                }
                return Ok(d);
            } else {
                return Err(ProtocolError::new(
                    ErrorKind::NetworkIO,
                    "bytes follow the end marker".to_string(),
                ));
            }
        } else if tag == TAG_COPY {
            if blen - pos < 9 {
                return Err(ProtocolError::new(
                    ErrorKind::NetworkIO,
                    "copy instruction is truncated".to_string(),
                ));
            }
            let idx64 = u64_from_le_bytes(
                vstd::slice::slice_subrange(bytes.as_slice(), pos + 1, pos + 9),
            );
            proof {
                assert(suffix.subrange(1, 9) =~= bytes@.subrange(pos + 1, pos + 9));
            }
            if idx64 > usize::MAX as u64 {
                return Err(ProtocolError::new(
                    ErrorKind::NetworkIO,
                    "copy block index is out of range".to_string(),
                ));
            }
            let ghost pre_ops = ops@;
            ops.push(DeltaOp::Copy { block_index: idx64 as usize });
            pos = pos + 9;
            proof {
                lemma_auto_spec_u64_to_from_le_bytes();
                assert(spec_u64_to_le_bytes(spec_u64_from_le_bytes(
                    bytes@.subrange(pos - 8, pos as int),
                )) == bytes@.subrange(pos - 8, pos as int));
                let op = DeltaOp::Copy { block_index: idx64 as usize };
                lemma_ops_bytes_snoc(pre_ops, op);
                assert(op_bytes(op) =~= bytes@.subrange(pos - 9, pos as int));
                assert(ops_bytes(ops@) =~= bytes@.subrange(8, pos as int));
                assert(suffix.skip(9) =~= bytes@.skip(pos as int));
                assert(delta_ops_stream_valid(suffix) <==> delta_ops_stream_valid(
                    bytes@.skip(pos as int),
                ));
            }
        } else if tag == TAG_INSERT {
            if blen - pos < 9 {
                return Err(ProtocolError::new(
                    ErrorKind::NetworkIO,
                    "insert instruction is truncated".to_string(),
                ));
            }
            let n64 = u64_from_le_bytes(
                vstd::slice::slice_subrange(bytes.as_slice(), pos + 1, pos + 9),
            );
            proof {
                assert(suffix.subrange(1, 9) =~= bytes@.subrange(pos + 1, pos + 9));
            }
            if n64 == 0 {
                return Err(ProtocolError::new(
                    ErrorKind::NetworkIO,
                    "insert instruction carries no bytes".to_string(),
                ));
            }
            if n64 as u128 > (blen - pos - 9) as u128 {
                return Err(ProtocolError::new(
                    ErrorKind::NetworkIO,
                    "insert instruction is longer than the stream".to_string(),
                ));
            }
            let n = n64 as usize;
            let data = vstd::slice::slice_to_vec(
                vstd::slice::slice_subrange(bytes.as_slice(), pos + 9, pos + 9 + n),
            );
            let ghost pre_ops = ops@;
            ops.push(DeltaOp::Insert { data });
            pos = pos + 9 + n;
            proof {
                lemma_auto_spec_u64_to_from_le_bytes();
                assert(spec_u64_to_le_bytes(spec_u64_from_le_bytes(
                    bytes@.subrange(pos - 8 - n, pos - n),
                )) == bytes@.subrange(pos - 8 - n, pos - n));
                let op_added = ops@.last();
                lemma_ops_bytes_snoc(pre_ops, op_added);
                assert(op_bytes(op_added) =~= bytes@.subrange(pos - 9 - n, pos as int));
                assert(ops_bytes(ops@) =~= bytes@.subrange(8, pos as int));
                assert(suffix.skip(9 + n) =~= bytes@.skip(pos as int));
                assert(delta_ops_stream_valid(suffix) <==> delta_ops_stream_valid(
                    bytes@.skip(pos as int),
                ));
            }
        } else {
            return Err(ProtocolError::new(
                ErrorKind::NetworkIO,
                "unknown instruction tag".to_string(),
            ));
        }
    }
    proof {
        assert(bytes@.skip(pos as int).len() == 0);
    }
    Err(ProtocolError::new(
        ErrorKind::NetworkIO,
        "delta stream is missing its end marker".to_string(),
    ))
}

/// Instruction lists with the same content reconstruct the same bytes.
proof fn lemma_apply_respects_ops_eq(stale: Seq<u8>, bs: int, o1: Seq<DeltaOp>, o2: Seq<DeltaOp>)
    requires
        ops_eq(o1, o2),
    ensures
        apply_spec(stale, bs, o1) == apply_spec(stale, bs, o2),
    decreases o1.len(),
{
    if o1.len() > 0 {
        assert(op_eq(o1.last(), o2.last()));
        assert(ops_eq(o1.drop_last(), o2.drop_last())) by {
            assert(forall|i: int| 0 <= i < o1.len() - 1 ==> o1.drop_last()[i] == o1[i]);
            assert(forall|i: int| 0 <= i < o2.len() - 1 ==> o2.drop_last()[i] == o2[i]);
        }
        lemma_apply_respects_ops_eq(stale, bs, o1.drop_last(), o2.drop_last());
    }
}

/// The whole delta-sync exchange as it crosses the wire: the stale
/// side's signature is encoded, decoded by the current side and diffed
/// against, and the resulting delta is encoded, decoded back on the
/// stale side and applied. Whenever the two files have no checksum
/// collision, the reconstruction is byte-identical to the current file.
pub fn delta_sync_over_wire(stale: &Vec<u8>, current: &Vec<u8>, block_size: usize) -> (r:
    Result<Vec<u8>, ProtocolError>)
    requires
        1 <= block_size <= MAX_BLOCK_SIZE,
    ensures
        r is Ok,
        no_weak_collision(stale@, block_size as int, current@) ==> (r matches Ok(v) && v@
            == current@),
{
    let sig = crate::delta::compute_signature(stale, block_size);
    let sums_count = sig.sums.len();
    let sig_msg = encode_signature(&sig);
    let sig_decoded = match decode_signature(&sig_msg) {
        Ok(s) => s,
        Err(e) => {
            proof {
                lemma_encode_signature_valid(sig);
                assert(false);
            }
            return Err(e);
        },
    };
    let decoded_count = sig_decoded.sums.len();
    proof {
        lemma_signature_encode_injective(sig_decoded, sig);
        assert(sig_decoded.matches_file(stale@));
    }
    let delta = crate::delta::compute_delta(current, &sig_decoded);
    let delta_msg = encode_delta(&delta);
    let delta_decoded = match decode_delta(&delta_msg) {
        Ok(d) => d,
        Err(e) => {
            proof {
                lemma_encode_delta_valid(delta);
                assert(false);
            }
            return Err(e);
        },
    };
    proof {
        lemma_delta_encode_injective(delta_decoded, delta);
        lemma_covers_apply_succeeds(
            stale@,
            sig_decoded,
            current@,
            delta.ops@,
            current@.len() as int,
        );
        lemma_apply_respects_ops_eq(
            stale@,
            block_size as int,
            delta_decoded.ops@,
            delta.ops@,
        );
        if no_weak_collision(stale@, block_size as int, current@) {
            lemma_delta_round_trip(stale@, sig_decoded, current@, delta.ops@);
        }
    }
    match crate::delta::apply_delta(stale, &delta_decoded) {
        Ok(v) => Ok(v),
        Err(e) => {
            proof {
                assert(false);
            }
            Err(e)
        },
    }
}

} // verus!
