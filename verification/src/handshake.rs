//! The metadata handshake: the record exchanged over the control channel
//! before any bulk data moves, and its framed wire encoding.

use crate::error::{ErrorKind, ProtocolError};
use vstd::bytes::*;
use vstd::prelude::*;

verus! {

/// Capacity of the fixed handshake buffer: an encoded handshake larger
/// than this is rejected locally, before anything touches the network.
pub const HANDSHAKE_BUFFER_SIZE: usize = 4096;

/// Bytes the encoding spends besides the two variable fields: an 8-byte
/// size, and a 2-byte length prefix before each of hash and file name.
pub const HANDSHAKE_OVERHEAD: usize = 12;

/// Info about one file, sent once before its bytes: the hex content hash,
/// the byte size, and the original file name. Immutable after creation.
#[derive(Clone, Debug)]
pub struct Handshake {
    /// Lowercase hex digest of the whole file content, as ASCII bytes.
    pub hash: Vec<u8>,
    /// File size in bytes; the authoritative framing boundary of the
    /// data channel.
    pub size: u64,
    /// The sender's original file name, as raw bytes.
    pub file_name: Vec<u8>,
}

/// Whether a handshake's encoding fits the fixed handshake buffer.
pub open spec fn handshake_fits(h: Handshake) -> bool {
    HANDSHAKE_OVERHEAD + h.hash@.len() + h.file_name@.len() <= HANDSHAKE_BUFFER_SIZE
}

/// The wire encoding: little-endian size, then each variable field behind
/// a 2-byte length prefix.
pub open spec fn spec_encode_handshake(h: Handshake) -> Seq<u8> {
    spec_u64_to_le_bytes(h.size) + spec_u16_to_le_bytes(h.hash@.len() as u16) + h.hash@
        + spec_u16_to_le_bytes(h.file_name@.len() as u16) + h.file_name@
}

/// Shape of a fitting handshake's encoding: its total length, and where
/// each component lies.
pub proof fn lemma_handshake_encode_shape(h: Handshake)
    requires
        handshake_fits(h),
    ensures
        spec_encode_handshake(h).len() == HANDSHAKE_OVERHEAD + h.hash@.len()
            + h.file_name@.len(),
        spec_encode_handshake(h).subrange(0, 8) == spec_u64_to_le_bytes(h.size),
        spec_encode_handshake(h).subrange(8, 10) == spec_u16_to_le_bytes(h.hash@.len() as u16),
        spec_encode_handshake(h).subrange(10, 10 + h.hash@.len() as int) == h.hash@,
        spec_encode_handshake(h).subrange(
            10 + h.hash@.len() as int,
            12 + h.hash@.len() as int,
        ) == spec_u16_to_le_bytes(h.file_name@.len() as u16),
        spec_encode_handshake(h).subrange(
            12 + h.hash@.len() as int,
            spec_encode_handshake(h).len() as int,
        ) == h.file_name@,
{
    lemma_auto_spec_u64_to_from_le_bytes();
    lemma_auto_spec_u16_to_from_le_bytes();
    let e = spec_encode_handshake(h);
    let hl = h.hash@.len() as int;
    let nl = h.file_name@.len() as int;
    assert(e.len() == 12 + hl + nl);
    assert(e.subrange(0, 8) =~= spec_u64_to_le_bytes(h.size));
    assert(e.subrange(8, 10) =~= spec_u16_to_le_bytes(h.hash@.len() as u16));
    assert(e.subrange(10, 10 + hl) =~= h.hash@);
    assert(e.subrange(10 + hl, 12 + hl) =~= spec_u16_to_le_bytes(h.file_name@.len() as u16));
    assert(e.subrange(12 + hl, e.len() as int) =~= h.file_name@);
}

/// Two fitting handshakes with the same encoding are the same record.
pub proof fn lemma_handshake_encode_injective(h1: Handshake, h2: Handshake)
    requires
        handshake_fits(h1),
        handshake_fits(h2),
        spec_encode_handshake(h1) == spec_encode_handshake(h2),
    ensures
        h1.hash@ == h2.hash@,
        h1.size == h2.size,
        h1.file_name@ == h2.file_name@,
{
    lemma_auto_spec_u64_to_from_le_bytes();
    lemma_auto_spec_u16_to_from_le_bytes();
    lemma_handshake_encode_shape(h1);
    lemma_handshake_encode_shape(h2);
    let e = spec_encode_handshake(h1);
    assert(h1.size == spec_u64_from_le_bytes(e.subrange(0, 8)));
    assert(h1.hash@.len() as u16 == spec_u16_from_le_bytes(e.subrange(8, 10)));
    assert(h2.hash@.len() as u16 == spec_u16_from_le_bytes(e.subrange(8, 10)));
    assert(h1.hash@.len() == h2.hash@.len());
}

impl Handshake {
    /// Encode for the wire. Fails with a `Handshake`-kind error, before
    /// anything is sent, exactly when the record exceeds the buffer.
    pub fn encode(&self) -> (r: Result<Vec<u8>, ProtocolError>)
        ensures
            r is Ok <==> handshake_fits(*self),
            r matches Ok(v) ==> v@ == spec_encode_handshake(*self),
            r matches Err(e) ==> e.kind == ErrorKind::Handshake,
    {
        if self.hash.len() > HANDSHAKE_BUFFER_SIZE - HANDSHAKE_OVERHEAD
            || self.file_name.len()
                > HANDSHAKE_BUFFER_SIZE - HANDSHAKE_OVERHEAD - self.hash.len() {
            return Err(ProtocolError::new(
                ErrorKind::Handshake,
                "handshake exceeds the fixed buffer".to_string(),
            ));
        }
        let mut v = u64_to_le_bytes(self.size);
        let hash_len = u16_to_le_bytes(self.hash.len() as u16);
        v.append(&mut hash_len.clone());
        v.extend_from_slice(self.hash.as_slice());
        let name_len = u16_to_le_bytes(self.file_name.len() as u16);
        v.append(&mut name_len.clone());
        v.extend_from_slice(self.file_name.as_slice());
        proof {
            assert(v@ =~= spec_encode_handshake(*self));
        }
        Ok(v)
    }

    /// Decode one framed handshake message. A malformed or oversized
    /// payload is a `Handshake`-kind error, never a panic; on success the
    /// bytes are exactly the encoding of the returned record.
    pub fn decode(bytes: &Vec<u8>) -> (r: Result<Handshake, ProtocolError>)
        ensures
            r matches Ok(h) ==> bytes@ == spec_encode_handshake(h) && handshake_fits(h),
            r is Err ==> forall|h: Handshake|
                handshake_fits(h) ==> bytes@ != spec_encode_handshake(h),
            r matches Err(e) ==> e.kind == ErrorKind::Handshake,
    {
        proof {
            lemma_auto_spec_u64_to_from_le_bytes();
            lemma_auto_spec_u16_to_from_le_bytes();
        }
        if bytes.len() < HANDSHAKE_OVERHEAD || bytes.len() > HANDSHAKE_BUFFER_SIZE {
            proof {
                assert forall|h: Handshake| handshake_fits(h) implies bytes@
                    != spec_encode_handshake(h) by {
                    lemma_handshake_encode_shape(h);
                }
            }
            return Err(ProtocolError::new(
                ErrorKind::Handshake,
                "handshake frame has an impossible length".to_string(),
            ));
        }
        let size = u64_from_le_bytes(vstd::slice::slice_subrange(bytes.as_slice(), 0, 8));
        let hash_len = u16_from_le_bytes(
            vstd::slice::slice_subrange(bytes.as_slice(), 8, 10),
        ) as usize;
        if hash_len > bytes.len() - HANDSHAKE_OVERHEAD {
            proof {
                assert forall|h: Handshake| handshake_fits(h) implies bytes@
                    != spec_encode_handshake(h) by {
                    lemma_handshake_encode_shape(h);
                    if bytes@ == spec_encode_handshake(h) {
                        assert(bytes@.subrange(8, 10) == spec_u16_to_le_bytes(
                            h.hash@.len() as u16,
                        ));
                    }
                }
            }
            return Err(ProtocolError::new(
                ErrorKind::Handshake,
                "handshake hash length is inconsistent".to_string(),
            ));
        }
        let name_len = u16_from_le_bytes(
            vstd::slice::slice_subrange(bytes.as_slice(), 10 + hash_len, 12 + hash_len),
        ) as usize;
        if bytes.len() - HANDSHAKE_OVERHEAD - hash_len != name_len {
            proof {
                assert forall|h: Handshake| handshake_fits(h) implies bytes@
                    != spec_encode_handshake(h) by {
                    lemma_handshake_encode_shape(h);
                    if bytes@ == spec_encode_handshake(h) {
                        assert(bytes@.subrange(8, 10) == spec_u16_to_le_bytes(
                            h.hash@.len() as u16,
                        ));
                        assert(bytes@.subrange(
                            10 + h.hash@.len() as int,
                            12 + h.hash@.len() as int,
                        ) == spec_u16_to_le_bytes(h.file_name@.len() as u16));
                    }
                }
            }
            return Err(ProtocolError::new(
                ErrorKind::Handshake,
                "handshake name length is inconsistent".to_string(),
            ));
        }
        let hash = vstd::slice::slice_to_vec(
            vstd::slice::slice_subrange(bytes.as_slice(), 10, 10 + hash_len),
        );
        let file_name = vstd::slice::slice_to_vec(
            vstd::slice::slice_subrange(
                bytes.as_slice(),
                12 + hash_len,
                bytes.len(),
            ),
        );
        let h = Handshake { hash, size, file_name };
        proof {
            assert(bytes@ =~= spec_encode_handshake(h));
        }
        Ok(h)
    }
}

/// The file-name component of a byte path: everything after the last
/// separator, or the whole path when it has none.
pub open spec fn spec_file_name(p: Seq<u8>) -> Seq<u8>
    decreases p.len(),
{
    if p.len() == 0 {
        Seq::empty()
    } else if p.last() == 47 {
        Seq::empty()
    } else {
        spec_file_name(p.drop_last()).push(p.last())
    }
}

/// A suffix that contains no separator and starts right after one (or at
/// the path's start) is the path's file name.
proof fn lemma_file_name_suffix(p: Seq<u8>, k: int)
    requires
        0 <= k <= p.len(),
        forall|j: int| k <= j < p.len() ==> p[j] != 47,
        k > 0 ==> p[k - 1] == 47,
    ensures
        spec_file_name(p) == p.subrange(k, p.len() as int),
    decreases p.len() - k,
{
    if k == p.len() {
        assert(p.subrange(k, p.len() as int) =~= Seq::<u8>::empty());
        if p.len() > 0 {
            assert(p.last() == 47);
        }
    } else {
        assert(p.last() != 47);
        lemma_file_name_suffix(p.drop_last(), k);
        assert(p.drop_last().subrange(k, p.len() - 1) =~= p.subrange(k, p.len() - 1));
        assert(p.subrange(k, p.len() - 1).push(p.last()) =~= p.subrange(k, p.len() as int));
    }
}

/// The file-name component of a path given as raw bytes: the part after
/// the last `/`, or the whole path when it holds no `/`.
pub fn get_file_name_from_as_ref_path(path: &Vec<u8>) -> (r: Vec<u8>)
    ensures
        r@ == spec_file_name(path@),
{
    let mut k: usize = path.len();
    while k > 0 && path[k - 1] != 47
        invariant
            0 <= k <= path@.len(),
            forall|j: int| k <= j < path@.len() ==> path@[j] != 47,
        decreases k,
    {
        k = k - 1;
    }
    proof {
        lemma_file_name_suffix(path@, k as int);
    }
    vstd::slice::slice_to_vec(
        vstd::slice::slice_subrange(path.as_slice(), k, path.len()),
    )
}

} // verus!
