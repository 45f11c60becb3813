//! Content hashing: a trusted digest call and a verified hex encoding.
//!
//! The digest itself is computed by the `blake2` crate; this module gives
//! its result a name (`digest_of`) and proves everything downstream of it:
//! hex formatting and hash comparison.

use blake2::Digest;
use vstd::prelude::*;

verus! {

/// The 64-byte BLAKE2b-512 digest of a byte sequence. The digest is a
/// function of the bytes alone; its value is stated nowhere in this crate
/// and comes only from the `blake2` crate at run time.
pub uninterp spec fn digest_of(data: Seq<u8>) -> Seq<u8>;

/// Width in bytes of the digest this crate uses.
pub const DIGEST_LEN: usize = 64;

/// Relies on `blake2::Blake2b512` through `digest::Digest::digest`: the
/// 64-byte BLAKE2b-512 digest, a pure function of the input bytes.
#[verifier::external_body]
pub(crate) fn digest_bytes(data: &[u8]) -> (r: Vec<u8>)
    ensures
        r@ == digest_of(data@),
        r@.len() == DIGEST_LEN,
{
    blake2::Blake2b512::digest(data).to_vec()
}

/// The lowercase hex digit for a value below 16.
pub open spec fn spec_hex_digit(n: u8) -> u8
    recommends
        n < 16,
{
    if n < 10 {
        (48 + n) as u8
    } else {
        (87 + n) as u8
    }
}

/// The lowercase hex encoding of a byte sequence: two digits per byte,
/// high nibble first.
pub open spec fn hex_of(data: Seq<u8>) -> Seq<u8>
    decreases data.len(),
{
    if data.len() == 0 {
        Seq::empty()
    } else {
        hex_of(data.drop_last()) + seq![
            spec_hex_digit(data.last() / 16),
            spec_hex_digit(data.last() % 16),
        ]
    }
}

/// Hex encoding always yields two characters per byte.
pub proof fn lemma_hex_len(data: Seq<u8>)
    ensures
        hex_of(data).len() == 2 * data.len(),
    decreases data.len(),
{
    if data.len() > 0 {
        lemma_hex_len(data.drop_last());
    }
}

/// Hex encoding never conflates two byte sequences: equal encodings
/// mean equal bytes. Holding a received file's hex hash against the
/// announced one therefore compares the digests themselves.
pub proof fn lemma_hex_injective(a: Seq<u8>, b: Seq<u8>)
    requires
        hex_of(a) == hex_of(b),
    ensures
        a == b,
    decreases a.len(),
{
    lemma_hex_len(a);
    lemma_hex_len(b);
    if a.len() == 0 {
        assert(a =~= b);
    } else {
        let ha = hex_of(a);
        lemma_hex_len(a.drop_last());
        lemma_hex_len(b.drop_last());
        assert(ha[ha.len() - 2] == spec_hex_digit(a.last() / 16));
        assert(ha[ha.len() - 1] == spec_hex_digit(a.last() % 16));
        assert(ha[ha.len() - 2] == spec_hex_digit(b.last() / 16));
        assert(ha[ha.len() - 1] == spec_hex_digit(b.last() % 16));
        assert(a.last() / 16 < 16 && b.last() / 16 < 16) by (nonlinear_arith);
        assert(a.last() % 16 < 16 && b.last() % 16 < 16) by (nonlinear_arith);
        assert(a.last() / 16 == b.last() / 16);
        assert(a.last() % 16 == b.last() % 16);
        assert(a.last() == b.last()) by (nonlinear_arith)
            requires
                a.last() / 16 == b.last() / 16,
                a.last() % 16 == b.last() % 16,
        ;
        assert(hex_of(a).subrange(0, ha.len() - 2) =~= hex_of(a.drop_last()));
        assert(hex_of(b).subrange(0, ha.len() - 2) =~= hex_of(b.drop_last()));
        lemma_hex_injective(a.drop_last(), b.drop_last());
        assert forall|i: int| 0 <= i < a.len() implies a[i] == b[i] by {
            if i < a.len() - 1 {
                assert(a[i] == a.drop_last()[i]);
                assert(b[i] == b.drop_last()[i]);
            }
        }
        assert(a =~= b);
    }
}

/// Encode bytes as lowercase hex, high nibble first.
pub fn to_hex(data: &Vec<u8>) -> (r: Vec<u8>)
    ensures
        r@ == hex_of(data@),
{
    let mut r: Vec<u8> = Vec::new();
    let mut i: usize = 0;
    while i < data.len()
        invariant
            0 <= i <= data@.len(),
            r@ == hex_of(data@.take(i as int)),
        decreases data@.len() - i,
    {
        let b = data[i];
        let hi: u8 = b / 16;
        let lo: u8 = b % 16;
        r.push(if hi < 10 { 48 + hi } else { 87 + hi });
        r.push(if lo < 10 { 48 + lo } else { 87 + lo });
        i = i + 1;
        proof {
            assert(data@.take(i as int).drop_last() =~= data@.take(i - 1));
            assert(data@.take(i as int).last() == data@[i - 1]);
        }
    }
    proof {
        assert(data@.take(data@.len() as int) =~= data@);
    }
    r
}

/// Whether two byte vectors hold the same bytes.
pub fn bytes_equal(a: &Vec<u8>, b: &Vec<u8>) -> (r: bool)
    ensures
        r <==> a@ == b@,
{
    if a.len() != b.len() {
        proof {
            assert(a@.len() != b@.len());
        }
        return false;
    }
    let mut i: usize = 0;
    while i < a.len()
        invariant
            0 <= i <= a@.len(),
            a@.len() == b@.len(),
            forall|k: int| 0 <= k < i ==> a@[k] == b@[k],
        decreases a@.len() - i,
    {
        if a[i] != b[i] {
            return false;
        }
        i = i + 1;
    }
    proof {
        assert(a@ =~= b@);
    }
    true
}

/// The hex-encoded content hash of `data`, as used in handshakes.
pub fn content_hash(data: &Vec<u8>) -> (r: Vec<u8>)
    ensures
        r@ == hex_of(digest_of(data@)),
        r@.len() == 2 * DIGEST_LEN,
{
    let digest = digest_bytes(data.as_slice());
    let r = to_hex(&digest);
    proof {
        lemma_hex_len(digest@);
    }
    r
}

} // verus!
