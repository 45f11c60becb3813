use snwf::delta::{
    apply_delta, compute_delta, compute_signature, delta_sync, literal_byte_count, weak_checksum,
    Delta, DeltaOp,
};
use snwf::error::ErrorKind;
use snwf::wire::{decode_delta, decode_signature, delta_sync_over_wire, encode_delta,
    encode_signature, STOP_WORD};

fn pseudo_random_bytes(n: usize) -> Vec<u8> {
    let mut state: u64 = 0x9E37_79B9_7F4A_7C15;
    let mut out = Vec::with_capacity(n);
    for _ in 0..n {
        state = state.wrapping_mul(6364136223846793005).wrapping_add(1442695040888963407);
        out.push((state >> 33) as u8);
    }
    out
}

#[test]
fn weak_checksum_concrete_value() {
    // For [1, 2, 3]: byte sum 6, prefix sums 1 + 3 + 6 = 10.
    assert_eq!(weak_checksum(&[1, 2, 3]), 6 + (10u64 << 32));
    assert_eq!(weak_checksum(&[]), 0);
    // Position matters: [3, 2, 1] has the same byte sum, other prefix sums.
    assert_eq!(weak_checksum(&[3, 2, 1]), 6 + (14u64 << 32));
}

#[test]
fn delta_round_trip_reproduces_the_edit() {
    // A stale file and a current file differing by one small insertion
    // in the middle: sync must reproduce the current file exactly, and
    // the literal bytes must scale with the edit, not the file.
    let stale = pseudo_random_bytes(5 * 512);
    let mut current = stale[..1024].to_vec();
    current.extend_from_slice(b"one inserted line\n");
    current.extend_from_slice(&stale[1024..]);

    let reconstructed = delta_sync(&stale, &current, 512).unwrap();
    assert_eq!(reconstructed, current);

    let sig = compute_signature(&stale, 512);
    let delta = compute_delta(&current, &sig);
    let literal = literal_byte_count(&delta);
    // The insertion is 18 bytes; literals stay within a couple of blocks
    // around the edit instead of growing with the whole file.
    assert!(literal < 2 * 512 + 18, "literal bytes: {literal}");
    assert!(literal >= 18);
}

#[test]
fn delta_sync_of_identical_files_copies_blocks() {
    let stale = pseudo_random_bytes(4 * 256);
    let reconstructed = delta_sync(&stale, &stale, 256).unwrap();
    assert_eq!(reconstructed, stale);

    let sig = compute_signature(&stale, 256);
    let delta = compute_delta(&stale, &sig);
    assert_eq!(literal_byte_count(&delta), 0);
    assert!(delta
        .ops
        .iter()
        .all(|op| matches!(op, DeltaOp::Copy { .. })));
}

#[test]
fn delta_sync_from_nothing_inserts_everything() {
    let stale = Vec::new();
    let current = pseudo_random_bytes(777);
    let reconstructed = delta_sync(&stale, &current, 256).unwrap();
    assert_eq!(reconstructed, current);

    let sig = compute_signature(&stale, 256);
    let delta = compute_delta(&current, &sig);
    assert_eq!(literal_byte_count(&delta), 777);
}

#[test]
fn delta_sync_over_the_wire_round_trips() {
    let stale = pseudo_random_bytes(3000);
    let mut current = stale.clone();
    current.drain(700..900);
    current.splice(1500..1500, b"patched".iter().copied());

    let reconstructed = delta_sync_over_wire(&stale, &current, 512).unwrap();
    assert_eq!(reconstructed, current);
}

#[test]
fn signature_codec_round_trips() {
    let stale = pseudo_random_bytes(1300);
    let sig = compute_signature(&stale, 512);
    let encoded = encode_signature(&sig);
    let decoded = decode_signature(&encoded).unwrap();
    assert_eq!(decoded.block_size, 512);
    assert_eq!(decoded.file_len, 1300);
    assert_eq!(decoded.full_blocks, 2);
    assert_eq!(decoded.sums, sig.sums);
    assert_eq!(sig.sums.len(), 3);
}

#[test]
fn malformed_signature_messages_are_rejected() {
    for bytes in [Vec::new(), vec![0u8; 16], vec![0u8; 32], vec![0xFFu8; 40]] {
        let err = decode_signature(&bytes).unwrap_err();
        assert!(matches!(err.kind, ErrorKind::NetworkIO));
    }
}

#[test]
fn delta_codec_round_trips_and_ends_with_the_marker() {
    let stale = pseudo_random_bytes(2048);
    let mut current = stale.clone();
    current[100] = current[100].wrapping_add(1);
    let sig = compute_signature(&stale, 512);
    let delta = compute_delta(&current, &sig);

    let encoded = encode_delta(&delta);
    assert_eq!(*encoded.last().unwrap(), STOP_WORD);
    let decoded = decode_delta(&encoded).unwrap();
    assert_eq!(decoded.block_size, delta.block_size);
    assert_eq!(decoded.ops.len(), delta.ops.len());
    assert_eq!(apply_delta(&stale, &decoded).unwrap(), current);
}

#[test]
fn malformed_delta_messages_are_rejected() {
    // Truncated header; unknown tag; missing end marker; bytes after it.
    let no_header = vec![1u8, 2, 3];
    let mut unknown_tag = encode_delta(&Delta { block_size: 512, ops: Vec::new() });
    unknown_tag.insert(8, 0x09);
    let missing_marker = {
        let mut v = encode_delta(&Delta { block_size: 512, ops: Vec::new() });
        v.pop();
        v
    };
    let mut trailing = encode_delta(&Delta { block_size: 512, ops: Vec::new() });
    trailing.push(0);

    for bytes in [no_header, unknown_tag, missing_marker, trailing] {
        let err = decode_delta(&bytes).unwrap_err();
        assert!(matches!(err.kind, ErrorKind::NetworkIO));
    }
}

#[test]
fn delta_for_another_file_is_refused_by_apply() {
    let delta = Delta {
        block_size: 512,
        ops: vec![DeltaOp::Copy { block_index: 99 }],
    };
    let short_stale = pseudo_random_bytes(100);
    let err = apply_delta(&short_stale, &delta).unwrap_err();
    assert!(matches!(err.kind, ErrorKind::FileInvalid));
}
