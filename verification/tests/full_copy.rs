use snwf::error::ErrorKind;
use snwf::handshake::Handshake;
use snwf::hashing::content_hash;
use snwf::progress::Progressing;
use snwf::session::{progressing_read, recv_file, send_file, transfer};

/// Deterministic pseudo-random bytes, so tests need no randomness source.
fn pseudo_random_bytes(n: usize) -> Vec<u8> {
    let mut state: u64 = 0x2545_F491_4F6C_DD1D;
    let mut out = Vec::with_capacity(n);
    for _ in 0..n {
        state = state.wrapping_mul(6364136223846793005).wrapping_add(1442695040888963407);
        out.push((state >> 33) as u8);
    }
    out
}

fn yields_of(events: &[Progressing]) -> Vec<(u64, u64, u64)> {
    events
        .iter()
        .filter_map(|e| match e {
            Progressing::Yield { done_files, total_bytes, done_bytes, .. } => {
                Some((*done_files, *total_bytes, *done_bytes))
            }
            Progressing::Done => None,
        })
        .collect()
}

#[test]
fn concrete_full_copy_scenario() {
    // A 4352-byte file moved in 4096-byte chunks: progress must report
    // 4096 of 4352, then 4352 of 4352, then Done, and the hashes agree.
    let content = pseudo_random_bytes(4352);
    let path = b"tess_file.txt".to_vec();
    let outcome = transfer(&content, &path, 4096).unwrap();

    assert_eq!(outcome.output, content);
    assert_eq!(outcome.handshake.size, 4352);
    assert_eq!(outcome.handshake.hash, content_hash(&content));
    assert_eq!(outcome.handshake.file_name, b"tess_file.txt".to_vec());

    let recv_yields = yields_of(&outcome.recipient_events);
    assert_eq!(recv_yields, vec![(0, 4352, 4096), (0, 4352, 4352)]);
    assert!(matches!(
        outcome.recipient_events.last(),
        Some(Progressing::Done)
    ));
    let send_yields = yields_of(&outcome.sender_events);
    assert_eq!(send_yields, vec![(0, 4352, 4096), (0, 4352, 4352)]);
    assert!(matches!(outcome.sender_events.last(), Some(Progressing::Done)));
}

#[test]
fn round_trip_preserves_every_content() {
    let path = b"dir/file.bin".to_vec();
    for content in [
        Vec::new(),
        vec![0u8],
        vec![7u8; 4096],
        pseudo_random_bytes(1),
        pseudo_random_bytes(100),
        pseudo_random_bytes(8192),
        pseudo_random_bytes(10000),
    ] {
        let outcome = transfer(&content, &path, 4096).unwrap();
        assert_eq!(outcome.output, content);
        assert_eq!(outcome.handshake.hash, content_hash(&content));
        assert_eq!(outcome.handshake.file_name, b"file.bin".to_vec());
    }
}

#[test]
fn size_framing_converges_for_every_chunking() {
    // However the transport cuts the stream — single bytes, blocks, or
    // an oversized final read — the loop stops at exactly the announced
    // size with the same bytes.
    let content = pseudo_random_bytes(1000);
    let handshake = Handshake {
        hash: content_hash(&content),
        size: content.len() as u64,
        file_name: b"f".to_vec(),
    };
    let path = b"f".to_vec();

    let one_byte_reads: Vec<Vec<u8>> = content.iter().map(|b| vec![*b]).collect();
    let block_reads = progressing_read(&content, 256);
    let mut oversized = content.clone();
    oversized.extend_from_slice(&[0xAB; 300]);
    let oversized_reads = vec![oversized];

    for reads in [one_byte_reads, block_reads, oversized_reads] {
        let (bytes, events) = recv_file(&handshake, &reads, 0, &path).unwrap();
        assert_eq!(bytes, content);
        let yields = yields_of(&events);
        assert_eq!(yields.last().unwrap().2, 1000);
        assert!(yields.windows(2).all(|w| w[0].2 <= w[1].2));
        assert!(matches!(events.last(), Some(Progressing::Done)));
    }
}

#[test]
fn stream_ending_early_is_network_io() {
    let content = pseudo_random_bytes(1000);
    let handshake = Handshake {
        hash: content_hash(&content),
        size: content.len() as u64,
        file_name: b"f".to_vec(),
    };
    let path = b"f".to_vec();

    // Fewer bytes than announced.
    let truncated = vec![content[..400].to_vec()];
    let err = recv_file(&handshake, &truncated, 0, &path).unwrap_err();
    assert!(matches!(err.kind, ErrorKind::NetworkIO));

    // An empty read mid-stream signals a closed peer.
    let with_empty = vec![content[..400].to_vec(), Vec::new(), content[400..].to_vec()];
    let err = recv_file(&handshake, &with_empty, 0, &path).unwrap_err();
    assert!(matches!(err.kind, ErrorKind::NetworkIO));
}

#[test]
fn corrupted_stream_is_file_invalid() {
    // One flipped byte, same announced size: the recipient must refuse
    // the file instead of accepting wrong content.
    let content = pseudo_random_bytes(2000);
    let handshake = Handshake {
        hash: content_hash(&content),
        size: content.len() as u64,
        file_name: b"f".to_vec(),
    };
    let path = b"f".to_vec();

    let mut corrupted = content.clone();
    corrupted[1234] ^= 0x01;
    let reads = progressing_read(&corrupted, 512);
    let err = recv_file(&handshake, &reads, 0, &path).unwrap_err();
    assert!(matches!(err.kind, ErrorKind::FileInvalid));
}

#[test]
fn oversized_handshake_fails_before_any_byte_moves() {
    let long_name = vec![b'n'; 4000];
    let handshake = Handshake {
        hash: content_hash(&vec![1, 2, 3]),
        size: 3,
        file_name: long_name.clone(),
    };
    let err = handshake.encode().unwrap_err();
    assert!(matches!(err.kind, ErrorKind::Handshake));

    let err = transfer(&vec![1, 2, 3], &long_name, 4096).unwrap_err();
    assert!(matches!(err.kind, ErrorKind::Handshake));
}

#[test]
fn handshake_codec_round_trips() {
    let handshake = Handshake {
        hash: content_hash(&pseudo_random_bytes(50)),
        size: 987654321,
        file_name: b"some file.txt".to_vec(),
    };
    let encoded = handshake.encode().unwrap();
    let decoded = Handshake::decode(&encoded).unwrap();
    assert_eq!(decoded.hash, handshake.hash);
    assert_eq!(decoded.size, handshake.size);
    assert_eq!(decoded.file_name, handshake.file_name);
}

#[test]
fn malformed_handshake_frames_are_rejected() {
    for bytes in [
        Vec::new(),
        vec![0u8; 5],
        vec![0xFFu8; 11],
        vec![0xFFu8; 64],
        vec![0u8; 5000],
    ] {
        let err = Handshake::decode(&bytes).unwrap_err();
        assert!(matches!(err.kind, ErrorKind::Handshake));
    }
}

#[test]
fn sender_chunking_covers_the_file_in_order() {
    let content = pseudo_random_bytes(700);
    let (chunks, events) = send_file(&content, 256, 2, &b"x".to_vec());
    let sizes: Vec<usize> = chunks.iter().map(|c| c.len()).collect();
    assert_eq!(sizes, vec![256, 256, 188]);
    let flat: Vec<u8> = chunks.concat();
    assert_eq!(flat, content);
    let yields = yields_of(&events);
    assert_eq!(
        yields,
        vec![(2, 700, 256), (2, 700, 512), (2, 700, 700)]
    );
    assert!(matches!(events.last(), Some(Progressing::Done)));
}
