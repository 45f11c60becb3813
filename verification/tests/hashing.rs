use snwf::handshake::get_file_name_from_as_ref_path;
use snwf::hashing::{bytes_equal, content_hash, to_hex};

#[test]
fn content_hash_matches_known_blake2b512_vectors() {
    // Published BLAKE2b-512 test vectors, hex-encoded.
    let empty_hex = b"786a02f742015903c6c6fd852552d272912f4740e15847618a86e217f71f5419\
d25e1031afee585313896444934eb04b903a685b1448b755d56f701afe9be2ce"
        .to_vec();
    assert_eq!(content_hash(&Vec::new()), empty_hex);

    let abc_hex = b"ba80a53f981c4d0d6a2797b69f12f6e94c212f14685ac4b74b12bb6fdbffa2d1\
7d87c5392aab792dc252d5de4533cc9518d38aa8dbf1925ab92386edd4009923"
        .to_vec();
    assert_eq!(content_hash(&b"abc".to_vec()), abc_hex);
}

#[test]
fn digest_never_echoes_its_input() {
    // Would fail if the digest call handed its argument back unchanged.
    let hashed = content_hash(&b"abc".to_vec());
    assert_eq!(hashed.len(), 128);
    assert_ne!(hashed, to_hex(&b"abc".to_vec()));
    assert_ne!(hashed, content_hash(&Vec::new()));
}

#[test]
fn hex_encoding_is_two_lowercase_digits_per_byte() {
    assert_eq!(to_hex(&vec![0x00, 0xff, 0x1a]), b"00ff1a".to_vec());
    assert_eq!(to_hex(&Vec::new()), Vec::<u8>::new());
}

#[test]
fn byte_equality_compares_contents() {
    assert!(bytes_equal(&vec![1, 2, 3], &vec![1, 2, 3]));
    assert!(!bytes_equal(&vec![1, 2, 3], &vec![1, 2, 4]));
    assert!(!bytes_equal(&vec![1, 2, 3], &vec![1, 2]));
    assert!(bytes_equal(&Vec::new(), &Vec::new()));
}

#[test]
fn file_name_is_the_part_after_the_last_separator() {
    assert_eq!(
        get_file_name_from_as_ref_path(&b"dir/sub/file.txt".to_vec()),
        b"file.txt".to_vec()
    );
    assert_eq!(
        get_file_name_from_as_ref_path(&b"file.txt".to_vec()),
        b"file.txt".to_vec()
    );
    assert_eq!(
        get_file_name_from_as_ref_path(&b"dir/".to_vec()),
        Vec::<u8>::new()
    );
    assert_eq!(
        get_file_name_from_as_ref_path(&Vec::new()),
        Vec::<u8>::new()
    );
}
