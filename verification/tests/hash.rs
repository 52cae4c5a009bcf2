use p2p_transfer::hash::{file_hash, hex};

#[test]
fn hex_writes_two_lower_case_digits_for_each_byte() {
    assert_eq!(hex(&[]), "");
    assert_eq!(hex(&[0x00]), "00");
    assert_eq!(hex(&[0x0a, 0x14, 0x1e]), "0a141e");
    assert_eq!(hex(&[0xff, 0x10, 0x01, 0xab, 0xcd, 0xef]), "ff1001abcdef");
    assert_eq!(hex(&[0x12, 0x34, 0x56, 0x78, 0x9a]), "123456789a");
}

#[test]
fn file_hash_is_the_sha1_of_the_contents() {
    assert_eq!(file_hash(b"hello world"), "2aae6c35c94fcfb415dbe95f408b9ce91ee846ed");
    assert_eq!(file_hash(b""), "da39a3ee5e6b4b0d3255bfef95601890afd80709");
    assert_eq!(file_hash(b"abc"), "a9993e364706816aba3e25717850c26c9cd0d89d");
    assert_eq!(
        file_hash(b"The quick brown fox jumps over the lazy dog"),
        "2fd4e1c67a2d28fced849ee1bb76e7391b93eb12"
    );
}

#[test]
fn file_hash_depends_on_the_contents_alone() {
    let contents = vec![7u8; 100_000];
    assert_eq!(file_hash(&contents), file_hash(&contents.clone()));
    assert_ne!(file_hash(&contents), file_hash(&contents[1..]));
    assert_eq!(file_hash(&contents).len(), 40);
}
