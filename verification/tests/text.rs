use p2p_transfer::text::{same_bytes, same_text};

#[test]
fn same_bytes_compares_contents() {
    assert!(same_bytes(b"abc", b"abc"));
    assert!(same_bytes(b"", b""));
    assert!(!same_bytes(b"abc", b"abd"));
    assert!(!same_bytes(b"abc", b"ab"));
    assert!(!same_bytes(b"", b"a"));
}

#[test]
fn same_text_compares_characters() {
    assert!(same_text("type", "type"));
    assert!(same_text("", ""));
    assert!(same_text("文件", "文件"));
    assert!(!same_text("type", "Type"));
    assert!(!same_text("type", "types"));
    assert!(!same_text("é", "e"));
}
