use hunt_engine::text::{bytes_eq, copy_bytes, normalize};

#[test]
fn normalize_trims_and_lowercases() {
    let s = b"  The Grand Fountain \t\r\n".to_vec();
    assert_eq!(normalize(&s), b"the grand fountain".to_vec());
}

#[test]
fn normalize_keeps_inner_whitespace_and_punctuation() {
    let s = b" Two  Spaces, Kept! ".to_vec();
    assert_eq!(normalize(&s), b"two  spaces, kept!".to_vec());
}

#[test]
fn normalize_of_empty_and_all_whitespace() {
    assert_eq!(normalize(&b"".to_vec()), b"".to_vec());
    assert_eq!(normalize(&b" \t\n\r ".to_vec()), b"".to_vec());
}

#[test]
fn normalize_leaves_non_ascii_bytes_alone() {
    let s = vec![0xC3, 0x89, b'a', b'B'];
    assert_eq!(normalize(&s), vec![0xC3, 0x89, b'a', b'b']);
}

#[test]
fn normalize_is_idempotent_on_examples() {
    for s in [
        b"  MiXeD CaSe  ".to_vec(),
        b"already normal".to_vec(),
        b"\tTABS\t".to_vec(),
        b"".to_vec(),
        b"   ".to_vec(),
    ] {
        let once = normalize(&s);
        let twice = normalize(&once);
        assert_eq!(once, twice);
    }
}

#[test]
fn bytes_eq_compares_contents() {
    assert!(bytes_eq(&b"abc".to_vec(), &b"abc".to_vec()));
    assert!(!bytes_eq(&b"abc".to_vec(), &b"abd".to_vec()));
    assert!(!bytes_eq(&b"abc".to_vec(), &b"ab".to_vec()));
    assert!(bytes_eq(&b"".to_vec(), &b"".to_vec()));
}

#[test]
fn copy_bytes_copies() {
    let v = b"payload".to_vec();
    let w = copy_bytes(&v);
    assert_eq!(v, w);
}
