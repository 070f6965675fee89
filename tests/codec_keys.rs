use tikv_dump::codec::{escape, unescape, DecodeError};
use tikv_dump::keys::{raft_log_key, region_info_key};

#[test]
fn round_trip_all_bytes() {
    let all: Vec<u8> = (0..=255u8).collect();
    let text = escape(&all);
    assert!(text.is_ascii());
    assert_eq!(unescape(&text), Ok(all));
}

#[test]
fn round_trip_empty() {
    assert_eq!(escape(&[]), "");
    assert_eq!(unescape(""), Ok(vec![]));
}

#[test]
fn escape_two_low_bytes() {
    let text = escape(&[0x00, 0x01]);
    assert_eq!(text, "\\000\\001");
    assert_eq!(unescape(&text), Ok(vec![0x00, 0x01]));
}

#[test]
fn unescape_hex_form() {
    assert_eq!(unescape("\\x00\\x01"), Ok(vec![0x00, 0x01]));
    assert_eq!(unescape("\\xfF"), Ok(vec![0xff]));
}

#[test]
fn escape_special_and_printable() {
    assert_eq!(escape(b"a\"\\\n\r\t~"), "a\"\\\\\\012\\015\\011~");
    assert_eq!(escape(&[0x7f, 0xff]), "\\177\\377");
    assert_eq!(unescape("ab\\n\\\"\\\\"), Ok(b"ab\n\"\\".to_vec()));
}

#[test]
fn unprintable_bytes_escape_to_one_width() {
    for c in (0..=255u8).filter(|c| !(0x20..0x7f).contains(c)) {
        let text = escape(&[c]);
        assert_eq!(text.len(), 4, "byte {}", c);
        assert!(text.starts_with('\\'));
        assert!(text[1..].bytes().all(|d| (b'0'..=b'7').contains(&d)));
    }
    assert_eq!(escape(&[0x0a, 0x00]), "\\012\\000");
}

#[test]
fn unescape_invalid_escapes() {
    assert_eq!(unescape("\\"), Err(DecodeError::InvalidEscape));
    assert_eq!(unescape("\\q"), Err(DecodeError::InvalidEscape));
    assert_eq!(unescape("\\x0"), Err(DecodeError::InvalidEscape));
    assert_eq!(unescape("\\xzz"), Err(DecodeError::InvalidEscape));
    assert_eq!(unescape("\\400"), Err(DecodeError::InvalidEscape));
    assert_eq!(unescape("\\08"), Err(DecodeError::InvalidEscape));
}

#[test]
fn raft_log_key_layout() {
    assert_eq!(
        raft_log_key(5, 10),
        vec![1, 2, 0, 0, 0, 0, 0, 0, 0, 5, 1, 0, 0, 0, 0, 0, 0, 0, 10]
    );
    assert_eq!(
        raft_log_key(0x0102030405060708, u64::MAX),
        vec![1, 2, 1, 2, 3, 4, 5, 6, 7, 8, 1, 255, 255, 255, 255, 255, 255, 255, 255]
    );
}

#[test]
fn region_info_key_layout() {
    assert_eq!(region_info_key(5), vec![1, 3, 0, 0, 0, 0, 0, 0, 0, 5, 1]);
}

#[test]
fn keys_are_injective_and_apart() {
    assert_ne!(raft_log_key(1, 2), raft_log_key(2, 1));
    assert_ne!(raft_log_key(1, 256), raft_log_key(1, 1));
    assert_ne!(region_info_key(1), region_info_key(256));
    assert_ne!(raft_log_key(5, 10), region_info_key(5));
    assert!(raft_log_key(u64::MAX, u64::MAX) < region_info_key(0));
}

#[test]
fn raft_log_keys_follow_index_order() {
    assert!(raft_log_key(7, 255) < raft_log_key(7, 256));
    assert!(raft_log_key(7, 0) < raft_log_key(7, 1));
    assert!(raft_log_key(7, u64::MAX - 1) < raft_log_key(7, u64::MAX));
    assert!(raft_log_key(7, 1 << 56) > raft_log_key(7, (1 << 56) - 1));
}

#[test]
fn keys_below_scan_sentinel() {
    assert!(raft_log_key(u64::MAX, u64::MAX) < vec![0xff]);
    assert!(region_info_key(u64::MAX) < vec![0xff]);
}
