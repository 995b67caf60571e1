use imstring::encoding::{contains_nul_char, encode_char_bytes};
use imstring::find_nul;
use imstring::ImString;

#[test]
fn create_from_reads_back() {
    let b = ImString::new("héllo wörld");
    assert_eq!(b.to_str(), "héllo wörld");
}

#[test]
fn create_empty_reads_back_empty() {
    let b = ImString::new("");
    assert_eq!(b.to_str(), "");
    let c = ImString::with_capacity(0);
    assert_eq!(c.to_str(), "");
    assert_eq!(c.capacity(), 0);
    assert_eq!(c.capacity_with_nul(), 1);
}

#[test]
fn append_concatenates_after_resync() {
    let mut b = ImString::new("ab");
    b.push_str("cd");
    assert_eq!(b.to_str(), "abcd");
    b.push('é');
    assert_eq!(b.to_str(), "abcdé");
    b.push('🦀');
    assert_eq!(b.to_str(), "abcdé🦀");
}

#[test]
fn foreign_truncation_is_observed() {
    let mut b = ImString::with_capacity(16);
    b.foreign_write(b"hello\0world\0");
    assert_eq!(b.to_str(), "hello");
}

#[test]
fn append_after_foreign_truncation_resynchronizes() {
    let mut b = ImString::new("hello world");
    // a foreign writer moved the first terminator to offset 5
    b.foreign_write(b"hello\0");
    assert_eq!(b.to_str(), "hello");
    b.push_str("!!");
    assert_eq!(b.to_str(), "hello!!");
}

#[test]
fn clear_empties_and_keeps_capacity() {
    let mut b = ImString::new("some text");
    b.reserve(20);
    let cap = b.capacity();
    b.clear();
    assert_eq!(b.to_str(), "");
    assert_eq!(b.capacity(), cap);
}

#[test]
fn capacity_with_nul_is_capacity_plus_one() {
    let mut b = ImString::with_capacity(4);
    assert_eq!(b.capacity_with_nul(), b.capacity() + 1);
    b.push_str("abcdef");
    assert_eq!(b.capacity_with_nul(), b.capacity() + 1);
    b.reserve(32);
    assert_eq!(b.capacity_with_nul(), b.capacity() + 1);
    b.clear();
    assert_eq!(b.capacity_with_nul(), b.capacity() + 1);
    b.reserve_exact(3);
    assert_eq!(b.capacity_with_nul(), b.capacity() + 1);
}

#[test]
fn reserve_grows_monotonically_and_keeps_text() {
    let mut b = ImString::new("keep");
    let c0 = b.capacity();
    b.reserve(10);
    assert!(b.capacity() >= c0);
    assert!(b.capacity() >= 4 + 10);
    assert_eq!(b.to_str(), "keep");
    let c1 = b.capacity();
    b.reserve(1);
    assert!(b.capacity() >= c1);
    assert_eq!(b.to_str(), "keep");
}

#[test]
fn reserve_exact_grows_to_what_is_needed() {
    let mut b = ImString::new("abc");
    assert_eq!(b.capacity(), 3);
    b.reserve_exact(7);
    assert_eq!(b.capacity(), 3 + 7);
    b.reserve_exact(2);
    assert_eq!(b.capacity(), 10);
}

#[test]
fn default_is_empty() {
    let b = ImString::default();
    assert_eq!(b.to_str(), "");
    assert_eq!(b.capacity_with_nul(), 1);
}

#[test]
fn append_grows_allocation_when_needed() {
    let mut b = ImString::with_capacity(2);
    b.push_str("abcdef");
    assert_eq!(b.to_str(), "abcdef");
    assert!(b.capacity() >= 6);
}

#[test]
fn from_utf8_unchecked_adopts_bytes() {
    let b = ImString::from_utf8_unchecked(vec![104, 105]);
    assert_eq!(b.to_str(), "hi");
    assert_eq!(b.capacity(), 2);
    assert_eq!(b.as_bytes(), b"hi\0");
}

#[test]
fn from_utf8_with_nul_unchecked_stops_at_terminator() {
    let b = ImString::from_utf8_with_nul_unchecked(vec![104, 105, 0, 120, 0]);
    assert_eq!(b.to_str(), "hi");
    assert_eq!(b.capacity_with_nul(), 5);
}

#[test]
fn allocation_layout_is_text_then_terminator() {
    let mut b = ImString::new("ab");
    assert_eq!(b.as_bytes(), b"ab\0");
    b.clear();
    assert_eq!(b.as_bytes(), b"\0b\0");
}

#[test]
fn find_nul_scans_for_first_terminator() {
    assert_eq!(find_nul(b"ab\0cd\0"), 2);
    assert_eq!(find_nul(b"\0"), 0);
    assert_eq!(find_nul(b"abc"), 3);
}

#[test]
fn char_encoding_matches_utf8() {
    assert_eq!(encode_char_bytes('A'), vec![0x41]);
    assert_eq!(encode_char_bytes('é'), vec![0xC3, 0xA9]);
    assert_eq!(encode_char_bytes('€'), vec![0xE2, 0x82, 0xAC]);
    assert_eq!(encode_char_bytes('🦀'), vec![0xF0, 0x9F, 0xA6, 0x80]);
}

#[test]
fn contains_nul_char_detects_terminator() {
    assert!(contains_nul_char("a\0b"));
    assert!(!contains_nul_char("ab"));
    assert!(!contains_nul_char(""));
}
