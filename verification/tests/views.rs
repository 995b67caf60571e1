use std::collections::hash_map::DefaultHasher;
use std::hash::Hash;
use std::hash::Hasher;

use imstring::ImStr;
use imstring::ImString;

#[test]
fn view_reads_the_owned_text() {
    let b = ImString::new("view me");
    let v = ImStr::from_owned(&b);
    assert_eq!(v.to_str(), "view me");
    assert_eq!(v.as_bytes(), b"view me\0");
}

#[test]
fn view_observes_foreign_truncation() {
    let mut b = ImString::with_capacity(16);
    b.foreign_write(b"hello\0world\0");
    let v = ImStr::from_owned(&b);
    assert_eq!(v.to_str(), "hello");
    assert_eq!(v.as_bytes(), b"hello\0");
}

#[test]
fn views_with_different_backing_compare_equal() {
    let a = ImString::new("same text");
    let mut b = ImString::new("same text");
    b.reserve(100);
    assert_ne!(a.capacity(), b.capacity());
    let va = ImStr::from_owned(&a);
    let vb = ImStr::from_owned(&b);
    assert!(va == vb);
    let c = ImString::new("other text");
    let vc = ImStr::from_owned(&c);
    assert!(va != vc);
}

#[test]
fn views_with_different_backing_hash_equal() {
    let a = ImString::new("same text");
    let mut b = ImString::new("same text");
    b.reserve(100);
    let va = ImStr::from_owned(&a);
    let vb = ImStr::from_owned(&b);
    let mut ha = DefaultHasher::new();
    va.hash(&mut ha);
    let mut hb = DefaultHasher::new();
    vb.hash(&mut hb);
    assert_eq!(ha.finish(), hb.finish());
}

#[test]
fn view_owned_view_round_trip() {
    let b = ImString::new("röund tríp");
    let v = ImStr::from_owned(&b);
    let o = v.to_im_string();
    assert_eq!(o.as_bytes(), v.as_bytes());
    let w = ImStr::from_owned(&o);
    assert_eq!(w.to_str(), v.to_str());
    assert!(w == v);
}

#[test]
fn view_from_terminated_bytes() {
    let v = ImStr::from_utf8_with_nul_unchecked(b"abc\0");
    assert_eq!(v.to_str(), "abc");
    assert_eq!(v.as_bytes(), b"abc\0");
}

#[test]
fn empty_view_is_just_a_terminator() {
    let v = ImStr::from_utf8_with_nul_unchecked(b"\0");
    assert_eq!(v.to_str(), "");
    let b = v.to_im_string();
    assert_eq!(b.to_str(), "");
    assert_eq!(b.capacity_with_nul(), 1);
}
