//! UTF-8 encoding facts the buffer relies on: text made of non-terminator
//! characters encodes to non-terminator bytes, a character encodes in
//! verified code, and decoding is the inverse of encoding.

use vstd::prelude::*;
use vstd::string::StringSliceAdditionalSpecFns;
use vstd::utf8::{
    char_is_scalar, char_u32_cast, decode_utf8, encode_scalar, encode_utf8, has_width_1_encoding,
    has_width_3_encoding, has_width_4_encoding, is_scalar, valid_utf8,
};

use crate::term::{find_nul, first_nul, lemma_first_nul_bounds, text_of};

verus! {

/// True when no character of `s` is the terminator character.
pub open spec fn nul_free_chars(s: Seq<char>) -> bool {
    forall|i: int| 0 <= i < s.len() ==> s[i] != '\0'
}

/// True when no byte of `s` is the terminator byte.
pub open spec fn nonzero_bytes(s: Seq<u8>) -> bool {
    forall|i: int| 0 <= i < s.len() ==> s[i] != 0
}

/// The encoding of a scalar other than zero contains no zero byte: a
/// one-byte encoding is the scalar itself, and every byte of a longer
/// encoding has its high bit set.
pub proof fn lemma_encode_scalar_nonzero(u: u32)
    requires
        is_scalar(u),
        u != 0,
    ensures
        nonzero_bytes(encode_scalar(u)),
{
    if has_width_1_encoding(u) {
        assert((u & 0x7F) as u8 != 0) by (bit_vector)
            requires
                u <= 0x7F && u != 0,
        ;
    } else {
        assert((0xC0 | ((u >> 6) & 0x1F) as u8) != 0 && (0xE0 | ((u >> 12) & 0x0F) as u8) != 0 && (
        0xF0 | ((u >> 18) & 0x7) as u8) != 0 && (0x80 | (u & 0x3F) as u8) != 0 && (0x80 | ((u >> 6)
            & 0x3F) as u8) != 0 && (0x80 | ((u >> 12) & 0x3F) as u8) != 0) by (bit_vector);
    }
}

/// The encoding of every scalar takes between one and four bytes.
pub proof fn lemma_encode_scalar_len(u: u32)
    ensures
        1 <= encode_scalar(u).len() <= 4,
{
}

/// Text free of the terminator character encodes to bytes free of the
/// terminator byte, so appending encoded text never moves the terminator
/// forward.
pub proof fn lemma_encode_nul_free(s: Seq<char>)
    requires
        nul_free_chars(s),
    ensures
        nonzero_bytes(encode_utf8(s)),
    decreases s.len(),
{
    if s.len() > 0 {
        char_is_scalar(s[0]);
        let u = s[0] as u32;
        if u == 0 {
            char_u32_cast(s[0], 0);
            assert(s[0] == 0u32 as char);
            assert(0u32 as char == '\0');
            assert(false);
        }
        lemma_encode_scalar_nonzero(u);
        assert(nul_free_chars(s.drop_first()));
        lemma_encode_nul_free(s.drop_first());
        let head = encode_scalar(u);
        let tail = encode_utf8(s.drop_first());
        assert forall|i: int| 0 <= i < encode_utf8(s).len() implies encode_utf8(s)[i] != 0 by {
            if i < head.len() {
                assert(encode_utf8(s)[i] == head[i]);
            } else {
                assert(encode_utf8(s)[i] == tail[i - head.len()]);
            }
        }
    }
}

/// A text's encoding takes at least one and at most four bytes per
/// character.
pub proof fn lemma_encode_utf8_len(s: Seq<char>)
    ensures
        s.len() <= encode_utf8(s).len() <= 4 * s.len(),
    decreases s.len(),
{
    if s.len() > 0 {
        char_is_scalar(s[0]);
        lemma_encode_scalar_len(s[0] as u32);
        lemma_encode_utf8_len(s.drop_first());
    }
}

/// A text is free of the terminator character exactly when its encoding is
/// free of the terminator byte.
pub proof fn lemma_nul_free_chars_iff(s: Seq<char>)
    ensures
        nul_free_chars(s) <==> nonzero_bytes(encode_utf8(s)),
    decreases s.len(),
{
    if s.len() == 0 {
    } else {
        char_is_scalar(s[0]);
        let u = s[0] as u32;
        let head = encode_scalar(u);
        let tail = encode_utf8(s.drop_first());
        lemma_nul_free_chars_iff(s.drop_first());
        if s[0] == '\0' {
            assert(u == 0);
            assert(0u32 & 0x7F == 0) by (bit_vector);
            assert(head[0] == 0);
            assert(encode_utf8(s)[0] == 0);
        } else {
            if u == 0 {
                char_u32_cast(s[0], 0);
                assert(s[0] == 0u32 as char);
                assert(0u32 as char == '\0');
                assert(false);
            }
            lemma_encode_scalar_nonzero(u);
            if nul_free_chars(s) {
                assert(nul_free_chars(s.drop_first()));
                assert forall|i: int| 0 <= i < encode_utf8(s).len() implies encode_utf8(s)[i]
                    != 0 by {
                    if i >= head.len() {
                        assert(encode_utf8(s)[i] == tail[i - head.len()]);
                    }
                }
            }
            if nonzero_bytes(encode_utf8(s)) {
                assert forall|i: int| 0 <= i < tail.len() implies tail[i] != 0 by {
                    assert(tail[i] == encode_utf8(s)[head.len() + i]);
                }
                assert forall|i: int| 0 <= i < s.len() implies s[i] != '\0' by {
                    if i > 0 {
                        assert(s.drop_first()[i - 1] != '\0');
                    }
                }
            }
        }
    }
}

/// Whether the text contains the terminator character, which the appending
/// operations refuse. Scans the text's UTF-8 bytes: only the terminator
/// character ever encodes to a zero byte.
pub fn contains_nul_char(s: &str) -> (r: bool)
    ensures
        r <==> !nul_free_chars(s@),
{
    let bs = s.as_bytes();
    let n = find_nul(bs);
    proof {
        assert(bs@ == s.spec_bytes());
        lemma_nul_free_chars_iff(s@);
        lemma_first_nul_bounds(bs@);
        if first_nul(bs@) < bs@.len() {
            assert(bs@[first_nul(bs@)] == 0);
            assert(!nonzero_bytes(bs@));
        }
    }
    n < bs.len()
}

/// Law: encoding a text and decoding the bytes again returns the original
/// characters, so a buffer created from a text reads back as that text.
pub proof fn lemma_encode_round_trip(s: Seq<char>)
    ensures
        valid_utf8(encode_utf8(s)),
        decode_utf8(encode_utf8(s)) == s,
{
    vstd::utf8::encode_utf8_valid_utf8(s);
    vstd::utf8::encode_utf8_decode_utf8(s);
}

/// Law: appending encoded text appends its characters — the concatenation
/// of two valid encodings is valid and decodes to the two character
/// sequences in order.
pub proof fn lemma_decode_concat(a: Seq<u8>, b: Seq<u8>)
    requires
        valid_utf8(a),
        valid_utf8(b),
    ensures
        valid_utf8(a + b),
        decode_utf8(a + b) == decode_utf8(a) + decode_utf8(b),
{
    vstd::utf8::valid_utf8_concat(a, b);
    if b.len() == 0 {
        assert(a + b =~= a);
        assert(decode_utf8(b) =~= Seq::<char>::empty());
        assert(decode_utf8(a + b) =~= decode_utf8(a) + decode_utf8(b));
    } else {
        let ab = a + b;
        assert(ab.subrange(0, a.len() as int) =~= a);
        assert(ab.subrange(a.len() as int, ab.len() as int) =~= b);
        // the junction falls on a character boundary: the first byte of a
        // valid nonempty encoding is a leading byte, never a continuation
        assert(vstd::utf8::valid_first_scalar(b));
        assert(ab[a.len() as int] == b[0]);
        assert(!vstd::utf8::is_continuation_byte(b[0]));
        vstd::utf8::is_char_boundary_iff_not_is_continuation_byte(ab, a.len() as int);
        vstd::utf8::decode_utf8_split(ab, a.len() as int);
    }
}

/// The text of a valid UTF-8 byte run is itself valid UTF-8: the terminator
/// byte is never part of a longer character's encoding, so the first one
/// falls on a character boundary.
pub proof fn lemma_text_of_valid(s: Seq<u8>)
    requires
        valid_utf8(s),
    ensures
        valid_utf8(text_of(s)),
{
    lemma_first_nul_bounds(s);
    let n = first_nul(s);
    if n < s.len() {
        assert(!vstd::utf8::is_continuation_byte(s[n]));
        vstd::utf8::is_char_boundary_iff_not_is_continuation_byte(s, n);
        vstd::utf8::valid_utf8_split(s, n);
        assert(text_of(s) =~= s.subrange(0, n));
    } else {
        assert(text_of(s) =~= s);
    }
}

/// The UTF-8 encoding of a single character, computed in verified code the
/// way the specification states it, one branch per encoded width.
pub fn encode_char_bytes(c: char) -> (r: Vec<u8>)
    ensures
        r@ == encode_scalar(c as u32),
        r@ == encode_utf8(seq![c]),
        1 <= r@.len() <= 4,
{
    proof {
        char_is_scalar(c);
    }
    let u = c as u32;
    let mut r: Vec<u8> = Vec::new();
    if u < 0x80 {
        r.push((u & 0x7F) as u8);
    } else if u < 0x800 {
        r.push(0xC0 | ((u >> 6) & 0x1F) as u8);
        r.push(0x80 | (u & 0x3F) as u8);
    } else if u < 0x10000 {
        proof {
            assert(has_width_3_encoding(u)) by {
                assert(is_scalar(u));
            }
        }
        r.push(0xE0 | ((u >> 12) & 0x0F) as u8);
        r.push(0x80 | ((u >> 6) & 0x3F) as u8);
        r.push(0x80 | (u & 0x3F) as u8);
    } else {
        proof {
            assert(has_width_4_encoding(u)) by {
                assert(is_scalar(u));
            }
        }
        r.push(0xF0 | ((u >> 18) & 0x7) as u8);
        r.push(0x80 | ((u >> 12) & 0x3F) as u8);
        r.push(0x80 | ((u >> 6) & 0x3F) as u8);
        r.push(0x80 | (u & 0x3F) as u8);
    }
    proof {
        assert(r@ =~= encode_scalar(u));
        assert(seq![c].drop_first() =~= Seq::<char>::empty());
        assert(encode_utf8(seq![c].drop_first()) =~= Seq::<u8>::empty());
        assert(encode_utf8(seq![c]) == encode_scalar(seq![c][0] as u32) + encode_utf8(
            seq![c].drop_first(),
        ));
        assert(seq![c][0] == c);
        assert(r@ =~= encode_utf8(seq![c]));
    }
    r
}

/// Relies on str::from_utf8: a byte slice holding valid UTF-8 converts,
/// without copying, into the string slice made of exactly those bytes.
#[verifier::external_body]
pub(crate) fn bytes_to_str(v: &[u8]) -> (r: &str)
    requires
        valid_utf8(v@),
    ensures
        encode_utf8(r@) == v@,
{
    std::str::from_utf8(v).unwrap()
}

} // verus!
