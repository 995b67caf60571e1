//! The borrowed view: a zero-copy, validated, read-only reference to
//! terminator-delimited UTF-8 text. Its logical length is where the first
//! terminator sits, never the size of the container the bytes live in.

use vstd::prelude::*;
use vstd::std_specs::cmp::PartialEqSpec;
use vstd::utf8::{decode_utf8, encode_utf8, valid_utf8};

use crate::encoding::bytes_to_str;
use crate::string::ImString;
use crate::term::{find_nul, first_nul, has_nul, text_of};
use crate::term::{lemma_first_nul_bounds, lemma_first_nul_is};

verus! {

/// A UTF-8 encoded, implicitly terminator-delimited string slice: text
/// bytes followed by exactly one terminator byte, borrowed from whatever
/// storage holds them.
#[derive(Clone, Copy, Hash)]
pub struct ImStr<'a> {
    bytes: &'a [u8],
}

impl<'a> ImStr<'a> {
    /// The referenced bytes: the text and its terminator.
    pub closed spec fn raw_bytes(&self) -> Seq<u8> {
        self.bytes@
    }

    /// The logical text: every byte before the first terminator.
    pub open spec fn text_bytes(&self) -> Seq<u8> {
        text_of(self.raw_bytes())
    }

    /// The logical text as the characters it encodes.
    pub open spec fn text_chars(&self) -> Seq<char> {
        decode_utf8(self.text_bytes())
    }

    /// The view's invariant, guaranteed by every construction path: the
    /// last referenced byte is the one terminator, and the text before it
    /// is valid UTF-8.
    pub open spec fn wf(&self) -> bool {
        &&& self.raw_bytes().len() >= 1
        &&& self.raw_bytes()[self.raw_bytes().len() - 1] == 0
        &&& forall|j: int| 0 <= j < self.raw_bytes().len() - 1 ==> self.raw_bytes()[j] != 0
        &&& valid_utf8(self.text_bytes())
    }

    /// A view over a validated owned buffer; always succeeds. The view's
    /// length comes from scanning the buffer's bytes for the first
    /// terminator, not from any size the buffer might have cached.
    pub fn from_owned(s: &'a ImString) -> (r: ImStr<'a>)
        requires
            s.wf(),
        ensures
            r.wf(),
            r.text_bytes() == s.text_bytes(),
            r.text_chars() == s.text_chars(),
    {
        proof {
            lemma_first_nul_bounds(s.alloc_bytes());
        }
        let whole = s.as_bytes();
        let len = whole.len();
        let n = find_nul(whole);
        proof {
            assert(n < len);
        }
        let sub = vstd::slice::slice_subrange(whole, 0, n + 1);
        let r = ImStr { bytes: sub };
        proof {
            assert(r.raw_bytes()[n as int] == 0);
            lemma_first_nul_is(r.raw_bytes(), n as int);
            assert(r.text_bytes() =~= s.text_bytes());
        }
        r
    }

    /// Adopts a byte slice that already ends in its one terminator, without
    /// copying or scanning. This is the unchecked construction path, its
    /// caller contract stated as a precondition: UTF-8 text, then the
    /// terminator, and nothing else.
    pub fn from_utf8_with_nul_unchecked(bytes: &'a [u8]) -> (r: ImStr<'a>)
        requires
            bytes@.len() >= 1,
            bytes@[bytes@.len() - 1] == 0,
            forall|j: int| 0 <= j < bytes@.len() - 1 ==> bytes@[j] != 0,
            valid_utf8(bytes@.take(bytes@.len() - 1)),
        ensures
            r.wf(),
            r.raw_bytes() == bytes@,
            r.text_bytes() == bytes@.take(bytes@.len() - 1),
    {
        let r = ImStr { bytes };
        proof {
            lemma_first_nul_is(bytes@, bytes@.len() - 1);
            assert(r.text_bytes() =~= bytes@.take(bytes@.len() - 1));
        }
        r
    }

    /// Read access to the referenced bytes, text and terminator both: the
    /// address handed back into foreign calls expecting terminator-
    /// delimited text.
    pub fn as_bytes(&self) -> (r: &[u8])
        ensures
            r@ == self.raw_bytes(),
    {
        self.bytes
    }

    /// The validated text up to, and excluding, the terminator, as a
    /// borrowed string slice; nothing is copied.
    pub fn to_str(&self) -> (r: &str)
        requires
            self.wf(),
        ensures
            encode_utf8(r@) == self.text_bytes(),
            r@ == self.text_chars(),
    {
        proof {
            lemma_first_nul_is(self.raw_bytes(), self.raw_bytes().len() - 1);
        }
        let sub = vstd::slice::slice_subrange(self.bytes, 0, self.bytes.len() - 1);
        proof {
            assert(sub@ =~= self.text_bytes());
        }
        let r = bytes_to_str(sub);
        proof {
            vstd::utf8::encode_utf8_decode_utf8(r@);
        }
        r
    }

    /// An owned copy of the view: the reverse conversion, which copies the
    /// text and terminator into a fresh buffer.
    pub fn to_im_string(&self) -> (r: ImString)
        requires
            self.wf(),
        ensures
            r.wf(),
            r.alloc_bytes() == self.raw_bytes(),
            r.text_bytes() == self.text_bytes(),
            r.text_chars() == self.text_chars(),
    {
        proof {
            lemma_first_nul_is(self.raw_bytes(), self.raw_bytes().len() - 1);
            assert(has_nul(self.raw_bytes()));
        }
        let v = vstd::slice::slice_to_vec(self.bytes);
        ImString::from_utf8_with_nul_unchecked(v)
    }
}

impl<'a> PartialEq for ImStr<'a> {
    /// Compares the referenced bytes; on well-formed views that is exactly
    /// the logical text, whatever allocation the bytes were carved from.
    fn eq(&self, other: &ImStr<'a>) -> (r: bool) {
        if self.bytes.len() != other.bytes.len() {
            proof {
                assert(self.raw_bytes() != other.raw_bytes());
            }
            return false;
        }
        let mut i: usize = 0;
        while i < self.bytes.len()
            invariant
                0 <= i <= self.raw_bytes().len(),
                self.raw_bytes().len() == other.raw_bytes().len(),
                forall|j: int| 0 <= j < i ==> self.raw_bytes()[j] == other.raw_bytes()[j],
            decreases self.raw_bytes().len() - i,
        {
            if *vstd::slice::slice_index_get(self.bytes, i) != *vstd::slice::slice_index_get(
                other.bytes,
                i,
            ) {
                return false;
            }
            i = i + 1;
        }
        proof {
            assert(self.raw_bytes() =~= other.raw_bytes());
        }
        true
    }
}

impl<'a> vstd::std_specs::cmp::PartialEqSpecImpl for ImStr<'a> {
    open spec fn obeys_eq_spec() -> bool {
        true
    }

    open spec fn eq_spec(&self, other: &ImStr<'a>) -> bool {
        self.raw_bytes() == other.raw_bytes()
    }
}

/// Law: two well-formed views are equal exactly when their logical texts
/// are equal, however large the backing allocations were — a view keeps
/// nothing of the allocation beyond the text and its terminator.
pub proof fn lemma_view_eq_is_text_eq(a: ImStr<'_>, b: ImStr<'_>)
    requires
        a.wf(),
        b.wf(),
    ensures
        a.eq_spec(&b) <==> a.text_bytes() == b.text_bytes(),
{
    lemma_first_nul_is(a.raw_bytes(), a.raw_bytes().len() - 1);
    lemma_first_nul_is(b.raw_bytes(), b.raw_bytes().len() - 1);
    if a.text_bytes() == b.text_bytes() {
        assert(a.raw_bytes() =~= b.raw_bytes()) by {
            assert(a.raw_bytes().len() == a.text_bytes().len() + 1);
            assert(b.raw_bytes().len() == b.text_bytes().len() + 1);
            assert(forall|j: int|
                0 <= j < a.raw_bytes().len() - 1 ==> a.raw_bytes()[j] == a.text_bytes()[j]);
            assert(forall|j: int|
                0 <= j < b.raw_bytes().len() - 1 ==> b.raw_bytes()[j] == b.text_bytes()[j]);
        }
    }
}

/// Law: a round trip from a view to an owned copy and back to a view
/// yields the identical logical text.
pub proof fn lemma_view_owned_round_trip(v: ImStr<'_>, b: ImString, w: ImStr<'_>)
    requires
        v.wf(),
        b.wf(),
        w.wf(),
        b.text_bytes() == v.text_bytes(),
        w.text_bytes() == b.text_bytes(),
    ensures
        w.text_bytes() == v.text_bytes(),
        w.text_chars() == v.text_chars(),
{
}

} // verus!
