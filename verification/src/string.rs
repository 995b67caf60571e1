//! The owned buffer: a growable, implicitly terminator-delimited UTF-8
//! byte buffer whose logical length is recomputed from its contents on
//! demand, never trusted from cached size metadata.

use vstd::prelude::*;
use vstd::string::StringSliceAdditionalSpecFns;
use vstd::utf8::{decode_utf8, encode_utf8, valid_utf8};

use crate::encoding::{bytes_to_str, encode_char_bytes, nonzero_bytes, nul_free_chars};
use crate::encoding::{lemma_decode_concat, lemma_encode_nul_free, lemma_encode_round_trip};
use crate::encoding::lemma_text_of_valid;
use crate::term::{find_nul, first_nul, has_nul, text_of};
use crate::term::{lemma_first_nul_bounds, lemma_first_nul_is, lemma_first_nul_prefix_agree};

verus! {

/// A UTF-8 encoded, growable, implicitly terminator-delimited string.
///
/// The byte vector models the whole allocation handed to the foreign side:
/// its length is the allocation size, and the logical text is whatever
/// precedes the first terminator byte, wherever a writer put it.
pub struct ImString {
    buf: Vec<u8>,
}

impl ImString {
    /// Every byte of the allocation, terminator slot and spare capacity
    /// included.
    pub closed spec fn alloc_bytes(&self) -> Seq<u8> {
        self.buf@
    }

    /// The logical text: the bytes before the first terminator.
    pub open spec fn text_bytes(&self) -> Seq<u8> {
        text_of(self.alloc_bytes())
    }

    /// The logical text as the characters it encodes.
    pub open spec fn text_chars(&self) -> Seq<char> {
        decode_utf8(self.text_bytes())
    }

    /// Usable bytes of the allocation, the reserved terminator slot
    /// excluded.
    pub open spec fn spec_capacity(&self) -> int {
        self.alloc_bytes().len() - 1
    }

    /// Size of the allocation, the reserved terminator slot included.
    pub open spec fn spec_capacity_with_nul(&self) -> int {
        self.alloc_bytes().len() as int
    }

    /// The buffer's invariant at every observable boundary: at least one
    /// terminator byte is present, and the bytes before the first one are
    /// valid UTF-8.
    pub open spec fn wf(&self) -> bool {
        &&& has_nul(self.alloc_bytes())
        &&& valid_utf8(self.text_bytes())
    }

    /// An empty buffer over an allocation of `capacity` usable bytes plus
    /// the terminator slot.
    pub fn with_capacity(capacity: usize) -> (r: ImString)
        requires
            capacity < usize::MAX,
        ensures
            r.wf(),
            r.text_bytes() == Seq::<u8>::empty(),
            r.text_chars() == Seq::<char>::empty(),
            r.spec_capacity() == capacity,
    {
        let buf: Vec<u8> = vec![0u8; capacity + 1];
        let r = ImString { buf };
        proof {
            assert(r.alloc_bytes()[0] == 0);
            assert(has_nul(r.alloc_bytes()));
            assert(first_nul(r.alloc_bytes()) == 0);
            assert(r.text_bytes() =~= Seq::<u8>::empty());
        }
        r
    }

    /// Resets the logical content to empty by writing a terminator at the
    /// start; the allocation is left exactly as large as it was.
    pub fn clear(&mut self)
        requires
            old(self).wf(),
        ensures
            final(self).wf(),
            final(self).text_bytes() == Seq::<u8>::empty(),
            final(self).text_chars() == Seq::<char>::empty(),
            final(self).spec_capacity_with_nul() == old(self).spec_capacity_with_nul(),
            final(self).alloc_bytes() == old(self).alloc_bytes().update(0, 0u8),
    {
        proof {
            lemma_first_nul_bounds(self.alloc_bytes());
        }
        self.buf[0] = 0;
        proof {
            assert(self.alloc_bytes()[0] == 0);
            assert(first_nul(self.alloc_bytes()) == 0);
            assert(has_nul(self.alloc_bytes()));
            assert(self.text_bytes() =~= Seq::<u8>::empty());
        }
    }

    /// Usable capacity in bytes, the reserved terminator slot excluded.
    pub fn capacity(&self) -> (r: usize)
        requires
            self.wf(),
        ensures
            r == self.spec_capacity(),
    {
        proof {
            lemma_first_nul_bounds(self.alloc_bytes());
        }
        self.buf.len() - 1
    }

    /// Allocation size in bytes, the reserved terminator slot included.
    pub fn capacity_with_nul(&self) -> (r: usize)
        ensures
            r == self.spec_capacity_with_nul(),
    {
        self.buf.len()
    }

    /// Read access to the whole allocation, as the foreign side sees it
    /// through the read pointer: text, terminator, and whatever lies beyond.
    pub fn as_bytes(&self) -> (r: &[u8])
        ensures
            r@ == self.alloc_bytes(),
    {
        self.buf.as_slice()
    }

    /// Grows the allocation to at least `needed` bytes by appending zeroed
    /// spare capacity; never shrinks, never touches existing bytes.
    fn grow_to(&mut self, needed: usize)
        ensures
            final(self).alloc_bytes().len() >= needed,
            final(self).alloc_bytes().len() == vstd::math::max(
                old(self).alloc_bytes().len() as int,
                needed as int,
            ),
            forall|j: int|
                0 <= j < old(self).alloc_bytes().len()
                    ==> final(self).alloc_bytes()[j] == old(self).alloc_bytes()[j],
            forall|j: int|
                old(self).alloc_bytes().len() <= j < final(self).alloc_bytes().len()
                    ==> final(self).alloc_bytes()[j] == 0,
    {
        while self.buf.len() < needed
            invariant
                self.buf@.len() >= old(self).alloc_bytes().len(),
                self.buf@.len() <= vstd::math::max(
                    old(self).alloc_bytes().len() as int,
                    needed as int,
                ),
                forall|j: int|
                    0 <= j < old(self).alloc_bytes().len()
                        ==> self.buf@[j] == old(self).alloc_bytes()[j],
                forall|j: int|
                    old(self).alloc_bytes().len() <= j < self.buf@.len() ==> self.buf@[j] == 0,
            decreases needed - self.buf@.len(),
        {
            self.buf.push(0);
        }
    }

    /// The centralized append path every mutating text operation goes
    /// through: resynchronizes the logical length by scanning for the first
    /// terminator, copies the new bytes in at that point, and writes a fresh
    /// terminator immediately after them.
    fn append_bytes(&mut self, bs: &[u8])
        requires
            old(self).wf(),
            nonzero_bytes(bs@),
            valid_utf8(bs@),
            old(self).text_bytes().len() + bs@.len() + 1 <= usize::MAX,
        ensures
            final(self).wf(),
            final(self).text_bytes() == old(self).text_bytes() + bs@,
            final(self).alloc_bytes().len() >= old(self).alloc_bytes().len(),
    {
        proof {
            lemma_first_nul_bounds(old(self).alloc_bytes());
        }
        let n = find_nul(self.buf.as_slice());
        let m = bs.len();
        self.grow_to(n + m + 1);
        let ghost base = self.buf@;
        let mut k: usize = 0;
        while k < m
            invariant
                0 <= k <= m,
                m == bs@.len(),
                n == first_nul(old(self).alloc_bytes()),
                n + m + 1 <= usize::MAX,
                n + m + 1 <= self.buf@.len(),
                self.buf@.len() == base.len(),
                forall|j: int| 0 <= j < n ==> self.buf@[j] == base[j],
                forall|j: int| n <= j < n + k ==> self.buf@[j] == bs@[j - n],
            decreases m - k,
        {
            self.buf[n + k] = *vstd::slice::slice_index_get(bs, k);
            k = k + 1;
        }
        self.buf[n + m] = 0;
        proof {
            let fin = self.buf@;
            let old_b = old(self).alloc_bytes();
            assert forall|j: int| 0 <= j < n + m implies fin[j] != 0 by {
                if j < n {
                    assert(fin[j] == base[j]);
                    assert(base[j] == old_b[j]);
                    assert(old_b[j] != 0);
                } else {
                    assert(fin[j] == bs@[j - n]);
                }
            }
            lemma_first_nul_is(fin, n + m);
            assert(has_nul(fin));
            assert(text_of(fin) =~= old(self).text_bytes() + bs@);
            vstd::utf8::valid_utf8_concat(old(self).text_bytes(), bs@);
        }
    }

    /// Appends text after resynchronizing the logical length from the
    /// buffer's contents, then restores the terminator. The text may not
    /// contain the terminator character.
    pub fn push_str(&mut self, string: &str)
        requires
            old(self).wf(),
            nul_free_chars(string@),
            old(self).text_bytes().len() + encode_utf8(string@).len() + 1 <= usize::MAX,
        ensures
            final(self).wf(),
            final(self).text_bytes() == old(self).text_bytes() + encode_utf8(string@),
            final(self).text_chars() == old(self).text_chars() + string@,
            final(self).alloc_bytes().len() >= old(self).alloc_bytes().len(),
    {
        let bs = string.as_bytes();
        proof {
            assert(bs@ == string.spec_bytes());
            lemma_encode_nul_free(string@);
            lemma_encode_round_trip(string@);
        }
        self.append_bytes(bs);
        proof {
            lemma_decode_concat(old(self).text_bytes(), encode_utf8(string@));
        }
    }

    /// Appends one character, through the same resynchronizing append path
    /// as `push_str`. The character may not be the terminator.
    pub fn push(&mut self, ch: char)
        requires
            old(self).wf(),
            ch != '\0',
            old(self).text_bytes().len() + 5 <= usize::MAX,
        ensures
            final(self).wf(),
            final(self).text_bytes() == old(self).text_bytes() + encode_utf8(seq![ch]),
            final(self).text_chars() == old(self).text_chars() + seq![ch],
            final(self).alloc_bytes().len() >= old(self).alloc_bytes().len(),
    {
        let bs = encode_char_bytes(ch);
        proof {
            assert(nul_free_chars(seq![ch]));
            lemma_encode_nul_free(seq![ch]);
            lemma_encode_round_trip(seq![ch]);
        }
        self.append_bytes(bs.as_slice());
        proof {
            lemma_decode_concat(old(self).text_bytes(), encode_utf8(seq![ch]));
        }
    }

    /// Grows the allocation so that at least `additional` usable bytes lie
    /// beyond the current logical length; never shrinks the allocation and
    /// never changes the logical text.
    pub fn reserve(&mut self, additional: usize)
        requires
            old(self).wf(),
            old(self).text_bytes().len() + additional + 1 <= usize::MAX,
        ensures
            final(self).wf(),
            final(self).text_bytes() == old(self).text_bytes(),
            final(self).spec_capacity() >= old(self).spec_capacity(),
            final(self).spec_capacity() >= old(self).text_bytes().len() + additional,
            forall|j: int|
                0 <= j < old(self).alloc_bytes().len()
                    ==> final(self).alloc_bytes()[j] == old(self).alloc_bytes()[j],
            forall|j: int|
                old(self).alloc_bytes().len() <= j < final(self).alloc_bytes().len()
                    ==> final(self).alloc_bytes()[j] == 0,
    {
        self.reserve_exact(additional);
    }

    /// Grows the allocation to exactly what `additional` usable bytes beyond
    /// the current logical length require, unless it is already that large;
    /// never shrinks and never changes the logical text.
    pub fn reserve_exact(&mut self, additional: usize)
        requires
            old(self).wf(),
            old(self).text_bytes().len() + additional + 1 <= usize::MAX,
        ensures
            final(self).wf(),
            final(self).text_bytes() == old(self).text_bytes(),
            final(self).spec_capacity_with_nul() == vstd::math::max(
                old(self).spec_capacity_with_nul(),
                old(self).text_bytes().len() + additional + 1,
            ),
            final(self).spec_capacity() >= old(self).spec_capacity(),
            final(self).spec_capacity() >= old(self).text_bytes().len() + additional,
            forall|j: int|
                0 <= j < old(self).alloc_bytes().len()
                    ==> final(self).alloc_bytes()[j] == old(self).alloc_bytes()[j],
            forall|j: int|
                old(self).alloc_bytes().len() <= j < final(self).alloc_bytes().len()
                    ==> final(self).alloc_bytes()[j] == 0,
    {
        proof {
            lemma_first_nul_bounds(old(self).alloc_bytes());
        }
        let n = find_nul(self.buf.as_slice());
        self.grow_to(n + 1 + additional);
        proof {
            let old_b = old(self).alloc_bytes();
            lemma_first_nul_prefix_agree(old_b, self.buf@);
            assert(old(self).text_bytes().len() == n);
            assert(has_nul(self.buf@)) by {
                assert(self.buf@[first_nul(old_b)] == 0);
            }
        }
    }

    /// A buffer holding a copy of `value`'s bytes followed by the
    /// terminator. The text may not contain the terminator character.
    pub fn new(value: &str) -> (r: ImString)
        requires
            nul_free_chars(value@),
        ensures
            r.wf(),
            r.text_bytes() == encode_utf8(value@),
            r.text_chars() == value@,
            r.spec_capacity() == encode_utf8(value@).len(),
    {
        let bs = value.as_bytes();
        proof {
            assert(bs@ == value.spec_bytes());
        }
        let mut buf = vstd::slice::slice_to_vec(bs);
        buf.push(0);
        let r = ImString { buf };
        proof {
            let enc = encode_utf8(value@);
            lemma_encode_nul_free(value@);
            assert(r.alloc_bytes()[enc.len() as int] == 0);
            lemma_first_nul_is(r.alloc_bytes(), enc.len() as int);
            assert(has_nul(r.alloc_bytes()));
            assert(r.text_bytes() =~= enc);
            lemma_encode_round_trip(value@);
        }
        r
    }

    /// Adopts bytes already known to be valid UTF-8 and appends a
    /// terminator. This is the unchecked construction path, its caller
    /// contract — the bytes are UTF-8 — stated as a precondition; a
    /// terminator byte among the adopted bytes ends the logical text early,
    /// exactly as a terminator-delimited reader sees it.
    pub fn from_utf8_unchecked(v: Vec<u8>) -> (r: ImString)
        requires
            valid_utf8(v@),
        ensures
            r.wf(),
            r.alloc_bytes() == v@ + seq![0u8],
            r.text_bytes() == text_of(v@),
            r.spec_capacity() == v@.len(),
            nonzero_bytes(v@) ==> r.text_bytes() == v@,
    {
        let ghost orig = v@;
        let mut buf = v;
        buf.push(0);
        let r = ImString { buf };
        proof {
            lemma_first_nul_bounds(orig);
            assert(r.alloc_bytes() =~= orig + seq![0u8]);
            if has_nul(orig) {
                crate::term::lemma_first_nul_append(orig, seq![0u8]);
            } else {
                assert(first_nul(orig) == orig.len());
                assert(r.alloc_bytes()[orig.len() as int] == 0);
                lemma_first_nul_is(r.alloc_bytes(), orig.len() as int);
            }
            assert(r.alloc_bytes()[orig.len() as int] == 0);
            assert(has_nul(r.alloc_bytes()));
            assert(r.text_bytes() =~= text_of(orig));
            lemma_text_of_valid(orig);
            if nonzero_bytes(orig) {
                assert(first_nul(orig) == orig.len());
                assert(text_of(orig) =~= orig);
            }
        }
        r
    }

    /// Adopts bytes that already carry their terminator, without copying
    /// anything in or out. The caller contract — a terminator is present and
    /// the bytes before the first one are UTF-8 — is a precondition.
    pub fn from_utf8_with_nul_unchecked(v: Vec<u8>) -> (r: ImString)
        requires
            has_nul(v@),
            valid_utf8(text_of(v@)),
        ensures
            r.wf(),
            r.alloc_bytes() == v@,
            r.text_bytes() == text_of(v@),
    {
        ImString { buf: v }
    }

    /// The logical text, rederived from the buffer's bytes by scanning for
    /// the first terminator — never from a cached length — and returned as a
    /// borrowed string slice.
    pub fn to_str(&self) -> (r: &str)
        requires
            self.wf(),
        ensures
            encode_utf8(r@) == self.text_bytes(),
            r@ == self.text_chars(),
    {
        proof {
            lemma_first_nul_bounds(self.alloc_bytes());
        }
        let n = find_nul(self.buf.as_slice());
        let sub = vstd::slice::slice_subrange(self.buf.as_slice(), 0, n);
        proof {
            assert(sub@ =~= self.text_bytes());
        }
        let r = bytes_to_str(sub);
        proof {
            vstd::utf8::encode_utf8_decode_utf8(r@);
        }
        r
    }

    /// The foreign side writing through the raw pointer: overwrites the
    /// leading bytes of the allocation in place, reallocating nothing. The
    /// foreign writer's contract is the precondition: what it leaves behind
    /// must still hold a terminator somewhere in the allocation and valid
    /// UTF-8 before the first one.
    pub fn foreign_write(&mut self, data: &[u8])
        requires
            data@.len() <= old(self).spec_capacity_with_nul(),
            has_nul(data@ + old(self).alloc_bytes().skip(data@.len() as int)),
            valid_utf8(text_of(data@ + old(self).alloc_bytes().skip(data@.len() as int))),
        ensures
            final(self).wf(),
            final(self).alloc_bytes() == data@ + old(self).alloc_bytes().skip(data@.len() as int),
            final(self).spec_capacity_with_nul() == old(self).spec_capacity_with_nul(),
    {
        let m = data.len();
        let mut k: usize = 0;
        while k < m
            invariant
                0 <= k <= m,
                m == data@.len(),
                m <= self.buf@.len(),
                self.buf@.len() == old(self).alloc_bytes().len(),
                forall|j: int| 0 <= j < k ==> self.buf@[j] == data@[j],
                forall|j: int| k <= j < self.buf@.len() ==> self.buf@[j] == old(self).alloc_bytes()[j],
            decreases m - k,
        {
            self.buf[k] = *vstd::slice::slice_index_get(data, k);
            k = k + 1;
        }
        proof {
            assert(self.buf@ =~= data@ + old(self).alloc_bytes().skip(m as int));
        }
    }
}

impl Default for ImString {
    /// The default buffer: a single terminator byte and no usable capacity.
    fn default() -> (r: ImString)
        ensures
            r.wf(),
            r.text_bytes() == Seq::<u8>::empty(),
            r.text_chars() == Seq::<char>::empty(),
            r.spec_capacity() == 0,
    {
        ImString::with_capacity(0)
    }
}

/// The allocation always keeps exactly one slot beyond the usable capacity
/// for the terminator, whatever sequence of operations ran before.
pub proof fn lemma_capacity_with_nul(b: &ImString)
    ensures
        b.spec_capacity_with_nul() == b.spec_capacity() + 1,
{
}

} // verus!
