//! The terminator model: the logical length of a terminator-delimited byte
//! run is the offset of its first zero byte, never the size of whatever
//! container happens to hold it.

use vstd::prelude::*;

verus! {

/// Index of the first terminator (zero) byte in `s`, or `s.len()` when `s`
/// holds none.
pub open spec fn first_nul(s: Seq<u8>) -> int
    decreases s.len(),
{
    if s.len() == 0 {
        0
    } else if s[0] == 0 {
        0
    } else {
        1 + first_nul(s.drop_first())
    }
}

/// True when `s` holds at least one terminator byte.
pub open spec fn has_nul(s: Seq<u8>) -> bool {
    exists|i: int| 0 <= i < s.len() && s[i] == 0
}

/// The logical text of a terminator-delimited byte run: every byte before the
/// first terminator.
pub open spec fn text_of(s: Seq<u8>) -> Seq<u8> {
    s.take(first_nul(s))
}

/// The first terminator lies within the run, no byte precedes it that is
/// zero, and it is a zero byte whenever one exists at all.
pub proof fn lemma_first_nul_bounds(s: Seq<u8>)
    ensures
        0 <= first_nul(s) <= s.len(),
        forall|j: int| 0 <= j < first_nul(s) ==> s[j] != 0,
        first_nul(s) < s.len() ==> s[first_nul(s)] == 0,
        has_nul(s) ==> first_nul(s) < s.len(),
    decreases s.len(),
{
    if s.len() == 0 {
    } else if s[0] == 0 {
    } else {
        let t = s.drop_first();
        lemma_first_nul_bounds(t);
        assert(forall|j: int| 0 <= j < first_nul(t) ==> t[j] != 0);
        assert forall|j: int| 0 <= j < first_nul(s) implies s[j] != 0 by {
            if j > 0 {
                assert(t[j - 1] != 0);
            }
        }
        if has_nul(s) {
            let i = choose|i: int| 0 <= i < s.len() && s[i] == 0;
            assert(t[i - 1] == 0);
            assert(has_nul(t));
        }
    }
}

/// A zero byte preceded only by nonzero bytes is the first terminator.
pub proof fn lemma_first_nul_is(s: Seq<u8>, i: int)
    requires
        0 <= i < s.len(),
        s[i] == 0,
        forall|j: int| 0 <= j < i ==> s[j] != 0,
    ensures
        first_nul(s) == i,
    decreases s.len(),
{
    if i > 0 {
        let t = s.drop_first();
        assert(t[i - 1] == 0);
        assert forall|j: int| 0 <= j < i - 1 implies t[j] != 0 by {
            assert(s[j + 1] != 0);
        }
        lemma_first_nul_is(t, i - 1);
    }
}

/// Bytes appended past an existing terminator never move the first
/// terminator, so they never change the logical text.
pub proof fn lemma_first_nul_append(s: Seq<u8>, t: Seq<u8>)
    requires
        has_nul(s),
    ensures
        first_nul(s + t) == first_nul(s),
        text_of(s + t) == text_of(s),
{
    lemma_first_nul_bounds(s);
    let i = first_nul(s);
    assert((s + t)[i] == 0);
    assert forall|j: int| 0 <= j < i implies (s + t)[j] != 0 by {
        assert((s + t)[j] == s[j]);
    }
    lemma_first_nul_is(s + t, i);
    assert(text_of(s + t) =~= text_of(s));
}

/// Two runs that agree on every byte up to and including the first
/// terminator of one of them have the same first terminator and text.
pub proof fn lemma_first_nul_prefix_agree(s: Seq<u8>, t: Seq<u8>)
    requires
        has_nul(s),
        t.len() >= first_nul(s) + 1,
        forall|j: int| 0 <= j <= first_nul(s) ==> s[j] == t[j],
    ensures
        first_nul(t) == first_nul(s),
        text_of(t) == text_of(s),
{
    lemma_first_nul_bounds(s);
    let i = first_nul(s);
    assert(t[i] == 0);
    assert forall|j: int| 0 <= j < i implies t[j] != 0 by {
        assert(s[j] != 0);
    }
    lemma_first_nul_is(t, i);
    assert(text_of(t) =~= text_of(s));
}

/// Offset of the first terminator byte in `v`, or `v.len()` when `v` holds
/// none: the scan that every content-reading operation performs instead of
/// trusting cached size metadata.
pub fn find_nul(v: &[u8]) -> (n: usize)
    ensures
        n == first_nul(v@),
{
    let mut i: usize = 0;
    loop
        invariant
            0 <= i <= v@.len(),
            forall|j: int| 0 <= j < i ==> v@[j] != 0,
        decreases v@.len() - i,
    {
        if i == v.len() {
            proof {
                lemma_first_nul_bounds(v@);
                if first_nul(v@) < v@.len() {
                    assert(v@[first_nul(v@)] == 0);
                    assert(false);
                }
            }
            return i;
        }
        if *vstd::slice::slice_index_get(v, i) == 0 {
            proof {
                lemma_first_nul_is(v@, i as int);
            }
            return i;
        }
        i = i + 1;
    }
}

} // verus!
