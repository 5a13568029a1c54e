//! Searching a byte sequence for a marker byte.
//!
//! The gateway splits byte strings at the first occurrence of a marker in
//! several places: the request target at `?`, the request body at line
//! terminators, and a status line at the first space.

use vstd::prelude::*;

verus! {

/// Index of the first occurrence of `b` in `s`, or `s.len()` if `b` does not occur.
pub open spec fn find_byte(s: Seq<u8>, b: u8) -> int
    decreases s.len(),
{
    if s.len() == 0 {
        0
    } else if s[0] == b {
        0
    } else {
        1 + find_byte(s.skip(1), b)
    }
}

/// `find_byte` points at the first occurrence: everything before it differs
/// from `b`, and the index is in bounds exactly when `b` occurs at all.
pub proof fn lemma_find_byte_bounds(s: Seq<u8>, b: u8)
    ensures
        0 <= find_byte(s, b) <= s.len(),
        find_byte(s, b) < s.len() ==> s[find_byte(s, b)] == b,
        forall|j: int| 0 <= j < find_byte(s, b) ==> s[j] != b,
    decreases s.len(),
{
    if s.len() == 0 {
    } else if s[0] == b {
    } else {
        lemma_find_byte_bounds(s.skip(1), b);
        assert forall|j: int| 0 <= j < find_byte(s, b) implies s[j] != b by {
            if j > 0 {
                assert(s.skip(1)[j - 1] == s[j]);
            }
        }
    }
}

/// An index with no occurrence before it, and an occurrence (or the end) at
/// it, is exactly `find_byte`.
pub proof fn lemma_find_byte_at(s: Seq<u8>, b: u8, i: int)
    requires
        0 <= i <= s.len(),
        forall|j: int| 0 <= j < i ==> s[j] != b,
        i < s.len() ==> s[i] == b,
    ensures
        find_byte(s, b) == i,
    decreases s.len(),
{
    if s.len() == 0 {
    } else if s[0] == b {
        assert(i == 0);
    } else {
        assert(s[0] != b);
        assert(i >= 1);
        assert forall|j: int| 0 <= j < i - 1 implies s.skip(1)[j] != b by {
            assert(s.skip(1)[j] == s[j + 1]);
        }
        if i - 1 < s.skip(1).len() {
            assert(s.skip(1)[i - 1] == s[i]);
        }
        lemma_find_byte_at(s.skip(1), b, i - 1);
    }
}

/// Position of the first occurrence of `b` in `v`, or `v.len()` if absent.
pub fn find_byte_in(v: &Vec<u8>, b: u8) -> (r: usize)
    ensures
        r == find_byte(v@, b),
{
    let mut i: usize = 0;
    while i < v.len()
        invariant
            0 <= i <= v@.len(),
            forall|j: int| 0 <= j < i ==> v@[j] != b,
        decreases v@.len() - i,
    {
        if v[i] == b {
            proof {
                lemma_find_byte_at(v@, b, i as int);
            }
            return i;
        }
        i = i + 1;
    }
    proof {
        lemma_find_byte_at(v@, b, i as int);
    }
    i
}

} // verus!
