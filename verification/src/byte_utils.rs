//! Trimming of the ASCII space character from byte slices.

use vstd::prelude::*;
use vstd::slice::slice_subrange;

verus! {

/// The ASCII space character, the only byte the trimming functions remove.
pub const SPACE: u8 = 0x20;

/// Number of consecutive space bytes at the front of `s`.
pub open spec fn leading_spaces(s: Seq<u8>) -> int
    decreases s.len(),
{
    if s.len() > 0 && s[0] == SPACE {
        1 + leading_spaces(s.skip(1))
    } else {
        0
    }
}

/// Number of consecutive space bytes at the back of `s`.
pub open spec fn trailing_spaces(s: Seq<u8>) -> int
    decreases s.len(),
{
    if s.len() > 0 && s.last() == SPACE {
        1 + trailing_spaces(s.drop_last())
    } else {
        0
    }
}

/// `s` without its leading spaces.
pub open spec fn trim_start(s: Seq<u8>) -> Seq<u8> {
    s.skip(leading_spaces(s))
}

/// `s` without its trailing spaces.
pub open spec fn trim_end(s: Seq<u8>) -> Seq<u8> {
    s.take(s.len() - trailing_spaces(s))
}

/// `s` without leading and trailing spaces.
pub open spec fn trimmed(s: Seq<u8>) -> Seq<u8> {
    trim_end(trim_start(s))
}

/// `n` is the length of the maximal run of spaces at the front of `s`.
pub open spec fn is_leading_run(s: Seq<u8>, n: int) -> bool {
    &&& 0 <= n <= s.len()
    &&& forall|i: int| 0 <= i < n ==> s[i] == SPACE
    &&& n < s.len() ==> s[n] != SPACE
}

/// `n` is the length of the maximal run of spaces at the back of `s`.
pub open spec fn is_trailing_run(s: Seq<u8>, n: int) -> bool {
    &&& 0 <= n <= s.len()
    &&& forall|i: int| s.len() - n <= i < s.len() ==> s[i] == SPACE
    &&& n < s.len() ==> s[s.len() - n - 1] != SPACE
}

/// `leading_spaces` is the one maximal run of spaces at the front.
pub proof fn lemma_leading_spaces(s: Seq<u8>, n: int)
    ensures
        is_leading_run(s, leading_spaces(s)),
        is_leading_run(s, n) ==> n == leading_spaces(s),
    decreases s.len(),
{
    if s.len() > 0 && s[0] == SPACE {
        let t = s.skip(1);
        lemma_leading_spaces(t, n - 1);
        assert forall|i: int| 0 <= i < 1 + leading_spaces(t) implies s[i] == SPACE by {
            if i > 0 {
                assert(s[i] == t[i - 1]);
            }
        }
        if 1 + leading_spaces(t) < s.len() {
            assert(s[1 + leading_spaces(t)] == t[leading_spaces(t)]);
        }
        if is_leading_run(s, n) {
            if n == 0 {
                assert(s[0] != SPACE);
            }
            assert forall|i: int| 0 <= i < n - 1 implies t[i] == SPACE by {
                assert(t[i] == s[i + 1]);
            }
            if n - 1 < t.len() {
                assert(t[n - 1] == s[n]);
            }
            assert(is_leading_run(t, n - 1));
        }
    } else {
        if is_leading_run(s, n) && n > 0 {
            assert(s[0] == SPACE);
        }
    }
}

/// `trailing_spaces` is the one maximal run of spaces at the back.
pub proof fn lemma_trailing_spaces(s: Seq<u8>, n: int)
    ensures
        is_trailing_run(s, trailing_spaces(s)),
        is_trailing_run(s, n) ==> n == trailing_spaces(s),
    decreases s.len(),
{
    if s.len() > 0 && s.last() == SPACE {
        let t = s.drop_last();
        lemma_trailing_spaces(t, n - 1);
        let k = trailing_spaces(t);
        assert forall|i: int| s.len() - (1 + k) <= i < s.len() implies s[i] == SPACE by {
            if i < s.len() - 1 {
                assert(s[i] == t[i]);
            }
        }
        if 1 + k < s.len() {
            assert(s[s.len() - (1 + k) - 1] == t[t.len() - k - 1]);
        }
        if is_trailing_run(s, n) {
            if n == 0 {
                assert(s[s.len() - 1] != SPACE);
            }
            assert forall|i: int| t.len() - (n - 1) <= i < t.len() implies t[i] == SPACE by {
                assert(t[i] == s[i]);
            }
            if n - 1 < t.len() {
                assert(t[t.len() - (n - 1) - 1] == s[s.len() - n - 1]);
            }
            assert(is_trailing_run(t, n - 1));
        }
    } else {
        if is_trailing_run(s, n) && n > 0 {
            assert(s[s.len() - 1] == SPACE);
        }
    }
}

/// Strips leading spaces (only `0x20`, no other whitespace).
pub fn trim_space_start(bytes: &[u8]) -> (r: &[u8])
    ensures
        r@ == trim_start(bytes@),
        r@.len() <= bytes@.len(),
        r@ == bytes@.skip(bytes@.len() - r@.len()),
        forall|i: int| 0 <= i < bytes@.len() - r@.len() ==> bytes@[i] == SPACE,
        r@.len() > 0 ==> r@[0] != SPACE,
{
    let mut n: usize = 0;
    while n < bytes.len() && bytes[n] == SPACE
        invariant
            n <= bytes@.len(),
            forall|i: int| 0 <= i < n ==> bytes@[i] == SPACE,
        decreases bytes@.len() - n,
    {
        n += 1;
    }
    proof {
        lemma_leading_spaces(bytes@, n as int);
    }
    slice_subrange(bytes, n, bytes.len())
}

/// Strips trailing spaces (only `0x20`, no other whitespace).
pub fn trim_space_end(bytes: &[u8]) -> (r: &[u8])
    ensures
        r@ == trim_end(bytes@),
        r@.len() <= bytes@.len(),
        r@ == bytes@.take(r@.len() as int),
        forall|i: int| r@.len() <= i < bytes@.len() ==> bytes@[i] == SPACE,
        r@.len() > 0 ==> r@.last() != SPACE,
{
    let mut end: usize = bytes.len();
    while end > 0 && bytes[end - 1] == SPACE
        invariant
            end <= bytes@.len(),
            forall|i: int| end <= i < bytes@.len() ==> bytes@[i] == SPACE,
        decreases end,
    {
        end -= 1;
    }
    proof {
        lemma_trailing_spaces(bytes@, bytes@.len() - end);
    }
    slice_subrange(bytes, 0, end)
}

/// Strips spaces from both ends.
pub fn trim_space(bytes: &[u8]) -> (r: &[u8])
    ensures
        r@ == trimmed(bytes@),
        r@.len() > 0 ==> r@[0] != SPACE && r@.last() != SPACE,
        r@.len() <= bytes@.len(),
{
    let r = trim_space_end(trim_space_start(bytes));
    proof {
        let t = trim_start(bytes@);
        if r@.len() > 0 {
            assert(r@[0] == t[0]);
        }
    }
    r
}

} // verus!
