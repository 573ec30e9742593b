//! Searching a byte string for the end of a field.

use vstd::prelude::*;

verus! {

/// The length of the longest prefix of `s` that does not hold the byte `b`:
/// the index of the first `b`, or the length of `s` where there is none.
pub open spec fn span_until(s: Seq<u8>, b: u8) -> nat
    decreases s.len(),
{
    if s.len() == 0 || s[0] == b {
        0
    } else {
        1 + span_until(s.drop_first(), b)
    }
}

/// The length of the longest prefix of `s` made of ASCII decimal digits.
pub open spec fn digit_span(s: Seq<u8>) -> nat
    decreases s.len(),
{
    if s.len() == 0 || !(48 <= s[0] <= 57) {
        0
    } else {
        1 + digit_span(s.drop_first())
    }
}

/// What [`span_until`] means, without recursion.
pub proof fn lemma_span_until(s: Seq<u8>, b: u8)
    ensures
        span_until(s, b) <= s.len(),
        forall|j: int| 0 <= j < span_until(s, b) ==> s[j] != b,
        span_until(s, b) < s.len() ==> s[span_until(s, b) as int] == b,
    decreases s.len(),
{
    if s.len() == 0 || s[0] == b {
    } else {
        let t = s.drop_first();
        lemma_span_until(t, b);
        assert forall|j: int| 0 <= j < span_until(s, b) implies s[j] != b by {
            if j > 0 {
                assert(s[j] == t[j - 1]);
            }
        }
        if span_until(s, b) < s.len() {
            assert(s[span_until(s, b) as int] == t[span_until(t, b) as int]);
        }
    }
}

/// A position with no `b` before it and a `b` at it (or the end of `s`) is
/// the one that [`span_until`] gives.
pub proof fn lemma_span_until_is(s: Seq<u8>, b: u8, k: int)
    requires
        0 <= k <= s.len(),
        forall|j: int| 0 <= j < k ==> s[j] != b,
        k < s.len() ==> s[k] == b,
    ensures
        span_until(s, b) == k,
    decreases s.len(),
{
    if s.len() == 0 || k == 0 {
    } else {
        let t = s.drop_first();
        assert(s[0] != b);
        assert forall|j: int| 0 <= j < k - 1 implies t[j] != b by {
            assert(t[j] == s[j + 1]);
        }
        lemma_span_until_is(t, b, k - 1);
    }
}

/// What [`digit_span`] means, without recursion.
pub proof fn lemma_digit_span(s: Seq<u8>)
    ensures
        digit_span(s) <= s.len(),
        forall|j: int| 0 <= j < digit_span(s) ==> 48 <= #[trigger] s[j] <= 57,
        digit_span(s) < s.len() ==> !(48 <= s[digit_span(s) as int] <= 57),
    decreases s.len(),
{
    if s.len() == 0 || !(48 <= s[0] <= 57) {
    } else {
        let t = s.drop_first();
        lemma_digit_span(t);
        assert forall|j: int| 0 <= j < digit_span(s) implies 48 <= #[trigger] s[j] <= 57 by {
            if j > 0 {
                assert(s[j] == t[j - 1]);
            }
        }
        if digit_span(s) < s.len() {
            assert(s[digit_span(s) as int] == t[digit_span(t) as int]);
        }
    }
}

/// A position with only digits before it and no digit at it (or the end of
/// `s`) is the one that [`digit_span`] gives.
pub proof fn lemma_digit_span_is(s: Seq<u8>, k: int)
    requires
        0 <= k <= s.len(),
        forall|j: int| 0 <= j < k ==> 48 <= #[trigger] s[j] <= 57,
        k < s.len() ==> !(48 <= s[k] <= 57),
    ensures
        digit_span(s) == k,
    decreases s.len(),
{
    if s.len() == 0 || k == 0 {
    } else {
        let t = s.drop_first();
        assert(48 <= s[0] <= 57);
        assert forall|j: int| 0 <= j < k - 1 implies 48 <= #[trigger] t[j] <= 57 by {
            assert(t[j] == s[j + 1]);
        }
        lemma_digit_span_is(t, k - 1);
    }
}

/// The index of the first `b` in `s`, or the length of `s` where there is none.
pub fn find_byte(s: &[u8], b: u8) -> (k: usize)
    ensures
        k == span_until(s@, b),
        k <= s.len(),
        k < s.len() ==> s@[k as int] == b,
{
    let mut k: usize = 0;
    while k < s.len() && s[k] != b
        invariant
            0 <= k <= s.len(),
            forall|j: int| 0 <= j < k ==> s@[j] != b,
        decreases s.len() - k,
    {
        k = k + 1;
    }
    proof {
        lemma_span_until_is(s@, b, k as int);
    }
    k
}

/// The index of the first byte of `s` that is no ASCII decimal digit, or the
/// length of `s` where there is none.
pub fn find_non_digit(s: &[u8]) -> (k: usize)
    ensures
        k == digit_span(s@),
        k <= s.len(),
        k < s.len() ==> !(48 <= s@[k as int] <= 57),
{
    let mut k: usize = 0;
    while k < s.len() && 48 <= s[k] && s[k] <= 57
        invariant
            0 <= k <= s.len(),
            forall|j: int| 0 <= j < k ==> 48 <= #[trigger] s@[j] <= 57,
        decreases s.len() - k,
    {
        k = k + 1;
    }
    proof {
        lemma_digit_span_is(s@, k as int);
    }
    k
}

} // verus!
