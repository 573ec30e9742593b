//! Positional notation in ASCII digits, for bases two to ten.
//!
//! Object headers carry the payload size in decimal and tree entries carry the
//! file mode in octal; both directions (writing and reading) are specified
//! here over one pair of spec functions, [`radix_digits`] and [`radix_value`].

use vstd::prelude::*;
use vstd::arithmetic::div_mod::{
    lemma_div_decreases, lemma_div_pos_is_pos, lemma_fundamental_div_mod, lemma_mod_bound,
    lemma_small_mod,
};

verus! {

/// The ASCII digit that stands for `d`.
pub open spec fn digit_byte(d: nat) -> u8
    recommends
        d < 10,
{
    (48 + d) as u8
}

/// `b` is an ASCII digit of the given base.
pub open spec fn is_digit(b: u8, base: nat) -> bool {
    48 <= b < 48 + base
}

/// Every byte of `s` is a digit of the given base.
pub open spec fn all_digits(s: Seq<u8>, base: nat) -> bool {
    forall|i: int| 0 <= i < s.len() ==> is_digit(#[trigger] s[i], base)
}

/// `n` written in the given base, most significant digit first, without
/// leading zeros; zero is the single digit `0`.
pub open spec fn radix_digits(n: nat, base: nat) -> Seq<u8>
    recommends
        2 <= base <= 10,
    decreases n,
    via radix_digits_decreases
{
    if n < base || base < 2 {
        seq![digit_byte(n)]
    } else {
        radix_digits(n / base, base).push(digit_byte(n % base))
    }
}

#[via_fn]
proof fn radix_digits_decreases(n: nat, base: nat) {
    if !(n < base || base < 2) {
        lemma_div_decreases(n as int, base as int);
        lemma_div_pos_is_pos(n as int, base as int);
    }
}

/// The number that a digit string stands for in the given base. Leading zeros
/// are allowed; the empty string stands for zero.
pub open spec fn radix_value(s: Seq<u8>, base: nat) -> nat
    decreases s.len(),
{
    if s.len() == 0 {
        0
    } else {
        radix_value(s.drop_last(), base) * base + (s.last() - 48) as nat
    }
}

/// Appends `n` in the given base to `out`.
pub fn write_radix(n: u64, base: u64, out: &mut Vec<u8>)
    requires
        2 <= base <= 10,
    ensures
        final(out)@ == old(out)@ + radix_digits(n as nat, base as nat),
    decreases n,
{
    if n >= base {
        proof {
            lemma_div_decreases(n as int, base as int);
        }
        write_radix(n / base, base, out);
    }
    proof {
        lemma_mod_bound(n as int, base as int);
    }
    let d: u8 = (n % base) as u8;
    out.push(48u8 + d);
    proof {
        let head = radix_digits((n / base) as nat, base as nat);
        if n >= base {
            assert(out@ == (old(out)@ + head).push(digit_byte((n % base) as nat)));
            assert(out@ == old(out)@ + head.push(digit_byte((n % base) as nat)));
            assert(radix_digits(n as nat, base as nat) == head.push(digit_byte((n % base) as nat)));
        } else {
            lemma_small_mod(n as nat, base as nat);
            assert(out@ == old(out)@ + seq![digit_byte(n as nat)]);
        }
    }
}

/// What [`parse_radix`] returns: the value of a non-empty digit string that
/// does not exceed `limit`, and nothing for any other input.
pub open spec fn radix_parse(s: Seq<u8>, base: nat, limit: nat) -> Option<u64> {
    if s.len() > 0 && all_digits(s, base) && radix_value(s, base) <= limit {
        Some(radix_value(s, base) as u64)
    } else {
        None
    }
}

/// A prefix of a digit string stands for no more than the whole string.
pub proof fn lemma_radix_value_prefix(s: Seq<u8>, k: int, base: nat)
    requires
        1 <= base,
        all_digits(s, base),
        0 <= k <= s.len(),
    ensures
        radix_value(s.take(k), base) <= radix_value(s, base),
    decreases s.len(),
{
    if k == s.len() {
        assert(s.take(k) == s);
    } else {
        let init = s.drop_last();
        assert(init.take(k) == s.take(k));
        lemma_radix_value_prefix(init, k, base);
        assert(radix_value(init, base) * base >= radix_value(init, base)) by (nonlinear_arith)
            requires
                1 <= base,
        ;
    }
}

/// Writing a number and reading the digits back gives the number.
pub proof fn lemma_radix_round_trip(n: nat, base: nat)
    requires
        2 <= base <= 10,
    ensures
        radix_digits(n, base).len() > 0,
        all_digits(radix_digits(n, base), base),
        radix_value(radix_digits(n, base), base) == n,
    decreases n,
{
    let s = radix_digits(n, base);
    if n < base {
        assert(s.drop_last() == Seq::<u8>::empty());
        assert(radix_value(s.drop_last(), base) * base == 0) by (nonlinear_arith)
            requires
                radix_value(s.drop_last(), base) == 0,
        ;
    } else {
        lemma_div_decreases(n as int, base as int);
        lemma_div_pos_is_pos(n as int, base as int);
        lemma_mod_bound(n as int, base as int);
        lemma_fundamental_div_mod(n as int, base as int);
        let head = radix_digits(n / base, base);
        lemma_radix_round_trip(n / base, base);
        assert(s.drop_last() == head);
        assert(radix_value(head, base) * base == base * (n / base)) by (nonlinear_arith)
            requires
                radix_value(head, base) == n / base,
        ;
    }
}

/// Reads a number from ASCII digits of the given base. Returns `None` when
/// `s` is empty, holds a byte that is no digit of the base, or stands for more
/// than `limit`.
pub fn parse_radix(s: &[u8], base: u64, limit: u64) -> (r: Option<u64>)
    requires
        2 <= base <= 10,
    ensures
        r == radix_parse(s@, base as nat, limit as nat),
{
    if s.len() == 0 {
        return None;
    }
    let mut acc: u64 = 0;
    let mut i: usize = 0;
    while i < s.len()
        invariant
            2 <= base <= 10,
            0 <= i <= s.len(),
            all_digits(s@.take(i as int), base as nat),
            acc == radix_value(s@.take(i as int), base as nat),
            acc <= limit,
        decreases s.len() - i,
    {
        let b: u8 = s[i];
        if b < 48 || (b - 48) as u64 >= base {
            return None;
        }
        let d: u64 = (b - 48) as u64;
        proof {
            let next = s@.take(i + 1);
            assert(next.drop_last() == s@.take(i as int));
            assert(next.last() == b);
            assert forall|j: int| 0 <= j < next.len() implies is_digit(#[trigger] next[j], base as nat) by {
                if j < i {
                    assert(next[j] == s@.take(i as int)[j]);
                }
            }
            assert(acc * base <= 0xffff_ffff_ffff_ffff * 10) by (nonlinear_arith)
                requires
                    acc <= 0xffff_ffff_ffff_ffff,
                    base <= 10,
            ;
        }
        let wide: u128 = (acc as u128) * (base as u128) + (d as u128);
        if wide > limit as u128 {
            proof {
                if all_digits(s@, base as nat) {
                    lemma_radix_value_prefix(s@, i + 1, base as nat);
                }
            }
            return None;
        }
        acc = wide as u64;
        i = i + 1;
    }
    proof {
        assert(s@.take(i as int) == s@);
    }
    Some(acc)
}

} // verus!
