//! Decimal digit strings: the value a run of ASCII digits denotes, the
//! canonical decimal rendering of an integer, and the facts that tie the two
//! together (most importantly, that renderings are injective: distinct
//! process counts can never produce the same unit name).

use vstd::prelude::*;

verus! {

/// ASCII decimal digit.
pub open spec fn is_digit(b: u8) -> bool {
    48 <= b <= 57
}

/// The number an ASCII digit byte stands for.
pub open spec fn digit_value(b: u8) -> nat {
    (b - 48) as nat
}

/// The ASCII byte for a single decimal digit.
pub open spec fn digit_byte(d: nat) -> u8 {
    (48 + d) as u8
}

/// The value denoted by a run of ASCII digits, most significant first.
/// (Leading zeros are allowed and do not change the value.)
pub open spec fn digits_value(s: Seq<u8>) -> nat
    decreases s.len(),
{
    if s.len() == 0 {
        0
    } else {
        digits_value(s.drop_last()) * 10 + digit_value(s.last())
    }
}

/// The index of the first non-digit byte at or after `i`: the end of the
/// digit run starting at `i`.
pub open spec fn num_end(s: Seq<u8>, i: int) -> int
    decreases s.len() - i,
{
    if 0 <= i < s.len() && is_digit(s[i]) {
        num_end(s, i + 1)
    } else {
        i
    }
}

pub proof fn lemma_num_end(s: Seq<u8>, i: int)
    requires
        0 <= i <= s.len(),
    ensures
        i <= num_end(s, i) <= s.len(),
        forall|k: int| i <= k < num_end(s, i) ==> is_digit(#[trigger] s[k]),
        num_end(s, i) == s.len() || !is_digit(s[num_end(s, i)]),
        i < s.len() && is_digit(s[i]) ==> num_end(s, i) >= i + 1,
    decreases s.len() - i,
{
    if i < s.len() && is_digit(s[i]) {
        lemma_num_end(s, i + 1);
    }
}

/// The canonical decimal rendering of `n`: no leading zeros, except that 0
/// itself renders as "0".
pub open spec fn spec_decimal(n: nat) -> Seq<u8>
    decreases n,
{
    if n < 10 {
        seq![digit_byte(n)]
    } else {
        spec_decimal(n / 10).push(digit_byte(n % 10))
    }
}

/// A decimal rendering is never empty and consists of digit bytes only.
pub proof fn lemma_decimal_digits(n: nat)
    ensures
        spec_decimal(n).len() >= 1,
        forall|i: int| 0 <= i < spec_decimal(n).len() ==> is_digit(#[trigger] spec_decimal(n)[i]),
    decreases n,
{
    if n < 10 {
    } else {
        lemma_decimal_digits(n / 10);
        assert(forall|i: int|
            0 <= i < spec_decimal(n / 10).len() ==> #[trigger] spec_decimal(n)[i]
                == spec_decimal(n / 10)[i]);
    }
}

/// Reading a decimal rendering back yields the rendered value.
pub proof fn lemma_decimal_round_trip(n: nat)
    ensures
        digits_value(spec_decimal(n)) == n,
    decreases n,
{
    if n < 10 {
        assert(spec_decimal(n).len() == 1);
        assert(spec_decimal(n).drop_last() =~= Seq::<u8>::empty());
        assert(digits_value(Seq::<u8>::empty()) == 0);
        assert(spec_decimal(n).last() == digit_byte(n));
        assert(digit_value(digit_byte(n)) == n);
        assert(digits_value(spec_decimal(n)) == 0 * 10 + n);
    } else {
        lemma_decimal_round_trip(n / 10);
        assert(spec_decimal(n).len() == spec_decimal(n / 10).len() + 1);
        assert(spec_decimal(n).drop_last() =~= spec_decimal(n / 10));
        assert(spec_decimal(n).last() == digit_byte(n % 10));
        assert(digit_value(digit_byte(n % 10)) == n % 10);
        assert(digits_value(spec_decimal(n)) == (n / 10) * 10 + n % 10);
        assert((n / 10) * 10 + n % 10 == n);
    }
}

/// A run made of digits only is scanned to its end.
pub proof fn lemma_num_end_digits(s: Seq<u8>, i: int)
    requires
        0 <= i <= s.len(),
        forall|k: int| i <= k < s.len() ==> is_digit(#[trigger] s[k]),
    ensures
        num_end(s, i) == s.len(),
    decreases s.len() - i,
{
    if i < s.len() {
        lemma_num_end_digits(s, i + 1);
    }
}

/// Distinct integers have distinct decimal renderings.
pub proof fn lemma_decimal_injective(a: nat, b: nat)
    requires
        spec_decimal(a) == spec_decimal(b),
    ensures
        a == b,
    decreases a + b,
{
    lemma_decimal_digits(a);
    lemma_decimal_digits(b);
    if a < 10 && b < 10 {
        assert(spec_decimal(a)[0] == digit_byte(a));
        assert(spec_decimal(b)[0] == digit_byte(b));
    } else if a < 10 {
        assert(spec_decimal(a).len() == 1);
        assert(spec_decimal(b).len() == spec_decimal(b / 10).len() + 1);
    } else if b < 10 {
        assert(spec_decimal(b).len() == 1);
        assert(spec_decimal(a).len() == spec_decimal(a / 10).len() + 1);
    } else {
        assert(spec_decimal(a).last() == digit_byte(a % 10));
        assert(spec_decimal(b).last() == digit_byte(b % 10));
        assert(a % 10 == b % 10);
        assert(spec_decimal(a).drop_last() =~= spec_decimal(a / 10));
        assert(spec_decimal(b).drop_last() =~= spec_decimal(b / 10));
        lemma_decimal_injective(a / 10, b / 10);
        assert(a == (a / 10) * 10 + a % 10);
        assert(b == (b / 10) * 10 + b % 10);
    }
}

/// Renders `n` in decimal, most significant digit first.
pub fn u32_decimal(n: u32) -> (r: Vec<u8>)
    ensures
        r@ == spec_decimal(n as nat),
    decreases n,
{
    if n < 10 {
        let mut r: Vec<u8> = Vec::new();
        r.push(48 + n as u8);
        proof {
            assert(r@ =~= spec_decimal(n as nat));
        }
        r
    } else {
        let mut r = u32_decimal(n / 10);
        r.push(48 + (n % 10) as u8);
        proof {
            assert(r@ =~= spec_decimal(n as nat));
        }
        r
    }
}

} // verus!
