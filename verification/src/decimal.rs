//! Fixed-width decimal rendering of a 32-bit result.

use vstd::arithmetic::div_mod::{
    lemma_breakdown, lemma_div_denominator, lemma_fundamental_div_mod,
    lemma_fundamental_div_mod_converse,
};
use vstd::prelude::*;

verus! {

/// The ASCII code of the digit zero.
pub const ZERO: u8 = 48;

/// Ten to the power `n`.
pub open spec fn pow10(n: nat) -> nat
    decreases n,
{
    if n == 0 {
        1
    } else {
        10 * pow10((n - 1) as nat)
    }
}

/// The weight of position `i` in the eight-character rendering, most
/// significant first.
pub open spec fn place_value(i: int) -> nat {
    pow10((7 - i) as nat)
}

/// The character that `int_to_chars` stores at position `i`.
///
/// Every position but the first holds the ASCII digit of its decimal place.
/// The first position holds the quotient by ten million, offset by `'0'` and
/// cut down to a byte, which is the digit of that place whenever the value is
/// below one hundred million.
pub open spec fn digit_char(value: u32, i: int) -> u8 {
    if i == 0 {
        (value as nat / place_value(0) + ZERO) as u8
    } else {
        (ZERO + (value as nat / place_value(i)) % 10) as u8
    }
}

/// The eight characters of the fixed-width rendering of `value`.
pub open spec fn digit_chars(value: u32) -> Seq<u8> {
    Seq::new(8, |i: int| digit_char(value, i))
}

/// What is sent of a rendering: leading zeros are suppressed, but the last
/// character is always kept, so that zero is sent as a single `0`. A
/// character below `'0'` is kept and does not end the run of leading zeros.
pub open spec fn significant(chars: Seq<u8>) -> Seq<u8>
    decreases chars.len(),
{
    if chars.len() <= 1 {
        chars
    } else if chars[0] == ZERO {
        significant(chars.drop_first())
    } else if chars[0] > ZERO {
        chars
    } else {
        seq![chars[0]] + significant(chars.drop_first())
    }
}

proof fn lemma_place_values()
    ensures
        place_value(0) == 10_000_000,
        place_value(1) == 1_000_000,
        place_value(2) == 100_000,
        place_value(3) == 10_000,
        place_value(4) == 1_000,
        place_value(5) == 100,
        place_value(6) == 10,
        place_value(7) == 1,
{
    reveal_with_fuel(pow10, 9);
}

proof fn lemma_pow10_positive(n: nat)
    ensures
        pow10(n) > 0,
    decreases n,
{
    if n > 0 {
        lemma_pow10_positive((n - 1) as nat);
    }
}

/// The digit of `v` at the decimal place of weight `p` can be read off the
/// remainder of `v` by `10 * p`, and what is below that place is the same in
/// both.
proof fn lemma_place_digit(v: int, p: int)
    requires
        0 <= v,
        0 < p,
    ensures
        (v % (10 * p)) / p == (v / p) % 10,
        (v % (10 * p)) % p == v % p,
{
    lemma_breakdown(v, p, 10);
    assert(p * 10 == 10 * p);
    let r = v % (10 * p);
    let q = (v / p) % 10;
    let m = v % p;
    assert(p * q == q * p) by (nonlinear_arith);
    lemma_fundamental_div_mod_converse(r, p, q, m);
}

/// One step of the digit walk: what is left of `value` when position `i` is
/// reached yields that position's digit, and taking the digit off leaves what
/// the next position needs.
proof fn lemma_digit_step(value: u32, rest: u32, i: int)
    requires
        0 <= i < 8,
        i == 0 ==> rest == value,
        i > 0 ==> rest == value as nat % (10 * place_value(i)),
    ensures
        place_value(i) > 0,
        (rest as nat / place_value(i)) * place_value(i) <= rest,
        rest as nat / place_value(i) <= 429,
        (rest as nat / place_value(i) + 48) as u8 == digit_char(value, i),
        i < 7 ==> rest - (rest as nat / place_value(i)) * place_value(i) == value as nat % (10
            * place_value(i + 1)),
{
    let p = place_value(i) as int;
    let r = rest as int;
    let v = value as int;
    lemma_pow10_positive((7 - i) as nat);
    lemma_fundamental_div_mod(r, p);
    assert(p * (r / p) == (r / p) * p) by (nonlinear_arith);
    assert(0 <= r % p < p);
    if i == 0 {
        lemma_place_values();
        assert(r % p == v % p);
    } else {
        lemma_place_digit(v, p);
        assert(r / p == (v / p) % 10);
        assert(r % p == v % p);
    }
    if i < 7 {
        assert(p == 10 * place_value(i + 1));
    }
}

/// Renders `value` as eight characters, most significant decimal place first.
pub fn int_to_chars(value: u32) -> (chars: [u8; 8])
    ensures
        chars@ == digit_chars(value),
{
    let powers: [u32; 8] = [10_000_000, 1_000_000, 100_000, 10_000, 1_000, 100, 10, 1];
    let mut chars: [u8; 8] = [0; 8];
    let mut rest: u32 = value;
    let mut i: usize = 0;
    proof {
        lemma_place_values();
    }
    while i < 8
        invariant
            i <= 8,
            forall|k: int| 0 <= k < 8 ==> powers@[k] == place_value(k),
            i == 0 ==> rest == value,
            0 < i < 8 ==> rest == value as nat % (10 * place_value(i as int)),
            forall|k: int| 0 <= k < i ==> chars@[k] == digit_char(value, k),
        decreases 8 - i,
    {
        proof {
            lemma_digit_step(value, rest, i as int);
        }
        let power: u32 = powers[i];
        let digit: u32 = rest / power;
        chars[i] = #[verifier::truncate] ((digit + 48) as u8);
        rest = rest - digit * power;
        i += 1;
    }
    chars
}

/// The decimal digits of `n` as ASCII characters, most significant first and
/// without leading zeros; zero is the single digit `0`.
pub open spec fn decimal_digits(n: nat) -> Seq<u8>
    decreases n,
{
    if n < 10 {
        seq![(ZERO + n) as u8]
    } else {
        decimal_digits(n / 10).push((ZERO + n % 10) as u8)
    }
}

/// The `width` lowest decimal digits of `n` as ASCII characters, most
/// significant first.
pub open spec fn padded_digits(n: nat, width: nat) -> Seq<u8> {
    Seq::new(width, |i: int| (ZERO + (n / pow10((width - 1 - i) as nat)) % 10) as u8)
}

/// A number below `10 * p` has a single digit at the place of weight `p`.
proof fn lemma_leading_digit(n: nat, p: nat)
    requires
        0 < p,
        n < 10 * p,
    ensures
        n / p < 10,
        n < p ==> n / p == 0,
        n >= p ==> n / p >= 1,
{
    lemma_fundamental_div_mod(n as int, p as int);
    let q = n as int / p as int;
    let r = n as int % p as int;
    assert(0 <= r < p);
    assert(q < 10) by (nonlinear_arith)
        requires
            n == p * q + r,
            0 <= r,
            n < 10 * p,
            0 < p,
    ;
    assert(n < p ==> q == 0) by (nonlinear_arith)
        requires
            n == p * q + r,
            0 <= r,
            0 < p,
            0 <= q,
    ;
    assert(n >= p ==> q >= 1) by (nonlinear_arith)
        requires
            n == p * q + r,
            r < p,
            0 < p,
    ;
}

/// The first character of a rendering is the quotient by ten million, offset
/// by `'0'`, modulo 256.
pub proof fn lemma_first_digit_char(value: u32)
    ensures
        digit_char(value, 0) == (value / 10_000_000 + ZERO) % 256,
{
    lemma_place_values();
    let shifted: u32 = (value / 10_000_000 + ZERO) as u32;
    assert(shifted as u8 == shifted % 256) by (bit_vector);
}

/// Below one hundred million the rendering holds the eight lowest digits.
pub proof fn lemma_digit_chars_are_padded(value: u32)
    requires
        value < 100_000_000,
    ensures
        digit_chars(value) == padded_digits(value as nat, 8),
{
    lemma_place_values();
    assert(digit_chars(value) =~= padded_digits(value as nat, 8));
}

/// A number of exactly `width` digits, padded to that width, needs no padding.
proof fn lemma_padded_exact(n: nat, width: nat)
    requires
        width >= 1,
        n < pow10(width),
        width > 1 ==> n >= pow10((width - 1) as nat),
    ensures
        padded_digits(n, width) == decimal_digits(n),
    decreases width,
{
    if width == 1 {
        assert(pow10(1) == 10) by {
            reveal_with_fuel(pow10, 2);
        }
        assert(pow10(0) == 1);
        assert(n / 1 == n);
        assert(padded_digits(n, 1)[0] == (ZERO + n) as u8);
        assert(padded_digits(n, 1) =~= decimal_digits(n));
    } else {
        let lower = (width - 1) as nat;
        assert(pow10(width) == 10 * pow10(lower));
        lemma_pow10_positive(lower);
        assert(pow10(1) == 10) by {
            reveal_with_fuel(pow10, 2);
        }
        assert(n >= 10) by {
            lemma_pow10_monotonic(1, lower);
        }
        assert(n / 10 < pow10(lower));
        if lower > 1 {
            assert(pow10(lower) == 10 * pow10((lower - 1) as nat));
            assert(n / 10 >= pow10((lower - 1) as nat));
        }
        lemma_padded_exact(n / 10, lower);
        let shorter = padded_digits(n / 10, lower);
        let last = (ZERO + n % 10) as u8;
        assert forall|i: int| 0 <= i < width implies padded_digits(n, width)[i] == shorter.push(
            last,
        )[i] by {
            if i < lower {
                let p = pow10((lower - 1 - i) as nat);
                lemma_pow10_positive((lower - 1 - i) as nat);
                assert(pow10((width - 1 - i) as nat) == 10 * p);
                lemma_div_denominator(n as int, 10, p as int);
                assert((n / 10) / p == n / (10 * p));
                assert(shorter[i] == (ZERO + ((n / 10) / p) % 10) as u8);
            } else {
                assert(pow10(0) == 1);
                assert(n / 1 == n);
            }
        }
        assert(padded_digits(n, width) =~= shorter.push(last));
    }
}

/// Larger exponents give larger powers of ten.
pub proof fn lemma_pow10_monotonic(a: nat, b: nat)
    requires
        a <= b,
    ensures
        pow10(a) <= pow10(b),
    decreases b,
{
    if a < b {
        lemma_pow10_monotonic(a, (b - 1) as nat);
        lemma_pow10_positive((b - 1) as nat);
    }
}

/// Suppressing the leading zeros of a padded number leaves its decimal digits.
proof fn lemma_significant_of_padded(n: nat, width: nat)
    requires
        width >= 1,
        n < pow10(width),
    ensures
        significant(padded_digits(n, width)) == decimal_digits(n),
    decreases width,
{
    let chars = padded_digits(n, width);
    if width == 1 {
        lemma_padded_exact(n, 1);
    } else {
        let lower = (width - 1) as nat;
        lemma_pow10_positive(lower);
        assert(pow10(width) == 10 * pow10(lower));
        lemma_leading_digit(n, pow10(lower));
        assert(chars[0] == (ZERO + (n / pow10(lower)) % 10) as u8);
        if n < pow10(lower) {
            assert(chars[0] == ZERO);
            assert(chars.drop_first() =~= padded_digits(n, lower));
            lemma_significant_of_padded(n, lower);
        } else {
            assert(chars[0] > ZERO);
            lemma_padded_exact(n, width);
        }
    }
}

/// Below one hundred million, what is sent of the rendering of a value is the
/// value in decimal without leading zeros.
pub proof fn lemma_significant_is_decimal(value: u32)
    requires
        value < 100_000_000,
    ensures
        significant(digit_chars(value)) == decimal_digits(value as nat),
{
    lemma_digit_chars_are_padded(value);
    assert(pow10(8) == 100_000_000) by {
        reveal_with_fuel(pow10, 9);
    }
    lemma_significant_of_padded(value as nat, 8);
}

} // verus!
