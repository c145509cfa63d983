//! Widening of integers to binary64: the bit pattern of the floating-point
//! value nearest to an integer, ties going to the even significand.
use vstd::arithmetic::div_mod::lemma_fundamental_div_mod;
use vstd::arithmetic::div_mod::lemma_multiply_divide_lt;
use vstd::arithmetic::mul::lemma_mul_inequality;
use vstd::arithmetic::mul::lemma_mul_strict_inequality;
use vstd::arithmetic::power2::lemma2_to64;
use vstd::arithmetic::power2::lemma2_to64_rest;
use vstd::arithmetic::power2::lemma_pow2_adds;
use vstd::arithmetic::power2::lemma_pow2_pos;
use vstd::arithmetic::power2::lemma_pow2_strictly_increases;
use vstd::arithmetic::power2::lemma_pow2_unfold;
use vstd::arithmetic::power2::pow2;
use vstd::prelude::*;

verus! {

/// The position of the highest set bit of a positive number.
pub open spec fn top_bit(n: nat) -> nat
    decreases n,
{
    if n <= 1 {
        0
    } else {
        1 + top_bit(n / 2)
    }
}

/// `n` in units of `unit`, rounded to the nearest whole number of units; a
/// number half-way between two goes to the even one.
pub open spec fn round_half_even(n: nat, unit: nat) -> nat {
    let quotient = n / unit;
    let rest = n % unit;
    if 2 * rest > unit || (2 * rest == unit && quotient % 2 == 1) {
        quotient + 1
    } else {
        quotient
    }
}

/// The bit pattern of the binary64 value nearest to `n`, for `n` below two to
/// the 64: zero for zero, and else the exponent of the highest set bit, biased
/// by 1023, above a significand of 53 bits whose leading bit is left out. A
/// significand that rounds up to two to the 53 carries into the exponent.
pub open spec fn nearest_binary64(n: nat) -> nat {
    if n == 0 {
        0
    } else {
        let exponent = top_bit(n);
        let significand = if exponent <= 52 {
            n * pow2((52 - exponent) as nat)
        } else {
            round_half_even(n, pow2((exponent - 52) as nat))
        };
        (1022 + exponent) * pow2(52) + significand
    }
}

/// The bit pattern of the binary64 value nearest to the integer `i`, for a
/// magnitude of at most two to the 63: that of the magnitude, under the sign
/// bit where `i` is negative.
pub open spec fn nearest_binary64_signed(i: int) -> nat {
    if i < 0 {
        pow2(63) + nearest_binary64((-i) as nat)
    } else {
        nearest_binary64(i as nat)
    }
}

/// A positive number lies between the power of two of its highest set bit and
/// the next power of two.
pub proof fn lemma_top_bit(n: nat)
    requires
        n > 0,
    ensures
        pow2(top_bit(n)) <= n < pow2(top_bit(n) + 1),
    decreases n,
{
    lemma2_to64();
    if n > 1 {
        lemma_top_bit(n / 2);
        lemma_pow2_unfold(top_bit(n));
        lemma_pow2_unfold(top_bit(n) + 1);
    }
}

/// A number below a power of two has its highest set bit below that power.
pub proof fn lemma_top_bit_bound(n: nat, limit: nat)
    requires
        0 < n < pow2(limit),
    ensures
        top_bit(n) < limit,
{
    lemma_top_bit(n);
    if top_bit(n) >= limit {
        if top_bit(n) > limit {
            lemma_pow2_strictly_increases(limit, top_bit(n));
        }
    }
}

/// Rounding to units moves a number by at most half a unit, and by exactly
/// half a unit only onto an even number of units.
pub proof fn lemma_round_half_even(n: nat, unit: nat)
    requires
        unit > 0,
    ensures
        ({
            let rounded = round_half_even(n, unit) * unit;
            &&& 2 * (rounded - n) <= unit
            &&& 2 * (n - rounded) <= unit
            &&& (2 * (rounded - n) == unit || 2 * (n - rounded) == unit) ==> round_half_even(
                n,
                unit,
            ) % 2 == 0
        }),
{
    let quotient = n / unit;
    let rest = n % unit;
    lemma_fundamental_div_mod(n as int, unit as int);
    assert((quotient + 1) * unit == quotient * unit + unit) by (nonlinear_arith);
    assert(quotient * unit == unit * quotient) by (nonlinear_arith);
}

/// A number whose highest set bit is below position 53 is widened without
/// rounding: the significand is the number itself, moved up to 53 bits.
pub proof fn lemma_small_is_exact(n: nat)
    requires
        0 < n < pow2(53),
    ensures
        nearest_binary64(n) == (1022 + top_bit(n)) * pow2(52) + n * pow2((52 - top_bit(n)) as nat),
        pow2(52) <= n * pow2((52 - top_bit(n)) as nat) < pow2(53),
{
    lemma_top_bit_bound(n, 53);
    lemma_top_bit(n);
    let exponent = top_bit(n);
    let scale = pow2((52 - exponent) as nat);
    lemma_pow2_pos((52 - exponent) as nat);
    lemma_pow2_adds(exponent, (52 - exponent) as nat);
    lemma_pow2_adds(exponent + 1, (52 - exponent) as nat);
    lemma_mul_inequality(pow2(exponent) as int, n as int, scale as int);
    lemma_mul_strict_inequality(n as int, pow2(exponent + 1) as int, scale as int);
}

/// Two to the `exponent`.
pub fn power_of_two(exponent: u64) -> (power: u64)
    requires
        exponent <= 63,
    ensures
        power == pow2(exponent as nat),
{
    let mut power: u64 = 1;
    let mut i: u64 = 0;
    proof {
        lemma2_to64();
    }
    while i < exponent
        invariant
            i <= exponent <= 63,
            power == pow2(i as nat),
        decreases exponent - i,
    {
        proof {
            lemma_pow2_unfold((i + 1) as nat);
            lemma2_to64_rest();
            if i + 1 < 63 {
                lemma_pow2_strictly_increases((i + 1) as nat, 63);
            }
        }
        power = power * 2;
        i += 1;
    }
    power
}

/// The position of the highest set bit of a positive number.
pub fn highest_bit(n: u64) -> (position: u64)
    requires
        n > 0,
    ensures
        position == top_bit(n as nat),
        position <= 63,
{
    proof {
        lemma2_to64_rest();
        lemma_top_bit_bound(n as nat, 64);
    }
    let mut position: u64 = 0;
    let mut rest: u64 = n;
    while rest > 1
        invariant
            rest >= 1,
            top_bit(n as nat) == position + top_bit(rest as nat),
            top_bit(n as nat) <= 63,
        decreases rest,
    {
        rest = rest / 2;
        position += 1;
    }
    position
}

/// The bit pattern of the binary64 value nearest to an unsigned integer.
pub fn widen_unsigned(n: u64) -> (bits: u64)
    ensures
        bits == nearest_binary64(n as nat),
        bits < pow2(63),
{
    proof {
        lemma2_to64();
        lemma2_to64_rest();
    }
    if n == 0 {
        return 0;
    }
    let exponent = highest_bit(n);
    proof {
        lemma_top_bit(n as nat);
    }
    let base: u64 = (1022 + exponent) * 0x10_0000_0000_0000;
    let significand: u64 = if exponent <= 52 {
        let scale = power_of_two(52 - exponent);
        proof {
            lemma_pow2_adds((exponent + 1) as nat, (52 - exponent) as nat);
            lemma_pow2_pos((52 - exponent) as nat);
            lemma_mul_strict_inequality(
                n as int,
                pow2((exponent + 1) as nat) as int,
                scale as int,
            );
        }
        n * scale
    } else {
        let unit = power_of_two(exponent - 52);
        proof {
            lemma_pow2_adds((exponent - 52) as nat, 53);
            lemma_pow2_pos((exponent - 52) as nat);
            lemma_multiply_divide_lt(n as int, unit as int, pow2(53) as int);
            lemma_pow2_strictly_increases((exponent - 52) as nat, 12);
        }
        let quotient = n / unit;
        let rest = n % unit;
        if 2 * rest > unit || (2 * rest == unit && quotient % 2 == 1) {
            quotient + 1
        } else {
            quotient
        }
    };
    base + significand
}

/// The bit pattern of the binary64 value nearest to a signed integer.
pub fn widen_signed(i: i64) -> (bits: u64)
    ensures
        bits == nearest_binary64_signed(i as int),
{
    proof {
        lemma2_to64_rest();
    }
    if i < 0 {
        let magnitude: u64 = ((-(i + 1)) as u64) + 1;
        0x8000_0000_0000_0000 + widen_unsigned(magnitude)
    } else {
        widen_unsigned(i as u64)
    }
}

} // verus!
