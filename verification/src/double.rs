//! Double-precision numbers as bit patterns (IEEE 754 binary64), computed on
//! with integers alone.
//!
//! Every finite double is an integer multiple of `2^-1074`. The model of a bit
//! pattern is that integer, so comparing two doubles is comparing two integers.

use vstd::arithmetic::power2::{
    lemma2_to64, lemma2_to64_rest, lemma_pow2_adds, lemma_pow2_pos, lemma_pow2_strictly_increases,
    lemma_pow2_unfold, pow2,
};
use vstd::prelude::*;

verus! {

/// The number of fraction patterns: `2^52`.
pub const FRACTIONS: u64 = 0x10_0000_0000_0000;

/// The sign bit: `2^63`.
pub const SIGN: u64 = 0x8000_0000_0000_0000;

/// The bit pattern of the number one.
pub const ONE: u64 = 0x3ff0_0000_0000_0000;

/// The biased exponent.
pub open spec fn exponent(bits: u64) -> nat {
    ((bits / FRACTIONS) % 2048) as nat
}

/// The fraction below the leading one.
pub open spec fn fraction(bits: u64) -> nat {
    (bits % FRACTIONS) as nat
}

/// Whether the pattern is not a number.
pub open spec fn is_nan(bits: u64) -> bool {
    exponent(bits) == 2047 && fraction(bits) != 0
}

/// Whether the pattern is a finite number.
pub open spec fn is_finite(bits: u64) -> bool {
    exponent(bits) < 2047
}

/// The absolute value, in units of `2^-1074`. An infinity lies above every
/// finite number.
pub open spec fn magnitude(bits: u64) -> nat {
    if exponent(bits) == 0 {
        fraction(bits)
    } else {
        (FRACTIONS as nat + fraction(bits)) * pow2((exponent(bits) - 1) as nat)
    }
}

/// The number, in units of `2^-1074`.
pub open spec fn scaled(bits: u64) -> int {
    if bits < SIGN {
        magnitude(bits) as int
    } else {
        -(magnitude(bits) as int)
    }
}

/// One, in the units of [`scaled`].
pub open spec fn unit() -> nat {
    pow2(1074)
}

/// Whether the two numbers are equal. Nothing equals a pattern that is not a
/// number; the two zeros are equal.
pub open spec fn num_eq(a: u64, b: u64) -> bool {
    !is_nan(a) && !is_nan(b) && scaled(a) == scaled(b)
}

/// Whether the first number is the smaller one. Patterns that are not numbers
/// are in no order.
pub open spec fn num_lt(a: u64, b: u64) -> bool {
    !is_nan(a) && !is_nan(b) && scaled(a) < scaled(b)
}

/// The integer that the number is, where it is an integer of absolute value
/// below `2^63`.
pub open spec fn whole(bits: u64) -> Option<i64> {
    if !is_nan(bits) && scaled(bits) % (unit() as int) == 0 && magnitude(bits) < SIGN * unit() {
        Some((scaled(bits) / (unit() as int)) as i64)
    } else {
        None
    }
}

proof fn lemma_mul_strict(a: nat, b: nat, p: nat)
    by (nonlinear_arith)
    requires
        a < b,
        p > 0,
    ensures
        a * p < b * p,
{
}

proof fn lemma_mul_le(a: nat, p: nat, q: nat)
    by (nonlinear_arith)
    requires
        p <= q,
    ensures
        a * p <= a * q,
{
}

/// Without the sign bit, a larger pattern has a larger absolute value.
pub proof fn law_magnitude_monotone(a: u64, b: u64)
    requires
        a % SIGN < b % SIGN,
    ensures
        magnitude(a) < magnitude(b),
{
    let ea = exponent(a);
    let eb = exponent(b);
    let fa = fraction(a);
    let fb = fraction(b);
    let f = FRACTIONS as nat;
    assert(a % SIGN == ea * FRACTIONS + fa);
    assert(b % SIGN == eb * FRACTIONS + fb);
    if ea == eb {
        if ea > 0 {
            lemma_pow2_pos((ea - 1) as nat);
            lemma_mul_strict(f + fa, f + fb, pow2((ea - 1) as nat));
        }
    } else {
        assert(ea < eb);
        lemma_pow2_pos((eb - 1) as nat);
        assert(f * pow2((eb - 1) as nat) <= (f + fb) * pow2((eb - 1) as nat)) by (nonlinear_arith);
        if ea == 0 {
            assert(f <= f * pow2((eb - 1) as nat)) by (nonlinear_arith)
                requires
                    pow2((eb - 1) as nat) > 0,
            ;
        } else {
            let p = pow2((ea - 1) as nat);
            lemma_pow2_pos((ea - 1) as nat);
            lemma_mul_strict(f + fa, 2 * f, p);
            lemma_pow2_unfold(ea);
            assert((2 * f) * p == f * pow2(ea)) by (nonlinear_arith)
                requires
                    pow2(ea) == 2 * p,
            ;
            if ea < eb - 1 {
                lemma_pow2_strictly_increases(ea, (eb - 1) as nat);
            }
            lemma_mul_le(f, pow2(ea), pow2((eb - 1) as nat));
        }
    }
}

/// The sign bit does not change the absolute value.
proof fn lemma_magnitude_low(a: u64, b: u64)
    requires
        a % SIGN == b % SIGN,
    ensures
        magnitude(a) == magnitude(b),
{
    assert(exponent(a) == exponent(b));
    assert(fraction(a) == fraction(b));
}

proof fn lemma_magnitude_zero(a: u64)
    ensures
        magnitude(a) == 0 <==> a % SIGN == 0,
{
    if a % SIGN == 0 {
        lemma_magnitude_low(a, 0);
    } else {
        law_magnitude_monotone(0, a);
    }
}

/// The exponent field of a pattern.
fn exponent_of(bits: u64) -> (e: u64)
    ensures
        e == exponent(bits),
{
    (bits / FRACTIONS) % 2048
}

/// Whether the pattern is not a number.
pub fn double_is_nan(bits: u64) -> (nan: bool)
    ensures
        nan == is_nan(bits),
{
    exponent_of(bits) == 2047 && bits % FRACTIONS != 0
}

/// Whether the two numbers are equal.
pub fn double_eq(a: u64, b: u64) -> (equal: bool)
    ensures
        equal == num_eq(a, b),
{
    proof {
        lemma_magnitude_zero(a);
        lemma_magnitude_zero(b);
        if a % SIGN < b % SIGN {
            law_magnitude_monotone(a, b);
        } else if b % SIGN < a % SIGN {
            law_magnitude_monotone(b, a);
        } else {
            lemma_magnitude_low(a, b);
        }
    }
    if double_is_nan(a) || double_is_nan(b) {
        return false;
    }
    a == b || (a % SIGN == 0 && b % SIGN == 0)
}

/// Whether the first number is the smaller one.
pub fn double_lt(a: u64, b: u64) -> (less: bool)
    ensures
        less == num_lt(a, b),
{
    proof {
        lemma_magnitude_zero(a);
        lemma_magnitude_zero(b);
        if a % SIGN < b % SIGN {
            law_magnitude_monotone(a, b);
        } else if b % SIGN < a % SIGN {
            law_magnitude_monotone(b, a);
        } else {
            lemma_magnitude_low(a, b);
        }
    }
    if double_is_nan(a) || double_is_nan(b) {
        return false;
    }
    let low_a: u64 = a % SIGN;
    let low_b: u64 = b % SIGN;
    if a < SIGN {
        b < SIGN && low_a < low_b
    } else if b < SIGN {
        low_a != 0 || low_b != 0
    } else {
        low_b < low_a
    }
}

/// Comparing numbers is an order: of two numbers exactly one holds of smaller,
/// equal and larger, and smaller numbers than a smaller number are smaller. A
/// pattern that is not a number compares to nothing, not even to itself.
pub proof fn law_numbers_ordered(a: u64, b: u64, c: u64)
    ensures
        !is_nan(a) && !is_nan(b) ==> (num_lt(a, b) || num_eq(a, b) || num_lt(b, a)),
        !(num_lt(a, b) && num_lt(b, a)),
        !(num_lt(a, b) && num_eq(a, b)),
        num_eq(a, b) == num_eq(b, a),
        num_lt(a, b) && num_lt(b, c) ==> num_lt(a, c),
        num_eq(a, b) && num_eq(b, c) ==> num_eq(a, c),
        is_nan(a) ==> !num_eq(a, a) && !num_lt(a, b) && !num_lt(b, a),
{
}

/// A power of two that fits in 64 bits.
fn power_of_two(k: u64) -> (p: u64)
    requires
        k < 64,
    ensures
        p == pow2(k as nat),
        p > 0,
{
    let mut p: u64 = 1;
    let mut i: u64 = 0;
    proof {
        lemma2_to64();
        lemma2_to64_rest();
    }
    while i < k
        invariant
            i <= k < 64,
            p == pow2(i as nat),
            p > 0,
            pow2(63) == SIGN,
        decreases k - i,
    {
        proof {
            lemma_pow2_unfold((i + 1) as nat);
            if i + 1 < 63 {
                lemma_pow2_strictly_increases((i + 1) as nat, 63);
            }
        }
        p = p * 2;
        i = i + 1;
    }
    p
}

/// Multiplying out the unit: a significand with an exponent of 1075 or more is
/// an integer.
proof fn lemma_whole_large(sig: nat, e: nat)
    requires
        e >= 1075,
    ensures
        sig * pow2((e - 1) as nat) == (sig * pow2((e - 1075) as nat)) * unit(),
{
    lemma_pow2_adds((e - 1075) as nat, 1074);
    let a = pow2((e - 1075) as nat);
    let u = unit();
    assert(sig * (a * u) == (sig * a) * u) by (nonlinear_arith);
}

/// A significand with a smaller exponent is an integer where the bits below the
/// point are zero.
proof fn lemma_whole_small(sig: nat, e: nat)
    requires
        1 <= e < 1075,
    ensures
        ({
            let p = pow2((1075 - e) as nat);
            let mag = sig * pow2((e - 1) as nat);
            &&& p > 0
            &&& unit() > 0
            &&& (mag % unit() == 0 <==> sig % p == 0)
            &&& sig % p == 0 ==> mag == (sig / p) * unit()
        }),
{
    let p = pow2((1075 - e) as nat);
    let q = pow2((e - 1) as nat);
    let u = unit();
    lemma_pow2_adds((1075 - e) as nat, (e - 1) as nat);
    lemma_pow2_pos((1075 - e) as nat);
    lemma_pow2_pos((e - 1) as nat);
    lemma_pow2_pos(1074);
    let d = sig / p;
    let r = sig % p;
    assert(sig == p * d + r && 0 <= r < p) by {
        vstd::arithmetic::div_mod::lemma_fundamental_div_mod(sig as int, p as int);
    }
    assert((p * d + r) * q == d * (p * q) + r * q) by (nonlinear_arith);
    assert(0 <= r * q < p * q) by (nonlinear_arith)
        requires
            0 <= r < p,
            q > 0,
    ;
    assert(r * q == 0 <==> r == 0) by (nonlinear_arith)
        requires
            q > 0,
            r >= 0,
    ;
    let mag = sig * q;
    assert(mag == d * u + r * q);
    vstd::arithmetic::div_mod::lemma_fundamental_div_mod_converse(
        mag as int,
        u as int,
        d as int,
        (r * q) as int,
    );
}

/// An integer with a sign, multiplied by the unit and divided by it again.
proof fn lemma_unit_divides(n: int)
    ensures
        unit() > 0,
        (n * unit()) % (unit() as int) == 0,
        (n * unit()) / (unit() as int) == n,
{
    lemma_pow2_pos(1074);
    vstd::arithmetic::div_mod::lemma_fundamental_div_mod_converse(
        n * unit(),
        unit() as int,
        n,
        0,
    );
}

/// A number is divisible by the unit where its absolute value is.
proof fn lemma_sign_divides(mag: nat)
    ensures
        (-(mag as int)) % (unit() as int) == 0 <==> mag % unit() == 0,
{
    let u = unit() as int;
    lemma_pow2_pos(1074);
    let d = (mag as int) / u;
    let r = (mag as int) % u;
    vstd::arithmetic::div_mod::lemma_fundamental_div_mod(mag as int, u);
    if r == 0 {
        assert(-(u * d) == u * (-d) + 0) by (nonlinear_arith);
        assert(u * (-d) == (-d) * u) by (nonlinear_arith);
        vstd::arithmetic::div_mod::lemma_fundamental_div_mod_converse(-(mag as int), u, -d, 0);
    } else {
        assert(-(u * d + r) == (-d - 1) * u + (u - r)) by (nonlinear_arith);
        vstd::arithmetic::div_mod::lemma_fundamental_div_mod_converse(
            -(mag as int),
            u,
            -d - 1,
            u - r,
        );
    }
}

/// The integer that the number is, where it is an integer of absolute value
/// below `2^63`.
pub fn double_whole(bits: u64) -> (n: Option<i64>)
    ensures
        n == whole(bits),
{
    let e: u64 = exponent_of(bits);
    let fraction: u64 = bits % FRACTIONS;
    let ghost mag = magnitude(bits);
    proof {
        lemma_pow2_pos(1074);
        lemma2_to64();
        lemma2_to64_rest();
        lemma_sign_divides(mag);
    }
    if e >= 1086 {
        // At least 2^63, or not a number.
        proof {
            lemma_pow2_adds((e - 1086) as nat, 1085);
            lemma_pow2_adds(11, 1074);
            lemma_pow2_pos((e - 1086) as nat);
            let sig = (FRACTIONS + fraction) as nat;
            let q = pow2((e - 1) as nat);
            let a = pow2((e - 1086) as nat);
            let u = unit();
            assert(mag == sig * q);
            assert(q == a * (2048 * u));
            assert(sig * (a * (2048 * u)) >= FRACTIONS * (2048 * u)) by (nonlinear_arith)
                requires
                    sig >= FRACTIONS,
                    a >= 1,
                    u >= 0,
            ;
            assert(FRACTIONS * (2048 * u) == SIGN * u) by (nonlinear_arith);
        }
        return None;
    }
    if e == 0 {
        proof {
            lemma_subnormal_below_unit(fraction as nat);
            if fraction > 0 {
                vstd::arithmetic::div_mod::lemma_small_mod(mag, unit());
            } else {
                assert(0 * unit() == 0) by (nonlinear_arith);
                lemma_unit_divides(0);
                assert(SIGN * unit() > 0) by (nonlinear_arith)
                    requires
                        unit() > 0,
                ;
            }
        }
        return if fraction == 0 {
            Some(0)
        } else {
            None
        };
    }
    let sig: u64 = FRACTIONS + fraction;
    let n: u64;
    if e >= 1075 {
        let p = power_of_two(e - 1075);
        proof {
            lemma_whole_large(sig as nat, e as nat);
            if e > 1075 {
                lemma_pow2_strictly_increases((e - 1075) as nat, 11);
            }
            lemma_pow2_strictly_increases((e - 1075) as nat, 11);
            assert(sig * p < SIGN) by (nonlinear_arith)
                requires
                    sig < 2 * FRACTIONS,
                    p <= 1024,
            ;
        }
        n = sig * p;
    } else {
        proof {
            lemma_whole_small(sig as nat, e as nat);
        }
        if e < 1023 {
            proof {
                // Below one: the significand is smaller than the power.
                lemma_pow2_strictly_increases(52, (1075 - e) as nat);
                if e < 1022 {
                    lemma_pow2_strictly_increases(53, (1075 - e) as nat);
                }
                vstd::arithmetic::div_mod::lemma_small_mod(sig as nat, pow2((1075 - e) as nat));
            }
            return None;
        }
        let p = power_of_two(1075 - e);
        if sig % p != 0 {
            return None;
        }
        n = sig / p;
    }
    proof {
        assert(mag == n * unit());
        assert(n < SIGN);
        lemma_mul_strict(n as nat, SIGN as nat, unit());
        lemma_unit_divides(n as int);
        lemma_unit_divides(-(n as int));
        assert((-(n as int)) * unit() == -(n * unit())) by (nonlinear_arith);
    }
    if bits < SIGN {
        Some(n as i64)
    } else {
        Some(-(n as i64))
    }
}

/// A subnormal number is smaller than one.
proof fn lemma_subnormal_below_unit(fraction: nat)
    requires
        fraction < FRACTIONS,
    ensures
        fraction < unit(),
{
    lemma2_to64();
    lemma2_to64_rest();
    lemma_pow2_strictly_increases(52, 1074);
}

/// The position of the highest one bit.
pub open spec fn floor_log2(a: nat) -> nat
    decreases a,
{
    if a < 2 {
        0
    } else {
        1 + floor_log2(a / 2)
    }
}

/// A quotient, rounded to the nearest integer, and to the even one of two that
/// are equally near.
pub open spec fn round_half_even(a: nat, d: nat) -> nat {
    if 2 * (a % d) < d || (2 * (a % d) == d && (a / d) % 2 == 0) {
        a / d
    } else {
        a / d + 1
    }
}

/// The leading 53 bits of a positive integer, rounded.
pub open spec fn significand(a: nat) -> nat {
    if floor_log2(a) <= 52 {
        a * pow2((52 - floor_log2(a)) as nat)
    } else {
        round_half_even(a, pow2((floor_log2(a) - 52) as nat))
    }
}

/// The absolute value of an integer.
pub open spec fn absolute(n: int) -> nat {
    if n < 0 {
        (-n) as nat
    } else {
        n as nat
    }
}

/// The pattern of the double nearest to an integer.
pub open spec fn nearest(n: int) -> u64 {
    if n == 0 {
        0
    } else {
        ((floor_log2(absolute(n)) + 1022) * FRACTIONS + significand(absolute(n)) + (if n < 0 {
            SIGN as int
        } else {
            0
        })) as u64
    }
}

proof fn lemma_floor_log2(a: nat)
    requires
        a > 0,
    ensures
        pow2(floor_log2(a)) <= a < pow2(floor_log2(a) + 1),
    decreases a,
{
    lemma2_to64();
    if a >= 2 {
        lemma_floor_log2(a / 2);
        lemma_pow2_unfold(floor_log2(a));
        lemma_pow2_unfold(floor_log2(a) + 1);
    }
}

proof fn lemma_floor_log2_unique(a: nat, e: nat)
    requires
        pow2(e) <= a < pow2(e + 1),
    ensures
        floor_log2(a) == e,
{
    lemma_pow2_pos(e);
    lemma_floor_log2(a);
    let x = floor_log2(a);
    if x < e {
        if x + 1 < e {
            lemma_pow2_strictly_increases(x + 1, e);
        }
    } else if e < x {
        if e + 1 < x {
            lemma_pow2_strictly_increases(e + 1, x);
        }
    }
}

/// Rounding a quotient between `2^52` and `2^53` stays there.
proof fn lemma_significand_range(a: nat)
    requires
        0 < a < 0x1_0000_0000_0000_0000,
    ensures
        floor_log2(a) < 64,
        FRACTIONS <= significand(a) <= 2 * FRACTIONS,
        floor_log2(a) <= 52 ==> significand(a) < 2 * FRACTIONS,
{
    let e = floor_log2(a);
    lemma_floor_log2(a);
    lemma2_to64();
    lemma2_to64_rest();
    if e >= 64 {
        if e > 64 {
            lemma_pow2_strictly_increases(64, e);
        }
    }
    if e <= 52 {
        let p = pow2((52 - e) as nat);
        lemma_pow2_adds(e, (52 - e) as nat);
        lemma_pow2_adds(e + 1, (52 - e) as nat);
        lemma_pow2_pos((52 - e) as nat);
        assert(pow2(e) * p <= a * p) by (nonlinear_arith)
            requires
                pow2(e) <= a,
        ;
        lemma_mul_strict(a, pow2(e + 1), p);
    } else {
        let d = pow2((e - 52) as nat);
        lemma_pow2_pos((e - 52) as nat);
        lemma_pow2_adds(52, (e - 52) as nat);
        lemma_pow2_adds(53, (e - 52) as nat);
        vstd::arithmetic::div_mod::lemma_fundamental_div_mod(a as int, d as int);
        let q = a / d;
        let r = a % d;
        assert(q >= FRACTIONS) by (nonlinear_arith)
            requires
                a == d * q + r,
                r < d,
                a >= FRACTIONS * d,
                d > 0,
        ;
        assert(q < 2 * FRACTIONS) by (nonlinear_arith)
            requires
                a == d * q + r,
                r >= 0,
                a < (2 * FRACTIONS) * d,
                d > 0,
        ;
    }
}

/// The pattern of the double nearest to an integer, computed as the conversion
/// of a 64-bit integer to a double does: to nearest, ties to even.
pub fn double_of_int(n: i64) -> (bits: u64)
    ensures
        bits == nearest(n as int),
{
    if n == 0 {
        return 0;
    }
    let a: u64 = if n < 0 {
        if n == i64::MIN {
            0x8000_0000_0000_0000
        } else {
            (-n) as u64
        }
    } else {
        n as u64
    };
    let mut e: u64 = 0;
    let mut p: u64 = 1;
    proof {
        lemma2_to64();
        lemma2_to64_rest();
    }
    while p <= a / 2
        invariant
            0 < a <= SIGN,
            p == pow2(e as nat),
            0 < p <= a,
            e <= 63,
            pow2(63) == SIGN,
        decreases a - p,
    {
        proof {
            lemma_pow2_unfold((e + 1) as nat);
            if e >= 63 {
                if e > 63 {
                    lemma_pow2_strictly_increases(63, e as nat);
                }
            }
        }
        p = p * 2;
        e = e + 1;
    }
    proof {
        lemma_pow2_unfold((e + 1) as nat);
        lemma_floor_log2_unique(a as nat, e as nat);
        lemma_significand_range(a as nat);
    }
    let sig: u64 = if e <= 52 {
        let scale = power_of_two(52 - e);
        a * scale
    } else {
        let d = power_of_two(e - 52);
        let q: u64 = a / d;
        let r: u64 = a % d;
        proof {
            assert(r < d && d <= SIGN / 2) by {
                lemma_pow2_strictly_increases((e - 52) as nat, 62);
            }
        }
        if 2 * r < d || (2 * r == d && q % 2 == 0) {
            q
        } else {
            q + 1
        }
    };
    let low: u64 = (e + 1022) * FRACTIONS + sig;
    if n < 0 {
        low + SIGN
    } else {
        low
    }
}

/// The pattern of a truth value as a number: one or zero.
pub open spec fn bool_bits(b: bool) -> u64 {
    if b {
        ONE
    } else {
        0
    }
}

/// The pattern of a truth value as a number: one or zero.
pub fn double_of_bool(b: bool) -> (bits: u64)
    ensures
        bits == bool_bits(b),
{
    if b {
        ONE
    } else {
        0
    }
}

/// The absolute value that the pattern of a converted integer stands for.
proof fn lemma_nearest_magnitude(n: int)
    requires
        n != 0,
        absolute(n) <= SIGN,
    ensures
        magnitude(nearest(n)) == significand(absolute(n)) * pow2(floor_log2(absolute(n)) + 1022),
        nearest(n) < SIGN <==> n > 0,
        is_finite(nearest(n)),
{
    let a = absolute(n);
    let e = floor_log2(a);
    let sig = significand(a);
    let bits = nearest(n);
    lemma_significand_range(a);
    let low = (e + 1022) * FRACTIONS + sig;
    assert(low <= 1087 * FRACTIONS) by (nonlinear_arith)
        requires
            e < 64,
            sig <= 2 * FRACTIONS,
            low == (e + 1022) * FRACTIONS + sig,
    ;
    assert(bits == low + (if n < 0 {
        SIGN as int
    } else {
        0
    }));
    if sig < 2 * FRACTIONS {
        assert(exponent(bits) == e + 1023);
        assert(fraction(bits) == sig - FRACTIONS);
    } else {
        assert(exponent(bits) == e + 1024);
        assert(fraction(bits) == 0);
        lemma_pow2_unfold(e + 1023);
        assert(FRACTIONS * (2 * pow2(e + 1022)) == (2 * FRACTIONS) * pow2(e + 1022))
            by (nonlinear_arith);
    }
}

/// An integer of at most 53 bits is converted without loss, and is found again
/// as the same integer.
pub proof fn law_small_int_exact(n: int)
    requires
        -0x20_0000_0000_0000 <= n <= 0x20_0000_0000_0000,
    ensures
        scaled(nearest(n)) == n * unit(),
        whole(nearest(n)) == Some(n as i64),
{
    lemma2_to64();
    lemma2_to64_rest();
    lemma_unit_divides(n);
    if n == 0 {
        assert(0 * unit() == 0) by (nonlinear_arith);
        assert(0 < SIGN * unit()) by (nonlinear_arith)
            requires
                unit() > 0,
        ;
    } else {
        let a = absolute(n);
        let e = floor_log2(a);
        lemma_nearest_magnitude(n);
        lemma_floor_log2(a);
        if e > 53 {
            lemma_pow2_strictly_increases(53, e);
        }
        let u = unit();
        if e <= 52 {
            lemma_pow2_adds((52 - e) as nat, e + 1022);
            let x = pow2((52 - e) as nat);
            let y = pow2(e + 1022);
            assert((a * x) * y == a * (x * y)) by (nonlinear_arith);
        } else {
            assert(a == 2 * FRACTIONS);
            assert(a % 2 == 0 && a / 2 == FRACTIONS);
            lemma_pow2_adds(1, 1074);
            assert(FRACTIONS * (2 * u) == (2 * FRACTIONS) * u) by (nonlinear_arith);
        }
        assert(magnitude(nearest(n)) == a * u);
        assert((-(a as int)) * u == -(a * u)) by (nonlinear_arith);
        lemma_mul_strict(a, SIGN as nat, u);
    }
}

/// Rounding a quotient gives the nearest multiple of the divisor.
proof fn lemma_round_nearest(a: nat, d: nat, k: int)
    requires
        d > 0,
    ensures
        absolute(round_half_even(a, d) * d - a) <= absolute(k * d - a),
{
    let q = a / d;
    let r = a % d;
    vstd::arithmetic::div_mod::lemma_fundamental_div_mod(a as int, d as int);
    assert(d * q == q * d) by (nonlinear_arith);
    assert((q + 1) * d == q * d + d) by (nonlinear_arith);
    if k <= q {
        assert(k * d <= q * d) by (nonlinear_arith)
            requires
                k <= q,
                d > 0,
        ;
    } else {
        assert(k * d >= (q + 1) * d) by (nonlinear_arith)
            requires
                k >= q + 1,
                d > 0,
        ;
    }
}

/// Every double is a multiple of `2^s` units, or smaller than `2^52` of them.
proof fn lemma_coarse_multiple(b: u64, s: nat)
    requires
        is_finite(b),
    ensures
        (exists|k: nat| magnitude(b) == #[trigger] (k * pow2(s))) || magnitude(b) < FRACTIONS
            * pow2(s),
{
    let e = exponent(b);
    let f = FRACTIONS as nat;
    let d = pow2(s);
    lemma_pow2_pos(s);
    if e == 0 {
        assert(f <= f * d) by (nonlinear_arith)
            requires
                d >= 1,
        ;
    } else {
        let m = f + fraction(b);
        if e - 1 >= s {
            lemma_pow2_adds((e - 1 - s) as nat, s);
            let h = pow2((e - 1 - s) as nat);
            assert(m * (h * d) == (m * h) * d) by (nonlinear_arith);
            assert(magnitude(b) == (m * h) * pow2(s));
        } else {
            let p = pow2((e - 1) as nat);
            lemma_pow2_pos((e - 1) as nat);
            lemma_mul_strict(m, 2 * f, p);
            lemma_pow2_unfold(e);
            assert((2 * f) * p == f * pow2(e)) by (nonlinear_arith)
                requires
                    pow2(e) == 2 * p,
            ;
            if e < s {
                lemma_pow2_strictly_increases(e, s);
            }
            lemma_mul_le(f, pow2(e), d);
        }
    }
}

proof fn lemma_scale_distance(x: int, y: int, u: nat)
    ensures
        absolute(x * u - y * u) == absolute(x - y) * u,
{
    assert(x * u - y * u == (x - y) * u) by (nonlinear_arith);
    let z = x - y;
    assert(z >= 0 ==> z * u >= 0) by (nonlinear_arith);
    assert(z <= 0 ==> z * u <= 0) by (nonlinear_arith);
    assert((-z) * u == -(z * u)) by (nonlinear_arith);
}

/// No double is nearer to a 64-bit integer than the one that it is converted to.
pub proof fn law_nearest(n: i64, other: u64)
    requires
        is_finite(other),
    ensures
        absolute(scaled(nearest(n as int)) - n * unit()) <= absolute(scaled(other) - n * unit()),
{
    let u = unit();
    lemma_pow2_pos(1074);
    let a = absolute(n as int);
    if a <= 0x20_0000_0000_0000 {
        law_small_int_exact(n as int);
    } else {
        let e = floor_log2(a);
        let sig = significand(a);
        lemma2_to64();
        lemma2_to64_rest();
        lemma_nearest_magnitude(n as int);
        lemma_floor_log2(a);
        if e <= 52 {
            if e < 52 {
                lemma_pow2_strictly_increases(e + 1, 53);
            }
        }
        let d = pow2((e - 52) as nat);
        let f = FRACTIONS as nat;
        lemma_pow2_pos((e - 52) as nat);
        lemma_pow2_adds((e - 52) as nat, 1074);
        lemma_pow2_adds(52, (e - 52) as nat);
        let coarse = pow2(e + 1022);
        assert(coarse == d * u);
        // The converted number is the rounded multiple.
        assert(sig * (d * u) == (sig * d) * u) by (nonlinear_arith);
        let rounded = sig * d;
        assert(magnitude(nearest(n as int)) == rounded * u);
        lemma_scale_distance(rounded as int, a as int, u);
        let best = absolute(rounded - a) * u;
        assert((-(a as int)) * u == -(a * u)) by (nonlinear_arith);
        assert(absolute(scaled(nearest(n as int)) - n * u) == best);
        // Any other double is as far away, or further.
        let b = magnitude(other);
        let gap = absolute(b - a * u);
        lemma_coarse_multiple(other, e + 1022);
        assert(best <= gap) by {
            if b < f * coarse {
                lemma_round_nearest(a, d, f as int);
                assert(f * (d * u) == (f * d) * u) by (nonlinear_arith);
                assert(f * d <= a);
                lemma_scale_distance((f * d) as int, a as int, u);
                lemma_mul_le_left(absolute(rounded - a), absolute(f * d - a), u);
                lemma_mul_le_left(f * d, a, u);
            } else {
                let k = choose|k: nat| b == #[trigger] (k * coarse);
                lemma_round_nearest(a, d, k as int);
                assert(k * (d * u) == (k * d) * u) by (nonlinear_arith);
                lemma_scale_distance((k * d) as int, a as int, u);
                lemma_mul_le_left(absolute(rounded - a), absolute(k * d - a), u);
            }
        }
        // A number of the other sign lies beyond zero.
        lemma_round_nearest(a, d, 0);
        assert(0 * d == 0) by (nonlinear_arith);
        lemma_mul_le_left(absolute(rounded - a), a, u);
        assert(best <= a * u);
    }
}

proof fn lemma_mul_le_left(a: nat, b: nat, p: nat)
    by (nonlinear_arith)
    requires
        a <= b,
    ensures
        a * p <= b * p,
{
}

/// Only zero is converted to the pattern that has no bit set.
pub proof fn law_zero_pattern(n: i64)
    ensures
        nearest(n as int) == 0 <==> n == 0,
{
    if n != 0 {
        let a = absolute(n as int);
        let e = floor_log2(a);
        let sig = significand(a);
        lemma_significand_range(a);
        let low = (e + 1022) * FRACTIONS + sig;
        assert(0 < low <= 1087 * FRACTIONS) by (nonlinear_arith)
            requires
                e < 64,
                FRACTIONS <= sig <= 2 * FRACTIONS,
                low == (e + 1022) * FRACTIONS + sig,
        ;
    }
}

/// A truth value is stored as the integer one or zero would be.
pub proof fn law_bool_is_int(b: bool)
    ensures
        bool_bits(b) == nearest(if b {
            1
        } else {
            0
        }),
{
    lemma2_to64();
    lemma2_to64_rest();
}

/// The fields of a pattern: which patterns are no numbers and which are finite,
/// and which number a finite one is.
pub proof fn law_number_by_bits(bits: u64)
    ensures
        is_nan(bits) <==> bits % 0x8000_0000_0000_0000 > 0x7ff0_0000_0000_0000,
        is_finite(bits) <==> bits % 0x8000_0000_0000_0000 < 0x7ff0_0000_0000_0000,
        unit() == pow2(1074),
        ({
            let e = (bits / 0x10_0000_0000_0000) % 2048;
            let fraction = bits % 0x10_0000_0000_0000;
            let size = if e == 0 {
                fraction as nat
            } else {
                (0x10_0000_0000_0000 + fraction) as nat * pow2((e - 1) as nat)
            };
            scaled(bits) == if bits < 0x8000_0000_0000_0000 {
                size as int
            } else {
                -(size as int)
            }
        }),
{
}

/// Numbers compare as their patterns do: two of the same sign by the patterns
/// without it, two of different signs by the sign, and the zeros are one number.
pub proof fn law_compared_by_bits(a: u64, b: u64)
    requires
        a % 0x8000_0000_0000_0000 <= 0x7ff0_0000_0000_0000,
        b % 0x8000_0000_0000_0000 <= 0x7ff0_0000_0000_0000,
    ensures
        num_eq(a, b) <==> a == b || (a % 0x8000_0000_0000_0000 == 0 && b % 0x8000_0000_0000_0000
            == 0),
        a < 0x8000_0000_0000_0000 && b < 0x8000_0000_0000_0000 ==> (num_lt(a, b) <==> a < b),
        a >= 0x8000_0000_0000_0000 && b >= 0x8000_0000_0000_0000 ==> (num_lt(a, b) <==> a > b),
        a >= 0x8000_0000_0000_0000 && b < 0x8000_0000_0000_0000 ==> (num_lt(a, b) <==> !(a
            == 0x8000_0000_0000_0000 && b == 0)),
        a < 0x8000_0000_0000_0000 && b >= 0x8000_0000_0000_0000 ==> !num_lt(a, b),
{
    lemma_magnitude_zero(a);
    lemma_magnitude_zero(b);
    if a % SIGN < b % SIGN {
        law_magnitude_monotone(a, b);
    } else if b % SIGN < a % SIGN {
        law_magnitude_monotone(b, a);
    } else {
        lemma_magnitude_low(a, b);
    }
}

/// A double is handed over as an integer exactly where it is that integer; the
/// smallest 64-bit integer is not handed over as one.
pub proof fn law_whole_is_number(bits: u64, n: i64)
    ensures
        whole(bits) == Some(n) <==> is_finite(bits) && scaled(bits) == n * unit() && n != i64::MIN,
{
    let u = unit() as int;
    lemma_pow2_pos(1074);
    lemma_infinity_large(bits);
    if whole(bits) is Some {
        let q = scaled(bits) / u;
        vstd::arithmetic::div_mod::lemma_fundamental_div_mod(scaled(bits), u);
        assert(u * q == q * u) by (nonlinear_arith);
        assert(-SIGN < q < SIGN) by (nonlinear_arith)
            requires
                u > 0,
                scaled(bits) == q * u,
                -(SIGN * u) < scaled(bits) < SIGN * u,
        ;
        if scaled(bits) == n * u {
            assert(q == n) by (nonlinear_arith)
                requires
                    u > 0,
                    q * u == n * u,
            ;
        }
    } else if is_finite(bits) && scaled(bits) == n * u && n != i64::MIN {
        lemma_unit_divides(n as int);
        lemma_mul_strict(absolute(n as int), SIGN as nat, unit());
        assert((-(n as int)) * u == -(n * u)) by (nonlinear_arith);
    }
}

/// A pattern that is not finite lies above all 64-bit integers.
proof fn lemma_infinity_large(bits: u64)
    ensures
        !is_finite(bits) ==> magnitude(bits) >= SIGN * unit(),
{
    if !is_finite(bits) {
        let q = pow2(2046);
        lemma_pow2_adds(972, 1074);
        lemma2_to64();
        lemma_pow2_strictly_increases(11, 972);
        let sig = (FRACTIONS + fraction(bits)) as nat;
        let a = pow2(972);
        let u = unit();
        assert(sig * (a * u) >= FRACTIONS * (2048 * u)) by (nonlinear_arith)
            requires
                sig >= FRACTIONS,
                a >= 2048,
                u >= 0,
        ;
        assert(FRACTIONS * (2048 * u) == SIGN * u) by (nonlinear_arith);
    }
}

/// Of two multiples that are equally near, rounding takes the even one.
proof fn lemma_round_tie(a: nat, d: nat, k: int)
    requires
        d > 0,
        k != round_half_even(a, d),
        absolute(round_half_even(a, d) * d - a) == absolute(k * d - a),
    ensures
        round_half_even(a, d) % 2 == 0,
{
    let q = a / d;
    let r = a % d;
    vstd::arithmetic::div_mod::lemma_fundamental_div_mod(a as int, d as int);
    assert(d * q == q * d) by (nonlinear_arith);
    assert((q + 1) * d == q * d + d) by (nonlinear_arith);
    if k < q {
        assert(k * d <= q * d - d) by (nonlinear_arith)
            requires
                k <= q - 1,
                d > 0,
        ;
    } else if k > q + 1 {
        assert(k * d >= q * d + 2 * d) by (nonlinear_arith)
            requires
                k >= q + 2,
                d > 0,
        ;
    }
}

/// Where another double is as near to a 64-bit integer as the one that it is
/// converted to, the pattern of the latter is even: ties go to even.
pub proof fn law_nearest_tie(n: i64, other: u64)
    requires
        is_finite(other),
        scaled(other) != scaled(nearest(n as int)),
        absolute(scaled(nearest(n as int)) - n * unit()) == absolute(scaled(other) - n * unit()),
    ensures
        nearest(n as int) % 2 == 0,
{
    let u = unit();
    lemma_pow2_pos(1074);
    let a = absolute(n as int);
    if a <= 0x20_0000_0000_0000 {
        law_small_int_exact(n as int);
    } else {
        let e = floor_log2(a);
        let sig = significand(a);
        lemma2_to64();
        lemma2_to64_rest();
        lemma_nearest_magnitude(n as int);
        lemma_significand_range(a);
        lemma_floor_log2(a);
        if e <= 52 {
            if e < 52 {
                lemma_pow2_strictly_increases(e + 1, 53);
            }
        }
        let d = pow2((e - 52) as nat);
        let f = FRACTIONS as nat;
        lemma_pow2_pos((e - 52) as nat);
        lemma_pow2_adds((e - 52) as nat, 1074);
        lemma_pow2_adds(52, (e - 52) as nat);
        let coarse = pow2(e + 1022);
        assert(coarse == d * u);
        assert(sig * (d * u) == (sig * d) * u) by (nonlinear_arith);
        let rounded = sig * d;
        lemma_scale_distance(rounded as int, a as int, u);
        let near = absolute(rounded - a);
        assert((-(a as int)) * u == -(a * u)) by (nonlinear_arith);
        assert(absolute(scaled(nearest(n as int)) - n * u) == near * u);
        let b = magnitude(other);
        lemma_coarse_multiple(other, e + 1022);
        // Rounding moves a number by less than itself, so the other is on its side.
        lemma_round_nearest(a, d, f as int);
        assert(f * d <= a);
        assert(near <= a - f * d);
        assert(f * d > 0) by (nonlinear_arith)
            requires
                f > 0,
                d > 0,
        ;
        lemma_mul_strict(near, a, u);
        assert((other < SIGN) == (n > 0) || b == 0);
        assert(absolute(b - a * u) == near * u);
        if b < f * coarse {
            assert(f * (d * u) == (f * d) * u) by (nonlinear_arith);
            lemma_mul_le_left(near, (a - f * d) as nat, u);
            assert((a - f * d) * u == a * u - (f * d) * u) by (nonlinear_arith);
            lemma_mul_le_left(f * d, a, u);
        } else {
            let k = choose|k: nat| b == #[trigger] (k * coarse);
            assert(k * (d * u) == (k * d) * u) by (nonlinear_arith);
            lemma_scale_distance((k * d) as int, a as int, u);
            assert(absolute(k * d - a) == near) by (nonlinear_arith)
                requires
                    u > 0,
                    absolute(k * d - a) * u == near * u,
            ;
            lemma_round_tie(a, d, k as int);
        }
        let low = (e + 1022) * FRACTIONS + sig;
        assert(low <= 1087 * FRACTIONS) by (nonlinear_arith)
            requires
                e < 64,
                sig <= 2 * FRACTIONS,
                low == (e + 1022) * FRACTIONS + sig,
        ;
    }
}

/// Integers of at most 53 bits compare as doubles as they do as integers.
pub proof fn law_small_ints_compared(m: int, n: int)
    requires
        -0x20_0000_0000_0000 <= m <= 0x20_0000_0000_0000,
        -0x20_0000_0000_0000 <= n <= 0x20_0000_0000_0000,
    ensures
        num_eq(nearest(m), nearest(n)) <==> m == n,
        num_lt(nearest(m), nearest(n)) <==> m < n,
{
    let u = unit() as int;
    lemma_pow2_pos(1074);
    law_small_int_exact(m);
    law_small_int_exact(n);
    law_whole_is_number(nearest(m), m as i64);
    law_whole_is_number(nearest(n), n as i64);
    assert(m < n ==> m * u < n * u) by (nonlinear_arith)
        requires
            u > 0,
    ;
    assert(n < m ==> n * u < m * u) by (nonlinear_arith)
        requires
            u > 0,
    ;
}

} // verus!
