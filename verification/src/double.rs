//! Floating-point numbers of double precision, held as their 64 bits.
//!
//! The bits are a sign, an exponent and a fraction. Every finite number is a
//! whole number of units of 2^-1074; arithmetic is exact in these units, and
//! its result is rounded to the nearest number that 64 bits can hold.
use crate::natural::Natural;
use crate::text::{decimal, digits, padded};
use vstd::arithmetic::div_mod::{
    lemma_basic_div, lemma_div_denominator, lemma_div_is_ordered,
    lemma_div_multiples_vanish_quotient, lemma_fundamental_div_mod,
    lemma_fundamental_div_mod_converse, lemma_small_mod,
};
use vstd::arithmetic::power2::{
    lemma2_to64, lemma2_to64_rest, lemma_pow2_adds, lemma_pow2_pos,
    lemma_pow2_strictly_increases, lemma_pow2_unfold, pow2,
};
use vstd::prelude::*;

verus! {

/// The bits of infinity: the highest exponent and no fraction.
pub const INFINITY: u64 = 0x7ff0_0000_0000_0000;

/// The bits of some value that is not a number.
pub const NOT_A_NUMBER: u64 = 0x7ff8_0000_0000_0000;

/// The bit of the sign.
pub const SIGN: u64 = 0x8000_0000_0000_0000;

/// The bits of the number nearest to one thousandth.
pub const THOUSANDTH: u64 = 0x3f50_624d_d2f1_a9fc;

/// The bits of one thousand.
pub const THOUSAND: u64 = 0x408f_4000_0000_0000;

/// A floating-point number.
#[derive(Clone, Copy, Debug, PartialEq, Eq, Structural)]
pub struct Double {
    pub bits: u64,
}

/// What a floating-point number stands for. A sign is true where it is
/// negative; a finite number has a size in units of 2^-1074.
pub enum Real {
    Nan,
    Infinite(bool),
    Finite(bool, nat),
}

/// What the bits stand for.
pub open spec fn decoded(bits: u64) -> Real {
    let negative = bits >= SIGN;
    let size = bits as int % 0x8000_0000_0000_0000;
    let exponent = size / 0x10_0000_0000_0000;
    let fraction = size % 0x10_0000_0000_0000;
    if exponent == 2047 {
        if fraction == 0 {
            Real::Infinite(negative)
        } else {
            Real::Nan
        }
    } else if exponent == 0 {
        Real::Finite(negative, fraction as nat)
    } else {
        Real::Finite(
            negative,
            (0x10_0000_0000_0000 + fraction) as nat * pow2((exponent - 1) as nat),
        )
    }
}

impl View for Double {
    type V = Real;

    open spec fn view(&self) -> Real {
        decoded(self.bits)
    }
}

/// `n / d` rounded to the nearest whole number, halves to the even one.
pub open spec fn nearest(n: nat, d: nat) -> nat {
    let q = n / d;
    let r = n % d;
    if 2 * r > d || (2 * r == d && q % 2 == 1) {
        q + 1
    } else {
        q
    }
}

/// How many binary digits of a number are beyond the 53 that can be held.
pub open spec fn excess(n: nat) -> nat
    decreases n,
{
    if n < 0x20_0000_0000_0000 {
        0
    } else {
        1 + excess(n / 2)
    }
}

/// `n / d` units, rounded to the nearest number that can be held.
pub open spec fn closest(negative: bool, n: nat, d: nat) -> Real {
    let k = excess(n / d);
    let size = nearest(n, d * pow2(k)) * pow2(k);
    if size >= pow2(2098) {
        Real::Infinite(negative)
    } else {
        Real::Finite(negative, size)
    }
}

/// A size with its sign.
pub open spec fn signed(negative: bool, size: nat) -> int {
    if negative {
        -(size as int)
    } else {
        size as int
    }
}

/// Zero.
pub open spec fn zero() -> Real {
    Real::Finite(false, 0)
}

/// The number with the other sign.
pub open spec fn negated(x: Real) -> Real {
    match x {
        Real::Nan => Real::Nan,
        Real::Infinite(negative) => Real::Infinite(!negative),
        Real::Finite(negative, size) => Real::Finite(!negative, size),
    }
}

/// The number without its sign.
pub open spec fn absolute(x: Real) -> Real {
    match x {
        Real::Nan => Real::Nan,
        Real::Infinite(_) => Real::Infinite(false),
        Real::Finite(_, size) => Real::Finite(false, size),
    }
}

/// The sum of two finite numbers.
pub open spec fn sum(a: bool, m: nat, b: bool, n: nat) -> Real {
    let s = signed(a, m) + signed(b, n);
    if s == 0 {
        Real::Finite(a && b, 0)
    } else if s < 0 {
        closest(true, (-s) as nat, 1)
    } else {
        closest(false, s as nat, 1)
    }
}

/// The sum of two numbers.
pub open spec fn plus(x: Real, y: Real) -> Real {
    match (x, y) {
        (Real::Finite(a, m), Real::Finite(b, n)) => sum(a, m, b, n),
        (Real::Infinite(a), Real::Infinite(b)) => if a == b {
            Real::Infinite(a)
        } else {
            Real::Nan
        },
        (Real::Infinite(a), Real::Finite(_, _)) => Real::Infinite(a),
        (Real::Finite(_, _), Real::Infinite(b)) => Real::Infinite(b),
        _ => Real::Nan,
    }
}

/// The difference of two numbers.
pub open spec fn minus(x: Real, y: Real) -> Real {
    plus(x, negated(y))
}

/// A whole multiple of a number.
pub open spec fn multiple(x: Real, m: nat) -> Real {
    match x {
        Real::Finite(negative, size) => closest(negative, m * size, 1),
        _ => x,
    }
}

/// The quotient of two numbers.
pub open spec fn quotient(x: Real, y: Real) -> Real {
    match (x, y) {
        (Real::Finite(a, m), Real::Finite(b, n)) => if n == 0 {
            if m == 0 {
                Real::Nan
            } else {
                Real::Infinite(a != b)
            }
        } else {
            closest(a != b, m * pow2(1074), n)
        },
        (Real::Infinite(a), Real::Finite(b, _)) => Real::Infinite(a != b),
        (Real::Finite(a, _), Real::Infinite(b)) => Real::Finite(a != b, 0),
        _ => Real::Nan,
    }
}

/// Whether `x` is less than `y`. What is not a number is less than nothing,
/// and nothing is less than it.
pub open spec fn less(x: Real, y: Real) -> bool {
    match (x, y) {
        (Real::Finite(a, m), Real::Finite(b, n)) => signed(a, m) < signed(b, n),
        (Real::Infinite(a), Real::Infinite(b)) => a && !b,
        (Real::Infinite(a), Real::Finite(_, _)) => a,
        (Real::Finite(_, _), Real::Infinite(b)) => !b,
        _ => false,
    }
}

/// The greater of two numbers; what is not a number gives way.
pub open spec fn greater_of(x: Real, y: Real) -> Real {
    if x is Nan || less(x, y) {
        y
    } else {
        x
    }
}

/// The lesser of two numbers; what is not a number gives way.
pub open spec fn lesser_of(x: Real, y: Real) -> Real {
    if x is Nan || less(y, x) {
        y
    } else {
        x
    }
}

/// A number, or the greatest `u64` where it is greater.
pub open spec fn capped(n: nat) -> nat {
    if n <= u64::MAX {
        n
    } else {
        u64::MAX as nat
    }
}

/// The whole part of a number, nothing below zero and nothing above the
/// greatest `u64`.
pub open spec fn whole(x: Real) -> nat {
    match x {
        Real::Infinite(false) => u64::MAX as nat,
        Real::Finite(false, size) => capped(size / pow2(1074)),
        _ => 0,
    }
}

/// The whole number nearest to a number, halves up, nothing below zero and
/// nothing above the greatest `u64`.
pub open spec fn rounded(x: Real) -> nat {
    match x {
        Real::Infinite(false) => u64::MAX as nat,
        Real::Finite(false, size) => capped((2 * size + pow2(1074)) / (2 * pow2(1074))),
        _ => 0,
    }
}

/// Whether a number is not a whole one.
pub open spec fn has_fraction(x: Real) -> bool {
    match x {
        Real::Finite(_, size) => size % pow2(1074) != 0,
        _ => true,
    }
}

/// Ten to the power of `n`.
pub open spec fn power_of_ten(n: nat) -> nat
    decreases n,
{
    if n == 0 {
        1
    } else {
        10 * power_of_ten((n - 1) as nat)
    }
}

/// `q` units of the last of `places` decimal places.
pub open spec fn point(q: nat, places: nat) -> Seq<char> {
    let scale = power_of_ten(places);
    if places == 0 {
        decimal(q)
    } else {
        decimal(q / scale) + "."@ + padded(q % scale, places)
    }
}

/// The minus sign of a negative value.
pub open spec fn sign(negative: bool) -> Seq<char> {
    if negative {
        "-"@
    } else {
        seq![]
    }
}

/// A number with `places` decimal places.
pub open spec fn fixed(x: Real, places: nat) -> Seq<char> {
    match x {
        Real::Nan => "NaN"@,
        Real::Infinite(negative) => sign(negative) + "inf"@,
        Real::Finite(negative, size) => sign(negative) + point(
            nearest(power_of_ten(places) * size, pow2(1074)),
            places,
        ),
    }
}

/// The number nearest to one thousandth.
pub open spec fn thousandth() -> Real {
    decoded(THOUSANDTH)
}

/// One thousand.
pub open spec fn thousand() -> Real {
    decoded(THOUSAND)
}

/// The powers of ten that nine decimal places need.
proof fn lemma_powers()
    ensures
        power_of_ten(0) == 1,
        power_of_ten(1) == 10,
        power_of_ten(2) == 100,
        power_of_ten(3) == 1_000,
        power_of_ten(4) == 10_000,
        power_of_ten(5) == 100_000,
        power_of_ten(6) == 1_000_000,
        power_of_ten(7) == 10_000_000,
        power_of_ten(8) == 100_000_000,
        power_of_ten(9) == 1_000_000_000,
{
    reveal_with_fuel(power_of_ten, 10);
}

/// A power of ten of at most nine decimal places.
fn ten_to(n: u32) -> (r: u32)
    requires
        n <= 9,
    ensures
        r == power_of_ten(n as nat),
        1 <= r <= 1_000_000_000,
{
    proof {
        lemma_powers();
    }
    match n {
        0 => 1,
        1 => 10,
        2 => 100,
        3 => 1_000,
        4 => 10_000,
        5 => 100_000,
        6 => 1_000_000,
        7 => 10_000_000,
        8 => 100_000_000,
        _ => 1_000_000_000,
    }
}

/// The excess of a number brackets it between two powers of two.
pub proof fn lemma_excess(n: nat)
    ensures
        n < pow2(53 + excess(n)),
        excess(n) > 0 ==> n >= pow2(52 + excess(n)),
    decreases n,
{
    lemma2_to64();
    lemma2_to64_rest();
    if n >= 0x20_0000_0000_0000 {
        let k = excess(n / 2);
        lemma_excess(n / 2);
        lemma_pow2_unfold(54 + k);
        lemma_pow2_unfold(53 + k);
    }
}

/// Sixteen binary digits can be dropped at once.
proof fn lemma_excess_drop(n: nat)
    requires
        n >= 0x20_0000_0000_0000 * 0x1_0000,
    ensures
        excess(n) == 16 + excess(n / 0x1_0000),
{
    reveal_with_fuel(excess, 17);
    assert(n / 2 / 2 / 2 / 2 == n / 16);
    assert(n / 16 / 2 / 2 / 2 / 2 == n / 256);
    assert(n / 256 / 2 / 2 / 2 / 2 == n / 4096);
    assert(n / 4096 / 2 / 2 / 2 / 2 == n / 0x1_0000);
}

/// A rounded quotient lies between whole numbers that the quotient lies
/// between.
proof fn lemma_nearest_bounds(n: nat, d: nat, low: nat, high: nat)
    requires
        d > 0,
        low <= n / d < high,
    ensures
        low <= nearest(n, d) <= high,
{
}

/// The rounded quotient of a number by the power of two of its excess fits 53
/// binary digits, or is the least number that does not.
proof fn lemma_closest_range(n: nat, d: nat)
    requires
        d > 0,
    ensures
        ({
            let k = excess(n / d);
            let q = nearest(n, d * pow2(k));
            &&& d * pow2(k) > 0
            &&& q <= 0x20_0000_0000_0000
            &&& k > 0 ==> q >= 0x10_0000_0000_0000
        }),
{
    let k = excess(n / d);
    let p = pow2(k);
    lemma_excess(n / d);
    lemma_pow2_pos(k);
    lemma2_to64();
    lemma2_to64_rest();
    lemma_pow2_adds(53, k);
    lemma_pow2_adds(52, k);
    assert(d * p > 0) by (nonlinear_arith)
        requires
            d > 0,
            p > 0,
    ;
    lemma_div_denominator(n as int, d as int, p as int);
    let m = n / d;
    assert(n / (d * p) == m / p);
    lemma_fundamental_div_mod(m as int, p as int);
    let t = m / p;
    let r = m % p;
    assert(t < 0x20_0000_0000_0000) by (nonlinear_arith)
        requires
            m == p * t + r,
            r >= 0,
            m < 0x20_0000_0000_0000 * p,
            p > 0,
    ;
    if k > 0 {
        assert(t >= 0x10_0000_0000_0000) by (nonlinear_arith)
            requires
                m == p * t + r,
                r < p,
                m >= 0x10_0000_0000_0000 * p,
                p > 0,
        ;
        lemma_nearest_bounds(n, d * p, 0x10_0000_0000_0000, 0x20_0000_0000_0000);
    } else {
        lemma_nearest_bounds(n, d * p, 0, 0x20_0000_0000_0000);
    }
}

/// The bits of a rounded number, below the highest exponent.
proof fn lemma_encoded(k: nat, q: nat, bits: u64)
    requires
        q <= 0x20_0000_0000_0000,
        k > 0 ==> q >= 0x10_0000_0000_0000,
        bits == k * 0x10_0000_0000_0000 + q,
        bits < INFINITY,
    ensures
        decoded(bits) == Real::Finite(false, q * pow2(k)),
        decoded((bits + SIGN) as u64) == Real::Finite(true, q * pow2(k)),
        q * pow2(k) < pow2(2098),
{
    lemma2_to64();
    lemma2_to64_rest();
    let exponent = bits as int / 0x10_0000_0000_0000;
    let fraction = bits as int % 0x10_0000_0000_0000;
    let signed_bits = (bits + SIGN) as u64;
    assert(signed_bits as int % 0x8000_0000_0000_0000 == bits);
    if q < 0x10_0000_0000_0000 {
        assert(k == 0);
        assert(exponent == 0 && fraction == q);
        assert(q * pow2(0) == q) by (nonlinear_arith)
            requires
                pow2(0) == 1,
        ;
        lemma_pow2_adds(52, 2046);
        lemma_pow2_pos(2046);
        assert(pow2(2098) >= 0x10_0000_0000_0000) by (nonlinear_arith)
            requires
                pow2(2098) == 0x10_0000_0000_0000 * pow2(2046),
                pow2(2046) > 0,
        ;
    } else if q < 0x20_0000_0000_0000 {
        assert(exponent == k + 1 && fraction == q - 0x10_0000_0000_0000);
        lemma_below_top(k, q);
    } else {
        assert(exponent == k + 2 && fraction == 0);
        lemma_pow2_unfold(k + 1);
        assert(0x10_0000_0000_0000 * (2 * pow2(k)) == 0x20_0000_0000_0000 * pow2(k));
        lemma_below_top(k + 1, 0x10_0000_0000_0000);
    }
}

/// A number with an exponent below the highest is below the bound of finite
/// numbers.
proof fn lemma_below_top(k: nat, q: nat)
    requires
        k < 2046,
        q < 0x20_0000_0000_0000,
    ensures
        q * pow2(k) < pow2(2098),
{
    lemma2_to64_rest();
    lemma_pow2_adds(53, 2045);
    lemma_pow2_pos(k);
    if k < 2045 {
        lemma_pow2_strictly_increases(k, 2045);
    }
    let p = pow2(k);
    let top = pow2(2045);
    assert(q * p < 0x20_0000_0000_0000 * top) by (nonlinear_arith)
        requires
            q < 0x20_0000_0000_0000,
            0 < p <= top,
    ;
}

/// A number with the highest exponent, or beyond, is not finite.
proof fn lemma_beyond_top(k: nat, q: nat)
    requires
        q >= 0x10_0000_0000_0000,
        k * 0x10_0000_0000_0000 + q >= INFINITY,
        q <= 0x20_0000_0000_0000,
    ensures
        q * pow2(k) >= pow2(2098),
{
    lemma2_to64_rest();
    if k >= 2046 {
        lemma_top_exponent(k, q);
    } else {
        assert(k == 2045 && q == 0x20_0000_0000_0000);
        lemma_pow2_adds(53, 2045);
    }
}

/// An exponent that is too high.
proof fn lemma_top_exponent(k: nat, q: nat)
    requires
        q >= 0x10_0000_0000_0000,
        k >= 2046,
    ensures
        q * pow2(k) >= pow2(2098),
{
    lemma2_to64_rest();
    lemma_pow2_adds(52, 2046);
    if k > 2046 {
        lemma_pow2_strictly_increases(2046, k);
    }
    let p = pow2(k);
    let top = pow2(2046);
    assert(q * p >= 0x10_0000_0000_0000 * top) by (nonlinear_arith)
        requires
            q >= 0x10_0000_0000_0000,
            p >= top,
            top >= 0,
    ;
}

/// The size in units of the number with the given bits below the sign.
pub open spec fn size_of(bits: u64) -> nat {
    let exponent = bits as int / 0x10_0000_0000_0000;
    let fraction = bits as int % 0x10_0000_0000_0000;
    if exponent == 0 {
        fraction as nat
    } else {
        (0x10_0000_0000_0000 + fraction) as nat * pow2((exponent - 1) as nat)
    }
}

/// Lower bits below the sign are a smaller size.
proof fn lemma_size_order(x: u64, y: u64)
    ensures
        x < y ==> size_of(x) < size_of(y),
{
    if x < y {
        lemma2_to64();
        let a = x as int / 0x10_0000_0000_0000;
        let f = x as int % 0x10_0000_0000_0000;
        let b = y as int / 0x10_0000_0000_0000;
        let g = y as int % 0x10_0000_0000_0000;
        if b > 0 {
            let q = pow2((b - 1) as nat) as int;
            lemma_pow2_pos((b - 1) as nat);
            if a == 0 {
                assert((0x10_0000_0000_0000 + g) * q >= 0x10_0000_0000_0000) by (nonlinear_arith)
                    requires
                        g >= 0,
                        q >= 1,
                ;
            } else {
                let p = pow2((a - 1) as nat) as int;
                lemma_pow2_pos((a - 1) as nat);
                if a == b {
                    assert((0x10_0000_0000_0000 + f) * p < (0x10_0000_0000_0000 + g) * p)
                        by (nonlinear_arith)
                        requires
                            f < g,
                            p > 0,
                    ;
                } else {
                    lemma_pow2_unfold(a as nat);
                    if a < b - 1 {
                        lemma_pow2_strictly_increases(a as nat, (b - 1) as nat);
                    }
                    assert((0x10_0000_0000_0000 + f) * p < (0x10_0000_0000_0000 + g) * q)
                        by (nonlinear_arith)
                        requires
                            f < 0x10_0000_0000_0000,
                            g >= 0,
                            p > 0,
                            q >= 2 * p,
                    ;
                }
            }
        }
    }
}

/// A number with a low exponent is below one half.
proof fn lemma_below_one(bits: u64)
    requires
        bits / 0x10_0000_0000_0000 < 1012,
    ensures
        2 * size_of(bits) < pow2(1074),
{
    let top: u64 = 0x3f40_0000_0000_0000;
    lemma_size_order(bits, top);
    lemma2_to64_rest();
    lemma_pow2_adds(52, 1011);
    assert(size_of(top) == pow2(1063));
    lemma_pow2_unfold(1064);
    lemma_pow2_strictly_increases(1064, 1074);
}

/// A number with an exponent in the middle is a fraction with a small
/// denominator.
proof fn lemma_scaled_down(exponent: nat, digits: nat)
    requires
        1 <= exponent < 1075,
    ensures
        ({
            let size = digits * pow2((exponent - 1) as nat);
            let scale = pow2((1075 - exponent) as nat);
            &&& scale > 0
            &&& size / pow2(1074) == digits / scale
            &&& (2 * size + pow2(1074)) / (2 * pow2(1074)) == (2 * digits + scale) / (2 * scale)
            &&& (size % pow2(1074) == 0 <==> digits % scale == 0)
        }),
{
    let p = pow2((exponent - 1) as nat);
    let scale = pow2((1075 - exponent) as nat);
    let unit = pow2(1074);
    let size = digits * p;
    lemma_pow2_pos((exponent - 1) as nat);
    lemma_pow2_pos((1075 - exponent) as nat);
    lemma_pow2_adds((exponent - 1) as nat, (1075 - exponent) as nat);
    assert(unit == p * scale);
    assert(size == p * digits) by (nonlinear_arith)
        requires
            size == digits * p,
    ;
    lemma_div_multiples_vanish_quotient(p as int, digits as int, scale as int);
    assert(2 * size + unit == p * (2 * digits + scale)) by (nonlinear_arith)
        requires
            size == p * digits,
            unit == p * scale,
    ;
    assert(2 * unit == p * (2 * scale)) by (nonlinear_arith)
        requires
            unit == p * scale,
    ;
    lemma_div_multiples_vanish_quotient(p as int, (2 * digits + scale) as int, (2 * scale) as int);
    lemma_truncate_middle_free(p, digits, scale);
}

/// A common factor bears on no divisibility.
proof fn lemma_truncate_middle_free(p: nat, a: nat, d: nat)
    requires
        p > 0,
        d > 0,
    ensures
        (p * a) % (p * d) == 0 <==> a % d == 0,
{
    assert(p * d > 0) by (nonlinear_arith)
        requires
            p > 0,
            d > 0,
    ;
    lemma_fundamental_div_mod(a as int, d as int);
    let q = a / d;
    let r = a % d;
    assert(p * a == (p * d) * q + p * r) by (nonlinear_arith)
        requires
            a == d * q + r,
    ;
    assert(p * r < p * d) by (nonlinear_arith)
        requires
            r < d,
            p > 0,
    ;
    assert((p * d) * q == q * (p * d)) by (nonlinear_arith);
    lemma_fundamental_div_mod_converse((p * a) as int, (p * d) as int, q as int, (p * r) as int);
    assert(p * r == 0 <==> r == 0) by (nonlinear_arith)
        requires
            p > 0,
    ;
}

/// A number with a higher exponent is a whole number.
proof fn lemma_scaled_up(exponent: nat, digits: nat)
    requires
        1075 <= exponent,
        0x10_0000_0000_0000 <= digits < 0x20_0000_0000_0000,
    ensures
        ({
            let size = digits * pow2((exponent - 1) as nat);
            let scale = pow2((exponent - 1075) as nat);
            &&& size == (digits * scale) * pow2(1074)
            &&& size / pow2(1074) == digits * scale
            &&& (2 * size + pow2(1074)) / (2 * pow2(1074)) == digits * scale
            &&& size % pow2(1074) == 0
            &&& exponent < 1087 ==> digits * scale <= u64::MAX
            &&& exponent >= 1087 ==> digits * scale > u64::MAX
        }),
{
    let p = pow2((exponent - 1) as nat);
    let scale = pow2((exponent - 1075) as nat);
    let unit = pow2(1074);
    let n = digits * scale;
    let size = digits * p;
    lemma2_to64();
    lemma_pow2_pos(1074);
    lemma_pow2_pos((exponent - 1075) as nat);
    lemma_pow2_adds((exponent - 1075) as nat, 1074);
    assert(size == n * unit) by (nonlinear_arith)
        requires
            size == digits * p,
            p == scale * unit,
            n == digits * scale,
    ;
    lemma_fundamental_div_mod_converse(size as int, unit as int, n as int, 0);
    assert(2 * size + unit == n * (2 * unit) + unit) by (nonlinear_arith)
        requires
            size == n * unit,
    ;
    lemma_fundamental_div_mod_converse(
        (2 * size + unit) as int,
        (2 * unit) as int,
        n as int,
        unit as int,
    );
    if exponent < 1087 {
        if exponent < 1086 {
            lemma_pow2_strictly_increases((exponent - 1075) as nat, 11);
        }
        assert(n <= 0x1f_ffff_ffff_ffff * 2048) by (nonlinear_arith)
            requires
                n == digits * scale,
                digits <= 0x1f_ffff_ffff_ffff,
                scale <= 2048,
        ;
    } else {
        if exponent > 1087 {
            lemma_pow2_strictly_increases(12, (exponent - 1075) as nat);
        }
        assert(n >= 0x10_0000_0000_0000 * 4096) by (nonlinear_arith)
            requires
                n == digits * scale,
                digits >= 0x10_0000_0000_0000,
                scale >= 4096,
        ;
    }
}

/// A number with a high exponent is above the greatest `u64`.
proof fn lemma_above_range(bits: u64)
    requires
        bits / 0x10_0000_0000_0000 >= 1087,
        bits <= INFINITY,
    ensures
        whole(decoded(bits)) == u64::MAX,
{
    let exponent = bits as nat / 0x10_0000_0000_0000;
    let fraction = bits as nat % 0x10_0000_0000_0000;
    if exponent < 2047 {
        lemma_scaled_up(exponent, 0x10_0000_0000_0000 + fraction);
    }
}

/// A number with a higher exponent is its own nearest whole number.
proof fn lemma_rounds_to_whole(bits: u64)
    requires
        bits / 0x10_0000_0000_0000 >= 1075,
        bits <= INFINITY,
    ensures
        rounded(decoded(bits)) == whole(decoded(bits)),
{
    let exponent = bits as nat / 0x10_0000_0000_0000;
    let fraction = bits as nat % 0x10_0000_0000_0000;
    if exponent < 2047 {
        lemma_scaled_up(exponent, 0x10_0000_0000_0000 + fraction);
    }
}

/// A number with a higher exponent is a whole number.
proof fn lemma_whole_multiple(bits: u64)
    requires
        1075 <= bits / 0x10_0000_0000_0000 < 2047,
    ensures
        size_of(bits) % pow2(1074) == 0,
{
    let exponent = bits as nat / 0x10_0000_0000_0000;
    let fraction = bits as nat % 0x10_0000_0000_0000;
    lemma_scaled_up(exponent, 0x10_0000_0000_0000 + fraction);
}

/// A power of two.
fn two_to(k: u32) -> (r: u128)
    requires
        k <= 63,
    ensures
        r == pow2(k as nat),
        1 <= r <= 0x8000_0000_0000_0000,
{
    let mut r: u128 = 1;
    let mut i: u32 = 0;
    proof {
        lemma2_to64();
        lemma2_to64_rest();
    }
    while i < k
        invariant
            i <= k <= 63,
            r == pow2(i as nat),
            pow2(63) == 0x8000_0000_0000_0000,
        decreases k - i,
    {
        proof {
            lemma_pow2_unfold((i + 1) as nat);
            if i + 1 < 63 {
                lemma_pow2_strictly_increases((i + 1) as nat, 63);
            }
        }
        r = r * 2;
        i = i + 1;
    }
    proof {
        lemma_pow2_pos(k as nat);
        if k < 63 {
            lemma_pow2_strictly_increases(k as nat, 63);
        }
    }
    r
}

/// Rounding to a whole number of seconds keeps the order of times.
pub proof fn lemma_rounded_order(x: Real, y: Real)
    requires
        !less(y, x),
        y is Nan ==> x is Nan,
    ensures
        rounded(x) <= rounded(y),
{
    lemma_pow2_pos(1074);
    let p = pow2(1074) as int;
    lemma_basic_div(p, 2 * p);
    if let (Real::Finite(false, m), Real::Finite(false, n)) = (x, y) {
        lemma_div_is_ordered(2 * m + p, 2 * n + p, 2 * p);
    }
}

/// Rounding to whole numbers keeps order.
proof fn lemma_nearest_order(m: nat, n: nat, d: nat)
    requires
        m <= n,
        d > 0,
    ensures
        nearest(m, d) <= nearest(n, d),
{
    lemma_div_is_ordered(m as int, n as int, d as int);
    lemma_fundamental_div_mod(m as int, d as int);
    lemma_fundamental_div_mod(n as int, d as int);
}

/// A greater number has no less excess.
proof fn lemma_excess_order(m: nat, n: nat)
    requires
        m <= n,
    ensures
        excess(m) <= excess(n),
    decreases n,
{
    if m >= 0x20_0000_0000_0000 {
        lemma_excess_order(m / 2, n / 2);
    }
}

/// The size of a whole number of units when it is rounded.
pub open spec fn held(n: nat) -> nat {
    nearest(n, 1 * pow2(excess(n / 1))) * pow2(excess(n / 1))
}

/// Rounding to numbers that can be held keeps order.
proof fn lemma_held_order(m: nat, n: nat)
    requires
        m <= n,
    ensures
        held(m) <= held(n),
{
    let j = excess(m);
    let k = excess(n);
    assert(m / 1 == m && n / 1 == n);
    lemma_excess_order(m, n);
    lemma_closest_range(m, 1);
    lemma_closest_range(n, 1);
    lemma_pow2_pos(j);
    lemma_pow2_pos(k);
    let x = nearest(m, 1 * pow2(j));
    let y = nearest(n, 1 * pow2(k));
    let p = pow2(j);
    let r = pow2(k);
    if j == k {
        lemma_nearest_order(m, n, 1 * p);
        assert(x * p <= y * p) by (nonlinear_arith)
            requires
                x <= y,
                p >= 0,
        ;
    } else {
        lemma_pow2_unfold(j + 1);
        if j + 1 < k {
            lemma_pow2_strictly_increases(j + 1, k);
        }
        assert(x * p <= y * r) by (nonlinear_arith)
            requires
                x <= 0x20_0000_0000_0000,
                y >= 0x10_0000_0000_0000,
                r >= 2 * p,
                p >= 0,
        ;
    }
}

/// A greater sum is not rounded to less.
proof fn lemma_sum_order(a: bool, m: nat, b: bool, n: nat, c: bool, o: nat, d: bool, p: nat)
    requires
        signed(a, m) + signed(b, n) <= signed(c, o) + signed(d, p),
    ensures
        !less(sum(c, o, d, p), sum(a, m, b, n)),
{
    let s = signed(a, m) + signed(b, n);
    let t = signed(c, o) + signed(d, p);
    if s > 0 {
        lemma_held_order(s as nat, t as nat);
    } else if t < 0 {
        lemma_held_order((-t) as nat, (-s) as nat);
    }
}

/// What exceeds a limit exceeds it no less when more is taken from it for
/// less.
pub proof fn lemma_difference_order(limit: Real, x: Real, y: Real, high: Real, low: Real)
    requires
        less(limit, minus(x, y)),
        !(high is Nan),
        !(low is Nan),
        !less(high, x),
        !less(y, low),
    ensures
        less(limit, minus(high, low)),
{
    if let (Real::Finite(a, m), Real::Finite(b, n)) = (x, y) {
        if let (Real::Finite(c, o), Real::Finite(d, p)) = (high, low) {
            lemma_sum_order(a, m, !b, n, c, o, !d, p);
        }
    }
}

/// Two times are as far from each other as each from the other.
pub proof fn lemma_distance_mutual(x: Real, y: Real)
    ensures
        absolute(minus(x, y)) == absolute(minus(y, x)),
{
}

/// More units than the greatest number has are rounded to infinity.
pub proof fn lemma_closest_infinite(negative: bool, n: nat)
    requires
        n >= pow2(2098),
    ensures
        closest(negative, n, 1) == Real::Infinite(negative),
{
    assert(n / 1 == n);
    let k = excess(n);
    lemma_excess(n);
    lemma_closest_range(n, 1);
    if k < 2046 {
        if k < 2045 {
            lemma_pow2_strictly_increases(53 + k, 2098);
        }
    }
    lemma_top_exponent(k, nearest(n, 1 * pow2(k)));
}

/// The excess of a number is fixed by the powers of two that it lies between.
proof fn lemma_excess_is(n: nat, k: nat)
    requires
        k > 0,
        pow2(52 + k) <= n < pow2(53 + k),
    ensures
        excess(n) == k,
{
    lemma_excess(n);
    let e = excess(n);
    if e < k {
        if 53 + e < 52 + k {
            lemma_pow2_strictly_increases(53 + e, 52 + k);
        }
    } else if e > k {
        if 53 + k < 52 + e {
            lemma_pow2_strictly_increases(53 + k, 52 + e);
        }
    }
}

/// A number of 53 binary digits, shifted, is held as it is.
pub proof fn lemma_exact(negative: bool, q: nat, k: nat)
    requires
        q < 0x20_0000_0000_0000,
        k < 2046,
    ensures
        closest(negative, q * pow2(k), 1) == Real::Finite(negative, q * pow2(k)),
{
    let n = q * pow2(k);
    assert(n / 1 == n);
    let e = excess(n);
    lemma_excess(n);
    lemma2_to64_rest();
    lemma_pow2_pos(k);
    lemma_pow2_adds(53, k);
    let p = pow2(k);
    assert(n < 0x20_0000_0000_0000 * p) by (nonlinear_arith)
        requires
            n == q * p,
            q < 0x20_0000_0000_0000,
            p > 0,
    ;
    if e > k {
        if 52 + e > 53 + k {
            lemma_pow2_strictly_increases(53 + k, 52 + e);
        }
    }
    let d = pow2(e);
    lemma_pow2_pos(e);
    lemma_pow2_adds(e, (k - e) as nat);
    let c = q * pow2((k - e) as nat);
    let r = pow2((k - e) as nat);
    assert(n == c * d) by (nonlinear_arith)
        requires
            n == q * p,
            p == d * r,
            c == q * r,
    ;
    assert(1 * d == d) by (nonlinear_arith);
    vstd::arithmetic::div_mod::lemma_div_by_multiple(c as int, d as int);
    vstd::arithmetic::div_mod::lemma_mod_multiples_basic(c as int, d as int);
    assert(nearest(n, 1 * d) == c);
    lemma_below_top(k, q);
}

/// A factor on both sides of a quotient cancels.
pub proof fn lemma_closest_cancels(negative: bool, c: nat, n: nat)
    requires
        n > 0,
    ensures
        closest(negative, c * n, n) == closest(negative, c, 1),
{
    vstd::arithmetic::div_mod::lemma_div_by_multiple(c as int, n as int);
    assert(c / 1 == c);
    let k = excess(c);
    let p = pow2(k);
    lemma_pow2_pos(k);
    vstd::arithmetic::div_mod::lemma_fundamental_div_mod(c as int, p as int);
    let q = c / p;
    let r = c % p;
    assert(n * p > 0 && c * n == q * (n * p) + n * r && n * r < n * p) by (nonlinear_arith)
        requires
            c == p * q + r,
            0 <= r < p,
            n > 0,
            p > 0,
    ;
    let d = n * p;
    let m = n * r;
    assert(d * q == q * d) by (nonlinear_arith);
    assert(m >= 0) by (nonlinear_arith)
        requires
            m == n * r,
            r >= 0,
    ;
    vstd::arithmetic::div_mod::lemma_fundamental_div_mod_converse(
        (c * n) as int,
        d as int,
        q as int,
        m as int,
    );
    assert(2 * m > d <==> 2 * r > p) by (nonlinear_arith)
        requires
            m == n * r,
            d == n * p,
            n > 0,
    ;
    assert(2 * m == d <==> 2 * r == p) by (nonlinear_arith)
        requires
            m == n * r,
            d == n * p,
            n > 0,
    ;
    assert(1 * p == p) by (nonlinear_arith);
}

/// Adding to the negative zero gives what is added.
pub proof fn lemma_added_to_zero(x: Double)
    ensures
        plus(Real::Finite(true, 0), x@) == x@,
{
    let bits = x.bits;
    let size = bits as int % 0x8000_0000_0000_0000;
    let exponent = size / 0x10_0000_0000_0000;
    let fraction = size % 0x10_0000_0000_0000;
    lemma2_to64();
    if exponent == 0 {
        let q = fraction as nat;
        lemma_exact(bits >= SIGN, q, 0);
        assert(q * 1 == q) by (nonlinear_arith);
    } else if exponent < 2047 {
        let q = (0x10_0000_0000_0000 + fraction) as nat;
        let k = (exponent - 1) as nat;
        lemma_exact(bits >= SIGN, q, k);
        lemma_pow2_pos(k);
        let p = pow2(k);
        assert(q * p > 0) by (nonlinear_arith)
            requires
                q > 0,
                p > 0,
        ;
    }
}

/// A thousand is a thousand times one, and the number held for a thousandth is
/// the nearest to it.
pub proof fn law_thousands()
    ensures
        thousand() == Real::Finite(false, 1000 * pow2(1074)),
        thousandth() == closest(false, pow2(1074), 1000),
{
    lemma2_to64();
    lemma2_to64_rest();
    lemma_pow2_adds(43, 1031);
    let m = pow2(1031);
    assert(0x1f_4000_0000_0000 * m == 1000 * (0x800_0000_0000 * m)) by (nonlinear_arith);
    let p = pow2(1012);
    lemma_pow2_pos(1012);
    lemma_pow2_adds(62, 1012);
    lemma_pow2_adds(52, 1012);
    lemma_pow2_adds(53, 1012);
    let n = pow2(1074);
    let q = n / 1000;
    assert(n == 0x4000_0000_0000_0000 * p);
    assert(0x10_0000_0000_0000 * p <= q < 0x20_0000_0000_0000 * p);
    lemma_excess_is(q, 1012);
    let d = 1000 * p;
    vstd::arithmetic::div_mod::lemma_fundamental_div_mod_converse(
        n as int,
        d as int,
        4611686018427387,
        904 * p as int,
    );
    assert(nearest(n, 1000 * p) == 4611686018427388);
    lemma_below_top(1012, 4611686018427388);
}

/// Less than half a unit is rounded to zero.
pub proof fn lemma_closest_zero(negative: bool, n: nat, d: nat)
    requires
        2 * n < d,
    ensures
        closest(negative, n, d) == Real::Finite(negative, 0),
{
    lemma2_to64();
    lemma_basic_div(n as int, d as int);
    lemma_small_mod(n, d);
    lemma_pow2_pos(2098);
    assert(excess(n / d) == 0);
    assert(d * 1 == d) by (nonlinear_arith);
}

/// `n / d` rounded to the nearest whole number.
fn nearest_quotient(n: &Natural, d: &Natural) -> (r: Natural)
    requires
        d@ > 0,
    ensures
        r@ == nearest(n@, d@),
{
    let (q, r) = n.div_rem(d);
    let twice = r.times(2);
    let (_, odd) = q.div_small(2);
    if d.less(&twice) || (!twice.less(d) && odd == 1) {
        q.plus(&Natural::from_u64(1))
    } else {
        q
    }
}

/// A number with the given sign and bits below that of the sign.
fn with_sign(negative: bool, bits: u64) -> (r: Double)
    requires
        bits < SIGN,
    ensures
        r.bits == if negative {
            bits + SIGN
        } else {
            bits as int
        },
{
    if negative {
        Double { bits: bits + SIGN }
    } else {
        Double { bits }
    }
}

/// Infinity with the given sign.
pub fn infinity(negative: bool) -> (r: Double)
    ensures
        r@ == Real::Infinite(negative),
{
    with_sign(negative, INFINITY)
}

/// Zero with the given sign.
pub fn signed_zero(negative: bool) -> (r: Double)
    ensures
        r@ == Real::Finite(negative, 0),
{
    with_sign(negative, 0)
}

/// Some value that is not a number.
pub fn not_a_number() -> (r: Double)
    ensures
        r@ == Real::Nan,
{
    Double { bits: NOT_A_NUMBER }
}

/// `n / d` units, rounded to the nearest number that can be held.
pub fn closest_double(negative: bool, n: &Natural, d: &Natural) -> (r: Double)
    requires
        d@ > 0,
    ensures
        r@ == closest(negative, n@, d@),
{
    let (mut rest, _) = n.div_rem(d);
    let limit = Natural::from_u64(0x20_0000_0000_0000);
    let ghost all = rest@;
    let mut k: u32 = 0;
    let wide = limit.times(0x1_0000);
    while k < 2030 && !rest.less(&wide)
        invariant
            k <= 2045,
            wide@ == 0x20_0000_0000_0000 * 0x1_0000,
            excess(all) == k + excess(rest@),
        decreases 2046 - k,
    {
        proof {
            lemma_excess_drop(rest@);
        }
        let (less, _) = rest.div_small(0x1_0000);
        rest = less;
        k = k + 16;
    }
    while k < 2046 && !rest.less(&limit)
        invariant
            k <= 2046,
            limit@ == 0x20_0000_0000_0000,
            excess(all) == k + excess(rest@),
        decreases 2046 - k,
    {
        let (half, _) = rest.div_small(2);
        rest = half;
        k = k + 1;
    }
    proof {
        lemma_closest_range(n@, d@);
    }
    if k == 2046 {
        proof {
            let e = excess(all);
            lemma_top_exponent(e, nearest(n@, d@ * pow2(e)));
        }
        return infinity(negative);
    }
    assert(excess(all) == k);
    let q = nearest_quotient(n, &d.shifted(k)).to_u64();
    let bits: u64 = k as u64 * 0x10_0000_0000_0000 + q;
    if bits >= INFINITY {
        proof {
            lemma_beyond_top(k as nat, q as nat);
        }
        infinity(negative)
    } else {
        proof {
            lemma_encoded(k as nat, q as nat, bits);
        }
        with_sign(negative, bits)
    }
}

/// The parts of a number.
pub enum Parts {
    Nan,
    Infinite(bool),
    Finite(bool, Natural),
}

impl View for Parts {
    type V = Real;

    open spec fn view(&self) -> Real {
        match self {
            Parts::Nan => Real::Nan,
            Parts::Infinite(negative) => Real::Infinite(*negative),
            Parts::Finite(negative, size) => Real::Finite(*negative, size@),
        }
    }
}

/// `q` units of the last of `places` decimal places.
fn with_point(q: &Natural, places: u32) -> (r: String)
    requires
        places <= 9,
    ensures
        r@ == point(q@, places as nat),
{
    if places == 0 {
        q.text()
    } else {
        let (high, low) = q.div_small(ten_to(places));
        high.text().concat(".").concat(digits(low as u128, places).as_str())
    }
}

/// The text with a minus sign before it where the value is negative.
fn signed_text(negative: bool, text: String) -> (r: String)
    ensures
        r@ == sign(negative) + text@,
{
    if negative {
        "-".to_owned().concat(text.as_str())
    } else {
        assert(Seq::<char>::empty() + text@ =~= text@);
        text
    }
}

impl Double {
    /// The number with the given bits.
    pub fn from_bits(bits: u64) -> (r: Double)
        ensures
            r.bits == bits,
    {
        Double { bits }
    }

    /// Zero.
    pub fn zero() -> (r: Double)
        ensures
            r.bits == 0,
            r@ == zero(),
    {
        Double { bits: 0 }
    }

    /// The parts of the number.
    pub fn parts(&self) -> (r: Parts)
        ensures
            r@ == self@,
    {
        let negative = self.bits >= SIGN;
        let size: u64 = self.bits % 0x8000_0000_0000_0000;
        let exponent: u64 = size / 0x10_0000_0000_0000;
        let fraction: u64 = size % 0x10_0000_0000_0000;
        if exponent == 2047 {
            if fraction == 0 {
                Parts::Infinite(negative)
            } else {
                Parts::Nan
            }
        } else if exponent == 0 {
            Parts::Finite(negative, Natural::from_u64(fraction))
        } else {
            let digits = Natural::from_u64(0x10_0000_0000_0000 + fraction);
            Parts::Finite(negative, digits.shifted((exponent - 1) as u32))
        }
    }

    /// The number with the other sign.
    pub fn negated(&self) -> (r: Double)
        ensures
            r@ == negated(self@),
    {
        if self.bits >= SIGN {
            Double { bits: self.bits - SIGN }
        } else {
            Double { bits: self.bits + SIGN }
        }
    }

    /// The number without its sign.
    pub fn absolute(&self) -> (r: Double)
        ensures
            r@ == absolute(self@),
    {
        if self.bits >= SIGN {
            Double { bits: self.bits - SIGN }
        } else {
            *self
        }
    }

    /// The sum of two numbers.
    pub fn plus(&self, other: Double) -> (r: Double)
        ensures
            r@ == plus(self@, other@),
    {
        match (self.parts(), other.parts()) {
            (Parts::Finite(a, m), Parts::Finite(b, n)) => {
                let one = Natural::from_u64(1);
                if a == b {
                    let total = m.plus(&n);
                    if total.is_zero() {
                        with_sign(a, 0)
                    } else {
                        closest_double(a, &total, &one)
                    }
                } else if m.less(&n) {
                    closest_double(b, &n.minus(&m), &one)
                } else if n.less(&m) {
                    closest_double(a, &m.minus(&n), &one)
                } else {
                    Double::zero()
                }
            },
            (Parts::Infinite(a), Parts::Infinite(b)) => if a == b {
                infinity(a)
            } else {
                Double { bits: NOT_A_NUMBER }
            },
            (Parts::Infinite(a), Parts::Finite(_, _)) => infinity(a),
            (Parts::Finite(_, _), Parts::Infinite(b)) => infinity(b),
            _ => Double { bits: NOT_A_NUMBER },
        }
    }

    /// The difference of two numbers.
    pub fn minus(&self, other: Double) -> (r: Double)
        ensures
            r@ == minus(self@, other@),
    {
        let size: u64 = self.bits % 0x8000_0000_0000_0000;
        if self.bits == other.bits && size < INFINITY {
            return Double::zero();
        }
        self.plus(other.negated())
    }

    /// A whole multiple of the number.
    pub fn multiple(&self, m: u32) -> (r: Double)
        ensures
            r@ == multiple(self@, m as nat),
    {
        match self.parts() {
            Parts::Finite(negative, size) => closest_double(
                negative,
                &size.times(m),
                &Natural::from_u64(1),
            ),
            _ => *self,
        }
    }

    /// The quotient of two numbers.
    pub fn quotient(&self, other: Double) -> (r: Double)
        ensures
            r@ == quotient(self@, other@),
    {
        match (self.parts(), other.parts()) {
            (Parts::Finite(a, m), Parts::Finite(b, n)) => if n.is_zero() {
                if m.is_zero() {
                    Double { bits: NOT_A_NUMBER }
                } else {
                    infinity(a != b)
                }
            } else {
                closest_double(a != b, &m.shifted(1074), &n)
            },
            (Parts::Infinite(a), Parts::Finite(b, _)) => infinity(a != b),
            (Parts::Finite(a, _), Parts::Infinite(b)) => with_sign(a != b, 0),
            _ => Double { bits: NOT_A_NUMBER },
        }
    }

    /// Whether the number is less than another.
    pub fn less(&self, other: Double) -> (r: bool)
        ensures
            r == less(self@, other@),
    {
        if self.is_nan() || other.is_nan() {
            return false;
        }
        let a = self.bits >= SIGN;
        let b = other.bits >= SIGN;
        let x: u64 = self.bits % 0x8000_0000_0000_0000;
        let y: u64 = other.bits % 0x8000_0000_0000_0000;
        proof {
            lemma_size_order(x, y);
            lemma_size_order(y, x);
            lemma_size_order(0, x);
            lemma_size_order(0, y);
        }
        if a && b {
            y < x
        } else if !a && !b {
            x < y
        } else {
            a && !(x == 0 && y == 0)
        }
    }

    /// Whether the number is no number.
    pub fn is_nan(&self) -> (r: bool)
        ensures
            r == (self@ is Nan),
    {
        self.bits % 0x8000_0000_0000_0000 > INFINITY
    }

    /// Whether the number is above zero.
    pub fn is_positive(&self) -> (r: bool)
        ensures
            r == less(zero(), self@),
    {
        Double::zero().less(*self)
    }

    /// The greater of two numbers; what is not a number gives way.
    pub fn greater_of(&self, other: Double) -> (r: Double)
        ensures
            r@ == greater_of(self@, other@),
    {
        if self.is_nan() || self.less(other) {
            other
        } else {
            *self
        }
    }

    /// The lesser of two numbers; what is not a number gives way.
    pub fn lesser_of(&self, other: Double) -> (r: Double)
        ensures
            r@ == lesser_of(self@, other@),
    {
        if self.is_nan() || other.less(*self) {
            other
        } else {
            *self
        }
    }

    /// The whole part of the number.
    pub fn whole(&self) -> (r: u64)
        ensures
            r == whole(self@),
    {
        if self.bits >= SIGN || self.is_nan() {
            return 0;
        }
        let exponent: u64 = self.bits / 0x10_0000_0000_0000;
        let fraction: u64 = self.bits % 0x10_0000_0000_0000;
        if exponent < 1012 {
            proof {
                lemma_pow2_pos(1074);
                lemma_below_one(self.bits);
                lemma_basic_div(size_of(self.bits) as int, pow2(1074) as int);
            }
            0
        } else if exponent < 1075 {
            let digits: u64 = 0x10_0000_0000_0000 + fraction;
            let scale = two_to((1075 - exponent) as u32);
            proof {
                lemma_scaled_down(exponent as nat, digits as nat);
            }
            (digits as u128 / scale) as u64
        } else if exponent < 1087 {
            let digits: u64 = 0x10_0000_0000_0000 + fraction;
            let scale = two_to((exponent - 1075) as u32);
            proof {
                lemma_scaled_up(exponent as nat, digits as nat);
            }
            (digits as u128 * scale) as u64
        } else {
            proof {
                lemma_above_range(self.bits);
            }
            u64::MAX
        }
    }

    /// The whole number nearest to the number.
    pub fn rounded(&self) -> (r: u64)
        ensures
            r == rounded(self@),
    {
        if self.bits >= SIGN || self.is_nan() {
            return 0;
        }
        let exponent: u64 = self.bits / 0x10_0000_0000_0000;
        let fraction: u64 = self.bits % 0x10_0000_0000_0000;
        if exponent < 1012 {
            proof {
                lemma_pow2_pos(1074);
                lemma_below_one(self.bits);
                lemma_basic_div(
                    2 * size_of(self.bits) as int + pow2(1074) as int,
                    2 * pow2(1074) as int,
                );
            }
            0
        } else if exponent < 1075 {
            let digits: u64 = 0x10_0000_0000_0000 + fraction;
            let scale = two_to((1075 - exponent) as u32);
            proof {
                lemma_scaled_down(exponent as nat, digits as nat);
            }
            ((2 * digits as u128 + scale) / (2 * scale)) as u64
        } else {
            proof {
                lemma_rounds_to_whole(self.bits);
            }
            self.whole()
        }
    }

    /// Whether the number is not a whole one.
    pub fn has_fraction(&self) -> (r: bool)
        ensures
            r == has_fraction(self@),
    {
        let size: u64 = self.bits % 0x8000_0000_0000_0000;
        proof {
            lemma_pow2_pos(1074);
        }
        if size == 0 {
            proof {
                lemma_small_mod(0, pow2(1074));
            }
            return false;
        }
        let exponent: u64 = size / 0x10_0000_0000_0000;
        let fraction: u64 = size % 0x10_0000_0000_0000;
        if exponent < 1012 {
            proof {
                lemma_below_one(size);
                lemma_size_order(0, size);
                lemma_small_mod(size_of(size), pow2(1074));
            }
            true
        } else if exponent < 1075 {
            let digits: u64 = 0x10_0000_0000_0000 + fraction;
            let scale = two_to((1075 - exponent) as u32);
            proof {
                lemma_scaled_down(exponent as nat, digits as nat);
            }
            digits as u128 % scale != 0
        } else if exponent < 2047 {
            proof {
                lemma_whole_multiple(size);
            }
            false
        } else {
            true
        }
    }

    /// The number with `places` decimal places.
    pub fn fixed(&self, places: u32) -> (r: String)
        requires
            places <= 9,
        ensures
            r@ == fixed(self@, places as nat),
    {
        match self.parts() {
            Parts::Nan => "NaN".to_owned(),
            Parts::Infinite(negative) => signed_text(negative, "inf".to_owned()),
            Parts::Finite(negative, size) => {
                let unit = Natural::from_u64(1).shifted(1074);
                proof {
                    lemma_pow2_pos(1074);
                }
                let q = nearest_quotient(&size.times(ten_to(places)), &unit);
                signed_text(negative, with_point(&q, places))
            },
        }
    }
}

} // verus!
