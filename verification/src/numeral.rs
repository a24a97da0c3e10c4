//! Numbers as they are written: the texts that write floating-point numbers,
//! and the numbers that they write.
use crate::double::{
    closest, closest_double, infinity, lemma_closest_infinite, lemma_closest_zero, not_a_number,
    power_of_ten, signed, signed_zero, Double, Real,
};
use crate::natural::Natural;
use crate::text::{chars_of, find, lemma_position_bounds, optional, position, same_chars};
use vstd::arithmetic::power2::{
    lemma2_to64, lemma_pow2_adds, lemma_pow2_pos, lemma_pow2_strictly_increases, lemma_pow2_unfold,
    pow2,
};
use vstd::prelude::*;
use vstd::slice::slice_subrange;

verus! {

/// Whether `c` is a decimal digit.
pub open spec fn is_digit(c: char) -> bool {
    '0' <= c <= '9'
}

/// Whether `s` holds nothing but decimal digits.
pub open spec fn all_digits(s: Seq<char>) -> bool {
    forall|i: int| 0 <= i < s.len() ==> is_digit(#[trigger] s[i])
}

/// `s` without a sign at its start.
pub open spec fn unsigned(s: Seq<char>) -> Seq<char> {
    if s.len() > 0 && (s[0] == '+' || s[0] == '-') {
        s.drop_first()
    } else {
        s
    }
}

/// An ASCII letter in lower case, any other character as it is.
pub open spec fn lower(c: char) -> char {
    if 'A' <= c <= 'Z' {
        (c as u32 + 32) as char
    } else {
        c
    }
}

/// Whether `s` is the word `w` when the case of letters is ignored.
pub open spec fn is_word(s: Seq<char>, w: Seq<char>) -> bool {
    s.map_values(|c: char| lower(c)) == w
}

/// The first `e` or `E` at or after `from`, or the length of `s`.
pub open spec fn exponent_position(s: Seq<char>, from: int) -> int
    decreases s.len() - from,
{
    if from >= s.len() {
        s.len() as int
    } else if lower(s[from]) == 'e' {
        from
    } else {
        exponent_position(s, from + 1)
    }
}

/// Whether `s` is one or more digits with at most one point among or beside
/// them.
pub open spec fn is_mantissa(s: Seq<char>) -> bool {
    let dot = position(s, '.', 0);
    if dot < s.len() {
        s.len() > 1 && all_digits(s.take(dot)) && all_digits(s.skip(dot + 1))
    } else {
        s.len() > 0 && all_digits(s)
    }
}

/// Whether `s` is digits, with or without a sign before them.
pub open spec fn is_exponent(s: Seq<char>) -> bool {
    unsigned(s).len() > 0 && all_digits(unsigned(s))
}

/// Whether `s` is a floating-point number: a sign or none, then digits with
/// or without a point and an exponent, or one of the words for infinity and
/// for no number.
pub open spec fn is_number(s: Seq<char>) -> bool {
    let body = unsigned(s);
    let e = exponent_position(body, 0);
    ||| is_word(body, "inf"@)
    ||| is_word(body, "infinity"@)
    ||| is_word(body, "nan"@)
    ||| is_mantissa(body.take(e)) && (e == body.len() || is_exponent(body.skip(e + 1)))
}

/// The number that some digits write.
pub open spec fn digits_value(s: Seq<char>) -> nat
    decreases s.len(),
{
    if s.len() == 0 {
        0
    } else {
        10 * digits_value(s.drop_last()) + (s.last() as nat - 48) as nat
    }
}

/// The digits of a mantissa, without its point.
pub open spec fn mantissa_digits(s: Seq<char>) -> Seq<char> {
    let dot = position(s, '.', 0);
    if dot < s.len() {
        s.take(dot) + s.skip(dot + 1)
    } else {
        s
    }
}

/// How many digits of a mantissa stand after its point.
pub open spec fn mantissa_places(s: Seq<char>) -> nat {
    let dot = position(s, '.', 0);
    if dot < s.len() {
        (s.len() - dot - 1) as nat
    } else {
        0
    }
}

/// The value of an exponent.
pub open spec fn exponent_value(s: Seq<char>) -> int {
    signed(s[0] == '-', digits_value(unsigned(s)))
}

/// The floating-point number nearest to a number times a power of ten.
pub open spec fn scaled_by_ten(negative: bool, n: nat, power: int) -> Real {
    if power >= 0 {
        closest(negative, n * power_of_ten(power as nat) * pow2(1074), 1)
    } else {
        closest(negative, n * pow2(1074), power_of_ten((-power) as nat))
    }
}

/// The floating-point number that a text writes: the nearest to what it says.
pub open spec fn number_value(s: Seq<char>) -> Real {
    let negative = s[0] == '-';
    let body = unsigned(s);
    if is_word(body, "inf"@) || is_word(body, "infinity"@) {
        Real::Infinite(negative)
    } else if is_word(body, "nan"@) {
        Real::Nan
    } else {
        let e = exponent_position(body, 0);
        let mantissa = body.take(e);
        let exponent = if e < body.len() {
            exponent_value(body.skip(e + 1))
        } else {
            0
        };
        scaled_by_ten(
            negative,
            digits_value(mantissa_digits(mantissa)),
            exponent - mantissa_places(mantissa),
        )
    }
}

/// The number that a text writes, where it writes one.
pub open spec fn numeric(s: Option<Seq<char>>) -> Option<Real> {
    match s {
        Some(t) => if is_number(t) {
            Some(number_value(t))
        } else {
            None
        },
        None => None,
    }
}

/// What an optional number stands for.
pub open spec fn number_in(v: Option<Double>) -> Option<Real> {
    match v {
        Some(x) => Some(x@),
        None => None,
    }
}

/// Whether the slice holds nothing but decimal digits.
fn only_digits(s: &[char]) -> (r: bool)
    ensures
        r == all_digits(s@),
{
    let mut i: usize = 0;
    while i < s.len()
        invariant
            i <= s.len(),
            forall|k: int| 0 <= k < i ==> is_digit(#[trigger] s@[k]),
        decreases s.len() - i,
    {
        if !('0' <= s[i] && s[i] <= '9') {
            assert(!is_digit(s@[i as int]));
            return false;
        }
        i = i + 1;
    }
    true
}

/// The slice without a sign at its start.
fn skip_sign(s: &[char]) -> (r: &[char])
    ensures
        r@ == unsigned(s@),
{
    if s.len() > 0 && (s[0] == '+' || s[0] == '-') {
        slice_subrange(s, 1, s.len())
    } else {
        s
    }
}

/// An ASCII letter in lower case, any other character as it is.
fn to_lower(c: char) -> (r: char)
    ensures
        r == lower(c),
{
    if 'A' <= c && c <= 'Z' {
        (c as u8 + 32) as char
    } else {
        c
    }
}

/// Whether the slice is the word `w` when the case of letters is ignored.
fn matches_word(s: &[char], w: &str) -> (r: bool)
    ensures
        r == is_word(s@, w@),
{
    let mut folded: Vec<char> = Vec::new();
    let mut i: usize = 0;
    while i < s.len()
        invariant
            i <= s.len(),
            folded@ == s@.take(i as int).map_values(|c: char| lower(c)),
        decreases s.len() - i,
    {
        folded.push(to_lower(s[i]));
        i = i + 1;
        assert(folded@ =~= s@.take(i as int).map_values(|c: char| lower(c)));
    }
    assert(s@.take(i as int) =~= s@);
    same_chars(folded.as_slice(), chars_of(w).as_slice())
}

/// Whether the slice is one or more digits with at most one point.
fn mantissa(s: &[char]) -> (r: bool)
    ensures
        r == is_mantissa(s@),
{
    let dot = find(s, '.', 0);
    if dot < s.len() {
        s.len() > 1 && only_digits(slice_subrange(s, 0, dot)) && only_digits(
            slice_subrange(s, dot + 1, s.len()),
        )
    } else {
        s.len() > 0 && only_digits(s)
    }
}

/// Whether the slice is a floating-point number.
pub fn number_like(s: &[char]) -> (r: bool)
    ensures
        r == is_number(s@),
{
    let body = skip_sign(s);
    if matches_word(body, "inf") || matches_word(body, "infinity") || matches_word(body, "nan") {
        return true;
    }
    let e = find_exponent(body);
    if !mantissa(slice_subrange(body, 0, e)) {
        return false;
    }
    if e == body.len() {
        return true;
    }
    let digits = skip_sign(slice_subrange(body, e + 1, body.len()));
    digits.len() > 0 && only_digits(digits)
}

/// Where the exponent of a number stands.
fn find_exponent(s: &[char]) -> (e: usize)
    ensures
        e == exponent_position(s@, 0),
        e <= s.len(),
{
    let mut e: usize = 0;
    while e < s.len() && to_lower(s[e]) != 'e'
        invariant
            e <= s.len(),
            exponent_position(s@, 0) == exponent_position(s@, e as int),
        decreases s.len() - e,
    {
        e = e + 1;
    }
    e
}

/// A number times a power of ten.
fn times_ten_to_the(n: &Natural, power: &Natural) -> (r: Natural)
    ensures
        r@ == n@ * power_of_ten(power@),
{
    let mut r = n.copy();
    let one = Natural::from_u64(1);
    let nine = Natural::from_u64(9);
    let mut left = power.copy();
    let ghost mut done: nat = 0;
    assert(n@ * 1 == n@) by (nonlinear_arith);
    while !left.less(&nine)
        invariant
            nine@ == 9,
            done + left@ == power@,
            r@ == n@ * power_of_ten(done),
        decreases left@,
    {
        r = r.times(1_000_000_000);
        left = left.minus(&nine);
        proof {
            let x = n@ as int;
            let y = power_of_ten(done) as int;
            assert(1_000_000_000 * (x * y) == x * (1_000_000_000 * y)) by (nonlinear_arith);
            lemma_nine_places();
            lemma_ten_adds(9, done);
            done = done + 9;
        }
    }
    while !left.is_zero()
        invariant
            one@ == 1,
            done + left@ == power@,
            r@ == n@ * power_of_ten(done),
        decreases left@,
    {
        r = r.times(10);
        left = left.minus(&one);
        proof {
            let x = n@ as int;
            let y = power_of_ten(done) as int;
            assert(10 * (x * y) == x * (10 * y)) by (nonlinear_arith);
            done = done + 1;
        }
    }
    r
}

/// Ten to the power of nine.
proof fn lemma_nine_places()
    ensures
        power_of_ten(9) == 1_000_000_000,
{
    reveal_with_fuel(power_of_ten, 10);
}

/// The number that some digits write.
fn read_digits(s: &[char]) -> (r: Natural)
    requires
        all_digits(s@),
    ensures
        r@ == digits_value(s@),
{
    let mut r = Natural::from_u64(0);
    let mut scale: u32 = 1;
    let mut tail: u32 = 0;
    let mut i: usize = 0;
    while i < s.len()
        invariant
            i <= s.len(),
            all_digits(s@),
            tail < scale <= 100_000_000,
            digits_value(s@.take(i as int)) == scale * r@ + tail,
        decreases s.len() - i,
    {
        assert(is_digit(s@[i as int]));
        assert(s@.take(i + 1).drop_last() =~= s@.take(i as int));
        let d: u32 = s[i] as u32 - 48;
        proof {
            let x = r@ as int;
            let y = scale as int;
            assert(10 * (y * x) == (10 * y) * x) by (nonlinear_arith);
        }
        scale = 10 * scale;
        tail = 10 * tail + d;
        if scale > 100_000_000 {
            r = r.times_plus(scale, tail);
            scale = 1;
            tail = 0;
        }
        assert(1 * r@ == r@) by (nonlinear_arith);
        i = i + 1;
    }
    assert(s@.take(i as int) =~= s@);
    r.times_plus(scale, tail)
}

/// Ten is more than eight: a power of ten is at least a power of two.
proof fn lemma_ten_and_two(n: nat)
    ensures
        power_of_ten(n) >= pow2(3 * n),
    decreases n,
{
    lemma2_to64();
    if n > 0 {
        lemma_ten_and_two((n - 1) as nat);
        lemma_pow2_adds(3, (3 * n - 3) as nat);
    }
}

/// Powers of ten multiply.
proof fn lemma_ten_adds(a: nat, b: nat)
    ensures
        power_of_ten(a + b) == power_of_ten(a) * power_of_ten(b),
    decreases a,
{
    if a == 0 {
        assert(1 * power_of_ten(b) == power_of_ten(b)) by (nonlinear_arith);
    } else {
        lemma_ten_adds((a - 1) as nat, b);
        let x = power_of_ten((a - 1) as nat) as int;
        let y = power_of_ten(b) as int;
        assert(10 * (x * y) == (10 * x) * y) by (nonlinear_arith);
    }
}

/// Digits write a number below a power of ten.
proof fn lemma_digits_bound(s: Seq<char>)
    requires
        all_digits(s),
    ensures
        digits_value(s) < power_of_ten(s.len()),
    decreases s.len(),
{
    if s.len() > 0 {
        assert(is_digit(s[s.len() - 1]));
        assert(all_digits(s.drop_last()));
        lemma_digits_bound(s.drop_last());
    }
}

/// A number that is not zero, times a high power of ten, is too great.
proof fn lemma_too_great(negative: bool, n: nat, power: nat)
    requires
        n > 0,
        power > 400,
    ensures
        scaled_by_ten(negative, n, power as int) == Real::Infinite(negative),
{
    lemma_ten_and_two(power);
    lemma_pow2_strictly_increases(1200, 3 * power);
    lemma_pow2_adds(1200, 1074);
    lemma_pow2_strictly_increases(2098, 2274);
    lemma_pow2_pos(1074);
    let t = power_of_ten(power) as int;
    let p = pow2(1200) as int;
    let u = pow2(1074) as int;
    assert(n * t >= p) by (nonlinear_arith)
        requires
            n > 0,
            t >= p,
            p >= 0,
    ;
    let nt = n * t;
    assert(nt * u >= p * u) by (nonlinear_arith)
        requires
            nt >= p,
            u > 0,
    ;
    lemma_closest_infinite(negative, (nt * u) as nat);
}

/// A number of some digits, divided by a power of ten far beyond them, is next
/// to nothing.
proof fn lemma_too_small(negative: bool, n: nat, len: nat, power: nat)
    requires
        n < power_of_ten(len),
        power > len + 400,
    ensures
        scaled_by_ten(negative, n, -(power as int)) == Real::Finite(negative, 0),
{
    let rest = (power - len) as nat;
    lemma_ten_adds(len, rest);
    lemma_ten_and_two(rest);
    lemma_pow2_strictly_increases(1200, 3 * rest);
    lemma_pow2_strictly_increases(1075, 1200);
    lemma_pow2_unfold(1075);
    lemma_pow2_pos(1074);
    let a = power_of_ten(len) as int;
    let b = power_of_ten(rest) as int;
    let u = pow2(1074) as int;
    assert(2 * (n * u) < a * b) by (nonlinear_arith)
        requires
            0 <= n < a,
            0 < 2 * u < b,
    ;
    lemma_closest_zero(negative, (n * u) as nat, power_of_ten(power));
}

/// The floating-point number nearest to a number of at most `len` digits times
/// a power of ten.
fn scale_by_ten(negative: bool, n: &Natural, len: usize, down: bool, power: &Natural) -> (r:
    Double)
    requires
        n@ < power_of_ten(len as nat),
    ensures
        r@ == scaled_by_ten(negative, n@, signed(down, power@)),
{
    let far = Natural::from_u64(400);
    if n.is_zero() {
        proof {
            lemma_nothing(negative, signed(down, power@));
        }
        return signed_zero(negative);
    }
    let one = Natural::from_u64(1);
    if !down || power.is_zero() {
        if far.less(power) {
            proof {
                lemma_too_great(negative, n@, power@);
            }
            return infinity(negative);
        }
        closest_double(negative, &times_ten_to_the(n, power).shifted(1074), &one)
    } else if Natural::from_u64(len as u64).plus(&far).less(power) {
        proof {
            lemma_too_small(negative, n@, len as nat, power@);
        }
        signed_zero(negative)
    } else {
        let d = times_ten_to_the(&one, power);
        proof {
            let t = power_of_ten(power@) as int;
            assert(1 * t == t) by (nonlinear_arith);
            lemma_ten_and_two(power@);
            lemma_pow2_pos(3 * power@);
        }
        closest_double(negative, &n.shifted(1074), &d)
    }
}

/// Nothing stays nothing.
proof fn lemma_nothing(negative: bool, power: int)
    ensures
        scaled_by_ten(negative, 0, power) == Real::Finite(negative, 0),
{
    if power >= 0 {
        let t = power_of_ten(power as nat) as int;
        let u = pow2(1074) as int;
        assert(0 * t * u == 0) by (nonlinear_arith);
        lemma_closest_zero(negative, 0, 1);
    } else {
        let u = pow2(1074) as int;
        assert(0 * u == 0) by (nonlinear_arith);
        lemma_ten_and_two((-power) as nat);
        lemma_pow2_pos(3 * ((-power) as nat));
        lemma_closest_zero(negative, 0, power_of_ten((-power) as nat));
    }
}

/// The digits of a mantissa, without its point.
fn drop_point(s: &[char]) -> (r: (Vec<char>, usize))
    ensures
        r.0@ == mantissa_digits(s@),
        r.1 == mantissa_places(s@),
{
    let dot = find(s, '.', 0);
    let mut digits: Vec<char> = Vec::new();
    let mut i: usize = 0;
    while i < s.len()
        invariant
            i <= s.len(),
            dot == position(s@, '.', 0),
            digits@ == if i <= dot {
                s@.take(i as int)
            } else {
                s@.take(dot as int) + s@.subrange(dot + 1, i as int)
            },
        decreases s.len() - i,
    {
        if i != dot {
            digits.push(s[i]);
        }
        i = i + 1;
        if i <= dot {
            assert(digits@ =~= s@.take(i as int));
        } else {
            assert(digits@ =~= s@.take(dot as int) + s@.subrange(dot + 1, i as int));
        }
    }
    if dot < s.len() {
        assert(digits@ =~= mantissa_digits(s@));
        (digits, s.len() - dot - 1)
    } else {
        assert(digits@ =~= mantissa_digits(s@));
        (digits, 0)
    }
}

/// The floating-point number that a mantissa and an exponent write.
fn read_parts(negative: bool, body: &[char]) -> (r: Double)
    requires
        ({
            let e = exponent_position(body@, 0);
            is_mantissa(body@.take(e)) && (e == body@.len() || is_exponent(body@.skip(e + 1)))
        }),
    ensures
        ({
            let e = exponent_position(body@, 0);
            let mantissa = body@.take(e);
            let exponent = if e < body@.len() {
                exponent_value(body@.skip(e + 1))
            } else {
                0
            };
            r@ == scaled_by_ten(
                negative,
                digits_value(mantissa_digits(mantissa)),
                exponent - mantissa_places(mantissa),
            )
        }),
{
    let e = find_exponent(body);
    let mantissa = slice_subrange(body, 0, e);
    assert(mantissa@ =~= body@.take(e as int));
    let (digits, places) = drop_point(mantissa);
    assert(all_digits(digits@)) by {
        let m = mantissa@;
        let dot = position(m, '.', 0);
        lemma_position_bounds(m, '.', 0);
        if dot < m.len() {
            assert forall|i: int| 0 <= i < digits@.len() implies is_digit(#[trigger] digits@[i]) by {
                if i < dot {
                    assert(is_digit(m.take(dot)[i]));
                } else {
                    assert(is_digit(m.skip(dot + 1)[i - dot]));
                }
            }
        }
    }
    let n = read_digits(digits.as_slice());
    proof {
        lemma_digits_bound(digits@);
    }
    let mut down = false;
    let mut power = Natural::from_u64(0);
    if e < body.len() {
        let rest = slice_subrange(body, e + 1, body.len());
        assert(rest@ =~= body@.skip(e + 1));
        assert(unsigned(rest@).len() > 0);
        down = rest[0] == '-';
        power = read_digits(skip_sign(rest));
    }
    let drop = Natural::from_u64(places as u64);
    if down {
        power = power.plus(&drop);
    } else if power.less(&drop) {
        power = drop.minus(&power);
        down = true;
    } else {
        power = power.minus(&drop);
    }
    scale_by_ten(negative, &n, digits.len(), down, &power)
}

/// The floating-point number that a text writes, where it writes one.
pub fn read_number(s: Option<String>) -> (r: Option<Double>)
    ensures
        number_in(r) == numeric(optional(s)),
{
    let text = match s {
        Some(t) => t,
        None => {
            return None;
        },
    };
    let chars = chars_of(text.as_str());
    let all = chars.as_slice();
    if !number_like(all) {
        return None;
    }
    assert(unsigned(all@).len() > 0) by {
        lemma_some_body(all@);
    }
    let negative = all[0] == '-';
    let body = skip_sign(all);
    if matches_word(body, "inf") || matches_word(body, "infinity") {
        Some(infinity(negative))
    } else if matches_word(body, "nan") {
        Some(not_a_number())
    } else {
        Some(read_parts(negative, body))
    }
}

/// A number has something beside its sign.
proof fn lemma_some_body(s: Seq<char>)
    requires
        is_number(s),
    ensures
        unsigned(s).len() > 0,
{
    reveal_strlit("inf");
    reveal_strlit("infinity");
    reveal_strlit("nan");
    let body = unsigned(s);
    if body.len() == 0 {
        assert(body.map_values(|c: char| lower(c)).len() == 0);
        assert(body.take(0).len() == 0);
    }
}

} // verus!
