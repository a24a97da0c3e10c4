//! Laws of numbers: rounding to what can be held, arithmetic and order, and the
//! texts that write numbers.
use crate::double::{
    absolute, closest, decoded, excess, fixed, greater_of, lemma_exact, lemma_excess, less,
    lesser_of, minus, multiple, nearest, negated, plus, power_of_ten, quotient, signed, size_of,
    Real, INFINITY, SIGN,
};
use crate::laws::text::law_padded;
use crate::numeral::{
    all_digits, digits_value, exponent_position, is_digit, is_number, is_word, lower, number_value,
    numeric, scaled_by_ten, unsigned,
};
use crate::text::{decimal, padded, position};
use vstd::arithmetic::div_mod::lemma_fundamental_div_mod;
use vstd::arithmetic::power2::{lemma2_to64, lemma_pow2_pos, lemma_pow2_unfold, pow2};
use vstd::prelude::*;

verus! {

/// The nearest whole number to a quotient is at most half away from it, and
/// even where it is half away.
pub proof fn law_nearest(n: nat, d: nat)
    requires
        d > 0,
    ensures
        ({
            let off = 2 * (n - nearest(n, d) * d);
            &&& -(d as int) <= off <= d
            &&& off == d || off == -(d as int) ==> nearest(n, d) % 2 == 0
        }),
{
    lemma_fundamental_div_mod(n as int, d as int);
    let q = (n / d) as int;
    let r = (n % d) as int;
    let m = d as int;
    assert((q + 1) * m == q * m + m) by (nonlinear_arith);
    assert(m * q == q * m) by (nonlinear_arith);
}

/// A quotient is rounded to a number of at most 53 binary digits: the nearest
/// one, and of two that are equally near the one that ends in zero. Numbers that
/// are too great become infinite.
pub proof fn law_closest(negative: bool, n: nat, d: nat) -> (r: (nat, nat))
    requires
        d > 0,
    ensures
        ({
            let (q, k) = r;
            let off = 2 * (n - q * (d * pow2(k)));
            &&& n / d < pow2(53 + k)
            &&& k > 0 ==> n / d >= pow2(52 + k)
            &&& -(d * pow2(k)) <= off <= d * pow2(k)
            &&& off == d * pow2(k) || off == -(d * pow2(k)) ==> q % 2 == 0
            &&& q * pow2(k) < pow2(2098) ==> closest(negative, n, d) == Real::Finite(
                negative,
                q * pow2(k),
            )
            &&& q * pow2(k) >= pow2(2098) ==> closest(negative, n, d) == Real::Infinite(negative)
        }),
{
    let k = excess(n / d);
    lemma_excess(n / d);
    lemma_pow2_pos(k);
    let p = pow2(k);
    assert(d * p > 0) by (nonlinear_arith)
        requires
            d > 0,
            p > 0,
    ;
    law_nearest(n, d * p);
    (nearest(n, d * p), k)
}

/// Sums do not depend on the order, are exact where the result can be held, and
/// differences are sums with the other sign.
pub proof fn law_sums(x: Real, y: Real, q: nat, k: nat)
    requires
        q < 0x20_0000_0000_0000,
        k < 2046,
    ensures
        plus(x, y) == plus(y, x),
        minus(x, y) == plus(x, negated(y)),
        x is Nan || y is Nan ==> plus(x, y) is Nan,
        x is Finite && y is Finite ==> {
            let s = signed(x->Finite_0, x->Finite_1) + signed(y->Finite_0, y->Finite_1);
            &&& s == q * pow2(k) && s > 0 ==> plus(x, y) == Real::Finite(false, q * pow2(k))
            &&& s == -(q * pow2(k)) && s < 0 ==> plus(x, y) == Real::Finite(true, q * pow2(k))
            &&& s == 0 ==> plus(x, y) == Real::Finite(x->Finite_0 && y->Finite_0, 0)
        },
        x is Infinite && y is Finite ==> plus(x, y) == x,
        x is Infinite && y == x ==> plus(x, y) == x,
        x is Infinite && y == negated(x) ==> plus(x, y) is Nan,
{
    lemma_exact(false, q, k);
    lemma_exact(true, q, k);
}

/// Multiples are exact where the result can be held, and a multiple of what is
/// infinite or no number is the same again.
pub proof fn law_multiples(x: Real, m: nat, q: nat, k: nat)
    requires
        q < 0x20_0000_0000_0000,
        k < 2046,
    ensures
        x matches Real::Finite(negative, size) ==> (m * size == q * pow2(k) ==> multiple(x, m)
            == Real::Finite(negative, q * pow2(k))),
        !(x is Finite) ==> multiple(x, m) == x,
{
    if let Real::Finite(negative, size) = x {
        lemma_exact(negative, q, k);
    }
}

/// Quotients are exact where the result can be held. A number divided by zero
/// is infinite, and nothing divided by nothing is no number.
pub proof fn law_quotients(x: Real, y: Real, q: nat, k: nat)
    requires
        q < 0x20_0000_0000_0000,
        k < 2046,
    ensures
        match (x, y) {
            (Real::Finite(a, m), Real::Finite(b, n)) => {
                &&& n > 0 && m * pow2(1074) == (q * pow2(k)) * n ==> quotient(x, y)
                    == Real::Finite(a != b, q * pow2(k))
                &&& n == 0 && m > 0 ==> quotient(x, y) == Real::Infinite(a != b)
                &&& n == 0 && m == 0 ==> quotient(x, y) is Nan
            },
            (Real::Infinite(a), Real::Finite(b, _)) => quotient(x, y) == Real::Infinite(a != b),
            (Real::Finite(a, _), Real::Infinite(b)) => quotient(x, y) == Real::Finite(a != b, 0),
            _ => true,
        },
        x is Nan || y is Nan || x is Infinite && y is Infinite ==> quotient(x, y) is Nan,
{
    if let (Real::Finite(a, m), Real::Finite(b, n)) = (x, y) {
        let c = q * pow2(k);
        if n > 0 && m * pow2(1074) == c * n {
            crate::double::lemma_closest_cancels(a != b, c, n);
            lemma_exact(a != b, q, k);
        }
    }
}

/// Numbers are ordered: none is less than itself, of two different ones one is
/// less, and the order carries over. The other sign turns it round, and what is
/// no number has no place in it.
pub proof fn law_order(x: Real, y: Real, z: Real)
    ensures
        !less(x, x),
        less(x, y) ==> !less(y, x),
        less(x, y) && less(y, z) ==> less(x, z),
        less(x, y) <==> less(negated(y), negated(x)),
        x is Nan || y is Nan ==> !less(x, y),
        x is Finite && y is Finite ==> (less(x, y) <==> signed(x->Finite_0, x->Finite_1) < signed(
            y->Finite_0,
            y->Finite_1,
        )),
        x is Finite ==> less(Real::Infinite(true), x) && less(x, Real::Infinite(false)),
        less(Real::Infinite(true), Real::Infinite(false)),
{
}

/// The greater and the lesser of two numbers are the two, in order; what is no
/// number gives way.
pub proof fn law_extremes(x: Real, y: Real)
    ensures
        greater_of(x, y) == x || greater_of(x, y) == y,
        lesser_of(x, y) == x || lesser_of(x, y) == y,
        !less(greater_of(x, y), x) && !less(greater_of(x, y), y),
        !less(x, lesser_of(x, y)) && !less(y, lesser_of(x, y)),
        x is Nan ==> greater_of(x, y) == y && lesser_of(x, y) == y,
        y is Nan ==> greater_of(x, y) == x && lesser_of(x, y) == x,
        absolute(x) == x || absolute(x) == negated(x),
        x is Finite || x is Infinite ==> !less(absolute(x), Real::Finite(false, 0)),
{
}

/// The bits of numbers count up from zero: with each bit pattern the number
/// grows by the distance of its neighbours, until it is infinite; the highest
/// bit gives the other sign.
pub proof fn law_bits(bits: u64)
    requires
        bits < INFINITY,
    ensures
        decoded(0) == Real::Finite(false, 0),
        decoded(bits) == Real::Finite(false, size_of(bits)),
        bits + 1 < INFINITY ==> size_of((bits + 1) as u64) == size_of(bits) + pow2(
            if bits < 0x10_0000_0000_0000 {
                0
            } else {
                (bits as nat / 0x10_0000_0000_0000 - 1) as nat
            },
        ),
        decoded(INFINITY) == Real::Infinite(false),
        decoded((bits + SIGN) as u64) == negated(decoded(bits)),
{
    lemma2_to64();
    let e = bits as nat / 0x10_0000_0000_0000;
    let f = bits as nat % 0x10_0000_0000_0000;
    let p = pow2((e - 1) as nat);
    if bits + 1 < INFINITY {
        if e == 0 {
            if f == 0xf_ffff_ffff_ffff {
                assert(size_of((bits + 1) as u64) == 0x10_0000_0000_0000nat * pow2(0));
            }
        } else if f == 0xf_ffff_ffff_ffff {
            lemma_pow2_unfold(e);
            let next = pow2(e);
            assert(0x10_0000_0000_0000 * next == 0x1f_ffff_ffff_ffff * p + p) by (nonlinear_arith)
                requires
                    next == 2 * p,
            ;
        } else {
            let q = 0x10_0000_0000_0000 + f;
            assert((q + 1) * p == q * p + p) by (nonlinear_arith);
        }
    }
}

/// A number is written with its sign, its whole part and as many decimal places
/// as asked for: the digits are those of the nearest multiple of the last
/// place.
pub proof fn law_fixed(negative: bool, size: nat, places: nat) -> (r: (nat, nat))
    requires
        places > 0,
    ensures
        ({
            let (units, parts) = r;
            let sign = if negative {
                seq!['-']
            } else {
                seq![]
            };
            &&& fixed(Real::Finite(negative, size), places) == sign + decimal(units).push('.')
                + padded(parts, places)
            &&& parts < power_of_ten(places)
            &&& units * power_of_ten(places) + parts == nearest(
                power_of_ten(places) * size,
                pow2(1074),
            )
            &&& fixed(Real::Finite(negative, size), 0) == sign + decimal(nearest(size, pow2(1074)))
        }),
{
    let scale = power_of_ten(places);
    law_padded(0, places);
    let q = nearest(scale * size, pow2(1074));
    lemma_fundamental_div_mod(q as int, scale as int);
    let units = q / scale;
    assert(scale * units == units * scale) by (nonlinear_arith);
    reveal_strlit(".");
    reveal_strlit("-");
    assert("."@ =~= seq!['.']);
    assert("-"@ =~= seq!['-']);
    let sign = crate::double::sign(negative);
    assert(decimal(units) + "."@ =~= decimal(units).push('.'));
    assert(sign + (decimal(units).push('.') + padded(q % scale, places)) =~= sign + decimal(
        units,
    ).push('.') + padded(q % scale, places));
    assert(1 * size == size) by (nonlinear_arith);
    assert(power_of_ten(0) == 1);
    (units, q % scale)
}

/// Digits are read by their places: digits before others count as many times
/// more as those have places.
pub proof fn law_digits(a: Seq<char>, b: Seq<char>, c: char)
    requires
        all_digits(a),
        all_digits(b),
        is_digit(c),
    ensures
        digits_value(a + b) == digits_value(a) * power_of_ten(b.len()) + digits_value(b),
        digits_value(seq![c]) == c as nat - '0' as nat,
    decreases b.len(),
{
    assert(seq![c].drop_last() =~= Seq::<char>::empty());
    assert(digits_value(Seq::<char>::empty()) == 0);
    let x = digits_value(a) as int;
    if b.len() == 0 {
        assert(a + b =~= a);
        assert(x * 1 == x) by (nonlinear_arith);
    } else {
        let less = b.drop_last();
        assert forall|i: int| 0 <= i < less.len() implies is_digit(#[trigger] less[i]) by {
            assert(is_digit(b[i]));
        }
        law_digits(a, less, c);
        assert((a + b).drop_last() =~= a + less);
        assert(is_digit(b[b.len() - 1]));
        let p = power_of_ten(less.len()) as int;
        assert(10 * (x * p) == x * (10 * p)) by (nonlinear_arith);
    }
}

/// A sign before a number that has none makes it a number again; `+` keeps the
/// number and `-` turns its sign.
pub proof fn law_signs(s: Seq<char>)
    requires
        s.len() > 0,
        s[0] != '+' && s[0] != '-',
    ensures
        is_number(seq!['+'] + s) == is_number(s),
        is_number(seq!['-'] + s) == is_number(s),
        number_value(seq!['+'] + s) == number_value(s),
        number_value(seq!['-'] + s) == negated(number_value(s)),
{
    assert((seq!['+'] + s).drop_first() =~= s);
    assert((seq!['-'] + s).drop_first() =~= s);
}

/// The exponent of a text stands at its first `e`.
proof fn lemma_exponent_position(m: Seq<char>, rest: Seq<char>, from: int)
    requires
        0 <= from <= m.len(),
        forall|i: int| 0 <= i < m.len() ==> lower(#[trigger] m[i]) != 'e',
        rest.len() > 0 ==> lower(rest[0]) == 'e',
    ensures
        exponent_position(m + rest, from) == m.len(),
    decreases m.len() - from,
{
    if from < m.len() {
        assert((m + rest)[from] == m[from]);
        lemma_exponent_position(m, rest, from + 1);
    }
}

/// The first point of digits with a point stands behind the first of them.
proof fn lemma_point(a: Seq<char>, b: Seq<char>, from: int)
    requires
        0 <= from <= a.len(),
        all_digits(a),
    ensures
        position(a.push('.') + b, '.', from) == a.len(),
        position(a, '.', from) == a.len(),
    decreases a.len() - from,
{
    if from < a.len() {
        assert(is_digit(a[from]));
        lemma_point(a, b, from + 1);
    }
}

/// A text that begins with a digit or a point is none of the words.
proof fn lemma_no_word(s: Seq<char>)
    requires
        s.len() > 0,
        is_digit(s[0]) || s[0] == '.',
    ensures
        !is_word(s, "inf"@) && !is_word(s, "infinity"@) && !is_word(s, "nan"@),
        unsigned(s) == s,
{
    reveal_strlit("inf");
    reveal_strlit("infinity");
    reveal_strlit("nan");
    let folded = s.map_values(|c: char| lower(c));
    assert(folded[0] == s[0]);
}

/// Digits, with a point among or beside them and an exponent behind them, are a
/// number: the one that the digits write, times ten to the power of the
/// exponent less the places behind the point.
pub proof fn law_decimal_numbers(
    a: Seq<char>,
    b: Seq<char>,
    e: char,
    minus_sign: bool,
    x: Seq<char>,
)
    requires
        all_digits(a),
        all_digits(b),
        a.len() + b.len() > 0,
        all_digits(x),
        x.len() > 0,
        e == 'e' || e == 'E',
    ensures
        ({
            let mantissa = a.push('.') + b;
            let exponent = if minus_sign {
                seq![e, '-'] + x
            } else {
                seq![e] + x
            };
            let value = digits_value(a + b);
            let power = if minus_sign {
                -(digits_value(x) as int)
            } else {
                digits_value(x) as int
            };
            &&& is_number(mantissa)
            &&& number_value(mantissa) == scaled_by_ten(false, value, -(b.len() as int))
            &&& is_number(mantissa + exponent)
            &&& number_value(mantissa + exponent) == scaled_by_ten(
                false,
                value,
                power - b.len(),
            )
            &&& a.len() > 0 ==> is_number(a) && number_value(a) == scaled_by_ten(
                false,
                digits_value(a),
                0,
            )
        }),
{
    let m = a.push('.') + b;
    let tail = if minus_sign {
        seq!['-'] + x
    } else {
        x
    };
    let exponent = if minus_sign {
        seq![e, '-'] + x
    } else {
        seq![e] + x
    };
    let none = Seq::<char>::empty();
    assert forall|i: int| 0 <= i < m.len() implies lower(#[trigger] m[i]) != 'e' by {
        if i < a.len() {
            assert(is_digit(a[i]));
        } else if i > a.len() {
            assert(is_digit(b[i - a.len() - 1]));
        }
    }
    assert forall|i: int| 0 <= i < a.len() implies lower(#[trigger] a[i]) != 'e' by {
        assert(is_digit(a[i]));
    }
    if a.len() > 0 {
        assert(is_digit(a[0]));
        assert(m[0] == a[0]);
    } else {
        assert(m[0] == '.');
    }
    lemma_point(a, b, 0);
    assert(m.take(a.len() as int) =~= a);
    assert(m.skip(a.len() as int + 1) =~= b);
    lemma_no_word(m);
    lemma_exponent_position(m, none, 0);
    assert(m + none =~= m);
    assert(m.take(m.len() as int) =~= m);
    let all = m + exponent;
    lemma_no_word(all);
    lemma_exponent_position(m, exponent, 0);
    assert(all.take(m.len() as int) =~= m);
    assert(all.skip(m.len() as int + 1) =~= tail);
    assert(is_digit(x[0]));
    assert((seq!['-'] + x).drop_first() =~= x);
    if a.len() > 0 {
        lemma_no_word(a);
        lemma_exponent_position(a, none, 0);
        assert(a + none =~= a);
        assert(a.take(a.len() as int) =~= a);
    }
}

/// A text is a word, whatever the case of its letters, exactly when it has the
/// letters of the word, each small or capital.
pub proof fn law_words_in_any_case(s: Seq<char>, w: Seq<char>)
    requires
        forall|i: int| 0 <= i < w.len() ==> 'a' <= #[trigger] w[i] <= 'z',
    ensures
        is_word(s, w) <==> s.len() == w.len() && forall|i: int|
            0 <= i < s.len() ==> #[trigger] s[i] == w[i] || s[i] as u32 + 32 == w[i] as u32,
{
    let folded = s.map_values(|c: char| lower(c));
    if folded == w {
        assert forall|i: int| 0 <= i < s.len() implies #[trigger] s[i] == w[i] || s[i] as u32 + 32
            == w[i] as u32 by {
            assert(folded[i] == lower(s[i]));
        }
    }
    if s.len() == w.len() && forall|i: int|
        0 <= i < s.len() ==> #[trigger] s[i] == w[i] || s[i] as u32 + 32 == w[i] as u32 {
        assert forall|i: int| 0 <= i < s.len() implies folded[i] == w[i] by {
            assert('a' <= w[i] <= 'z');
            assert(s[i] == w[i] || s[i] as u32 + 32 == w[i] as u32);
        }
        assert(folded =~= w);
    }
}

/// Whether a character may stand in a number that is written in digits.
pub open spec fn is_numeral_char(c: char) -> bool {
    is_digit(c) || c == '.' || c == 'e' || c == 'E' || c == '+' || c == '-'
}

/// A number is one of the words, or it holds a digit and nothing but digits,
/// signs, a point and the letter of the exponent; the empty text is none.
pub proof fn law_nothing_else_is_a_number(s: Seq<char>)
    requires
        is_number(s),
        !is_word(unsigned(s), "inf"@),
        !is_word(unsigned(s), "infinity"@),
        !is_word(unsigned(s), "nan"@),
    ensures
        forall|i: int| 0 <= i < s.len() ==> is_numeral_char(#[trigger] s[i]),
        exists|i: int| 0 <= i < s.len() && is_digit(#[trigger] s[i]),
{
    let body = unsigned(s);
    let shift = s.len() - body.len();
    let e = exponent_position(body, 0);
    lemma_exponent_bounds(body, 0);
    let m = body.take(e);
    let dot = position(m, '.', 0);
    crate::text::lemma_position_bounds(m, '.', 0);
    assert forall|i: int| 0 <= i < body.len() implies #[trigger] body[i] == s[i + shift] by {}
    assert forall|i: int| 0 <= i < body.len() implies is_numeral_char(#[trigger] body[i]) by {
        if i < e {
            assert(body[i] == m[i]);
            if dot < m.len() {
                lemma_position_at(m, '.', 0);
                if i < dot {
                    assert(is_digit(m.take(dot)[i]));
                } else if i > dot {
                    assert(is_digit(m.skip(dot + 1)[i - dot - 1]));
                }
            } else {
                assert(is_digit(m[i]));
            }
        } else if i > e {
            let x = body.skip(e + 1);
            assert(body[i] == x[i - e - 1]);
            if unsigned(x) != x {
                if i > e + 1 {
                    assert(is_digit(unsigned(x)[i - e - 2]));
                }
            } else {
                assert(is_digit(x[i - e - 1]));
            }
        }
    }
    assert forall|i: int| 0 <= i < s.len() implies is_numeral_char(#[trigger] s[i]) by {
        if i >= shift {
            assert(is_numeral_char(body[i - shift]));
        }
    }
    if dot < m.len() {
        if dot > 0 {
            assert(is_digit(m.take(dot)[0]));
            assert(is_digit(s[shift]));
        } else {
            assert(is_digit(m.skip(dot + 1)[0]));
            assert(m.skip(dot + 1)[0] == s[shift + 1]);
            assert(is_digit(s[shift + 1]));
        }
    } else {
        assert(is_digit(m[0]));
        assert(is_digit(s[shift]));
    }
}

/// The exponent stands in the text or at its end, at an `e`.
proof fn lemma_exponent_bounds(s: Seq<char>, from: int)
    requires
        0 <= from <= s.len(),
    ensures
        from <= exponent_position(s, from) <= s.len(),
        exponent_position(s, from) < s.len() ==> lower(s[exponent_position(s, from)]) == 'e',
    decreases s.len() - from,
{
    if from < s.len() && lower(s[from]) != 'e' {
        lemma_exponent_bounds(s, from + 1);
    }
}

/// A character stands at its position.
proof fn lemma_position_at(s: Seq<char>, c: char, from: int)
    requires
        0 <= from <= s.len(),
        position(s, c, from) < s.len(),
    ensures
        s[position(s, c, from)] == c,
    decreases s.len() - from,
{
    if from < s.len() && s[from] != c {
        lemma_position_at(s, c, from + 1);
    }
}

/// A text gives a number exactly when it writes one, and then the nearest to
/// what it writes; no text gives none.
pub proof fn law_numeric(s: Seq<char>, negative: bool, n: nat, power: nat)
    ensures
        numeric(Some(s)) is Some <==> is_number(s),
        is_number(s) ==> numeric(Some(s)) == Some(number_value(s)),
        numeric(None) is None,
        scaled_by_ten(negative, n, power as int) == closest(
            negative,
            n * power_of_ten(power) * pow2(1074),
            1,
        ),
        power > 0 ==> scaled_by_ten(negative, n, -(power as int)) == closest(
            negative,
            n * pow2(1074),
            power_of_ten(power),
        ),
        power_of_ten(0) == 1,
        power_of_ten(power + 1) == 10 * power_of_ten(power),
{
}

/// The words for infinity and for no number, with any sign, are such.
pub proof fn law_infinite_numbers()
    ensures
        is_number("inf"@) && number_value("inf"@) == Real::Infinite(false),
        is_number("infinity"@) && number_value("infinity"@) == Real::Infinite(false),
        is_number("nan"@) && number_value("nan"@) == Real::Nan,
        !is_number(Seq::<char>::empty()),
{
    reveal_strlit("inf");
    reveal_strlit("infinity");
    reveal_strlit("nan");
    law_words_in_any_case("inf"@, "inf"@);
    law_words_in_any_case("infinity"@, "infinity"@);
    law_words_in_any_case("nan"@, "nan"@);
    law_words_in_any_case("nan"@, "inf"@);
    law_words_in_any_case("nan"@, "infinity"@);
    let none = Seq::<char>::empty();
    assert(unsigned("inf"@) == "inf"@ && unsigned("infinity"@) == "infinity"@ && unsigned("nan"@)
        == "nan"@);
    assert("nan"@[0] == 'n' && "inf"@[0] == 'i');
    law_words_in_any_case(none, "inf"@);
    law_words_in_any_case(none, "infinity"@);
    law_words_in_any_case(none, "nan"@);
    assert(none.take(0) =~= none);
}

} // verus!
