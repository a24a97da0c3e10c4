//! Natural numbers of any size.
use crate::text::{decimal, digit};
use vstd::arithmetic::div_mod::{lemma_fundamental_div_mod, lemma_fundamental_div_mod_converse};
use vstd::arithmetic::power2::{lemma2_to64, lemma_pow2_adds, lemma_pow2_unfold, pow2};
use vstd::prelude::*;

verus! {

/// The number `x` with the digits `s` to the base of 2^32 written behind it,
/// the highest first.
pub open spec fn extended(x: nat, s: Seq<u32>) -> nat
    decreases s.len(),
{
    if s.len() == 0 {
        x
    } else {
        0x1_0000_0000 * extended(x, s.drop_last()) + s.last() as nat
    }
}

/// The number whose digits to the base of 2^32 are `s`, the highest first.
pub open spec fn value(s: Seq<u32>) -> nat {
    extended(0, s)
}

/// A natural number.
#[derive(Debug)]
pub struct Natural {
    digits: Vec<u32>,
}

impl View for Natural {
    type V = nat;

    closed spec fn view(&self) -> nat {
        value(self.digits@)
    }
}

/// One more digit.
proof fn lemma_push(s: Seq<u32>, d: u32)
    ensures
        value(s.push(d)) == 0x1_0000_0000 * value(s) + d,
{
    assert(s.push(d).drop_last() =~= s);
}

/// The first digits and one more.
proof fn lemma_take(s: Seq<u32>, i: int)
    requires
        0 <= i < s.len(),
    ensures
        value(s.take(i + 1)) == 0x1_0000_0000 * value(s.take(i)) + s[i],
{
    assert(s.take(i + 1).drop_last() =~= s.take(i));
}

/// A digit of a product.
proof fn lemma_times_digit(m: int, rest: int, x: int, carry: int, low: int, high: int)
    by (nonlinear_arith)
    requires
        m * x + carry == low + 0x1_0000_0000 * high,
    ensures
        0x1_0000_0000 * (m * rest + high) + low == m * (0x1_0000_0000 * rest + x) + carry,
{
}

/// A digit of a product and its carry are in range.
proof fn lemma_times_range(m: int, x: int, carry: int)
    by (nonlinear_arith)
    requires
        0 <= m < 0x1_0000_0000,
        0 <= x < 0x1_0000_0000,
        0 <= carry < 0x1_0000_0000,
    ensures
        0 <= m * x + carry < 0x1_0000_0000 * 0x1_0000_0000,
{
}

/// A digit of a quotient.
proof fn lemma_quotient_digit(d: int, q: int, r: int, x: int, c: int, rest: int)
    by (nonlinear_arith)
    requires
        0x1_0000_0000 * r + x == d * c + rest,
    ensures
        0x1_0000_0000 * (d * q + r) + x == d * (0x1_0000_0000 * q + c) + rest,
{
}

/// A digit before others is the lowest of what they are written behind.
proof fn lemma_front(x: nat, d: u32, s: Seq<u32>)
    ensures
        extended(x, seq![d] + s) == extended(0x1_0000_0000 * x + d as nat, s),
    decreases s.len(),
{
    let all = seq![d] + s;
    if s.len() == 0 {
        reveal_with_fuel(extended, 2);
        assert(all.drop_last() =~= Seq::<u32>::empty());
    } else {
        assert(all.drop_last() =~= seq![d] + s.drop_last());
        lemma_front(x, d, s.drop_last());
    }
}

/// One more digit, where the lowest comes first.
proof fn lemma_next(x: nat, low: Seq<u32>, d: u32)
    ensures
        extended(x, low.push(d).reverse()) == extended(
            0x1_0000_0000 * x + d as nat,
            low.reverse(),
        ),
{
    assert(low.push(d).reverse() =~= seq![d] + low.reverse());
    lemma_front(x, d, low.reverse());
}

/// A number whose highest digit is not zero is not zero.
proof fn lemma_positive(s: Seq<u32>)
    requires
        s.len() > 0,
        s[0] != 0,
    ensures
        value(s) > 0,
    decreases s.len(),
{
    if s.len() > 1 {
        lemma_positive(s.drop_last());
    }
}

/// The digits of a number times `m`, plus `c`, the lowest first.
fn times_digits(s: &[u32], m: u32, c: u32) -> (r: Vec<u32>)
    ensures
        value(r@.reverse()) == m * value(s@) + c,
{
    let mut r: Vec<u32> = Vec::new();
    let mut carry: u32 = c;
    let mut i: usize = s.len();
    assert(s@.take(i as int) =~= s@);
    assert(r@.reverse() =~= Seq::<u32>::empty());
    while i > 0
        invariant
            i <= s.len(),
            extended(m as nat * value(s@.take(i as int)) + carry as nat, r@.reverse()) == m
                * value(s@) + c,
        decreases i,
    {
        let x = s[i - 1];
        proof {
            lemma_times_range(m as int, x as int, carry as int);
            lemma_take(s@, i - 1);
        }
        let t: u64 = m as u64 * x as u64 + carry as u64;
        let low: u32 = (t % 0x1_0000_0000) as u32;
        let high: u32 = (t / 0x1_0000_0000) as u32;
        proof {
            let rest = value(s@.take(i - 1));
            lemma_times_digit(
                m as int,
                rest as int,
                x as int,
                carry as int,
                low as int,
                high as int,
            );
            assert(m * rest >= 0) by (nonlinear_arith);
            lemma_next(m as nat * rest + high as nat, r@, low);
        }
        r.push(low);
        carry = high;
        i = i - 1;
    }
    proof {
        assert(m * 0 == 0) by (nonlinear_arith);
        lemma_next(0, r@, carry);
    }
    r.push(carry);
    r
}

/// The digits of a sum, the lowest first.
fn plus_digits(a: &[u32], b: &[u32]) -> (r: Vec<u32>)
    requires
        a.len() == b.len(),
    ensures
        value(r@.reverse()) == value(a@) + value(b@),
{
    let mut r: Vec<u32> = Vec::new();
    let mut carry: u32 = 0;
    let mut i: usize = a.len();
    assert(a@.take(i as int) =~= a@);
    assert(b@.take(i as int) =~= b@);
    assert(r@.reverse() =~= Seq::<u32>::empty());
    while i > 0
        invariant
            i <= a.len(),
            a.len() == b.len(),
            carry <= 1,
            extended(
                value(a@.take(i as int)) + value(b@.take(i as int)) + carry as nat,
                r@.reverse(),
            ) == value(a@) + value(b@),
        decreases i,
    {
        proof {
            lemma_take(a@, i - 1);
            lemma_take(b@, i - 1);
        }
        let t: u64 = a[i - 1] as u64 + b[i - 1] as u64 + carry as u64;
        let low: u32 = (t % 0x1_0000_0000) as u32;
        let high: u32 = (t / 0x1_0000_0000) as u32;
        proof {
            lemma_next(value(a@.take(i - 1)) + value(b@.take(i - 1)) + high as nat, r@, low);
        }
        r.push(low);
        carry = high;
        i = i - 1;
    }
    proof {
        lemma_next(0, r@, carry);
    }
    r.push(carry);
    r
}

/// The digits of a difference, the lowest first.
fn minus_digits(a: &[u32], b: &[u32]) -> (r: Vec<u32>)
    requires
        a.len() == b.len(),
        value(a@) >= value(b@),
    ensures
        value(r@.reverse()) == value(a@) - value(b@),
{
    let mut r: Vec<u32> = Vec::new();
    let mut borrow: u32 = 0;
    let mut i: usize = a.len();
    assert(a@.take(i as int) =~= a@);
    assert(b@.take(i as int) =~= b@);
    assert(r@.reverse() =~= Seq::<u32>::empty());
    while i > 0
        invariant
            i <= a.len(),
            a.len() == b.len(),
            borrow <= 1,
            value(a@.take(i as int)) >= value(b@.take(i as int)) + borrow,
            extended(
                (value(a@.take(i as int)) - value(b@.take(i as int)) - borrow) as nat,
                r@.reverse(),
            ) == value(a@) - value(b@),
        decreases i,
    {
        proof {
            lemma_take(a@, i - 1);
            lemma_take(b@, i - 1);
        }
        let x: u64 = a[i - 1] as u64;
        let y: u64 = b[i - 1] as u64 + borrow as u64;
        let low: u32 = if x >= y {
            (x - y) as u32
        } else {
            (0x1_0000_0000 + x - y) as u32
        };
        let high: u32 = if x >= y {
            0
        } else {
            1
        };
        proof {
            lemma_next(
                (value(a@.take(i - 1)) - value(b@.take(i - 1)) - high) as nat,
                r@,
                low,
            );
        }
        r.push(low);
        borrow = high;
        i = i - 1;
    }
    r
}

impl Natural {
    /// A number keeps only the digits that it needs: the highest is not zero.
    #[verifier::type_invariant]
    spec fn is_short(self) -> bool {
        self.digits@.len() > 0 ==> self.digits@[0] != 0
    }

    /// Zero.
    fn zero() -> (r: Natural)
        ensures
            r@ == 0,
    {
        let digits: Vec<u32> = Vec::new();
        Natural { digits }
    }

    /// The number with one more digit.
    fn appended(self, d: u32) -> (r: Natural)
        ensures
            r@ == 0x1_0000_0000 * self@ + d,
    {
        proof {
            use_type_invariant(&self);
            lemma_push(self.digits@, d);
        }
        if d == 0 && self.digits.len() == 0 {
            return self;
        }
        let mut digits = self.digits;
        digits.push(d);
        Natural { digits }
    }

    /// The number with these digits, the lowest first.
    fn from_low(low: &[u32]) -> (r: Natural)
        ensures
            r@ == value(low@.reverse()),
    {
        let mut r = Natural::zero();
        let mut i: usize = low.len();
        assert(value(low@.reverse().take(0)) == 0);
        while i > 0
            invariant
                i <= low.len(),
                r@ == value(low@.reverse().take(low.len() - i)),
            decreases i,
        {
            proof {
                lemma_take(low@.reverse(), low.len() - i);
            }
            r = r.appended(low[i - 1]);
            i = i - 1;
        }
        assert(low@.reverse().take(low.len() as int) =~= low@.reverse());
        r
    }

    /// A small number.
    pub fn from_u64(n: u64) -> (r: Natural)
        ensures
            r@ == n,
    {
        let high: u32 = (n / 0x1_0000_0000) as u32;
        let low: u32 = (n % 0x1_0000_0000) as u32;
        Natural::zero().appended(high).appended(low)
    }

    /// The digits of the number, with zeros before them up to a length of `n`.
    fn padded(&self, n: usize) -> (r: Vec<u32>)
        requires
            n >= self.digits@.len(),
        ensures
            value(r@) == self@,
            r@.len() == n,
    {
        let len: usize = self.digits.len();
        let mut digits: Vec<u32> = Vec::new();
        while digits.len() < n - len
            invariant
                len <= n,
                digits.len() <= n - len,
                value(digits@) == 0,
            decreases n - digits.len(),
        {
            proof {
                lemma_push(digits@, 0);
            }
            digits.push(0);
        }
        let mut i: usize = 0;
        assert(value(self.digits@.take(0)) == 0);
        while i < len
            invariant
                i <= len <= n,
                len == self.digits@.len(),
                digits@.len() == n - len + i,
                value(digits@) == value(self.digits@.take(i as int)),
            decreases len - i,
        {
            let d = self.digits[i];
            proof {
                lemma_push(digits@, d);
                lemma_take(self.digits@, i as int);
            }
            digits.push(d);
            i = i + 1;
        }
        assert(self.digits@.take(i as int) =~= self.digits@);
        digits
    }

    /// The number of digits of the longer number.
    fn longer(&self, other: &Natural) -> (r: usize)
        ensures
            r >= self.digits@.len(),
            r >= other.digits@.len(),
    {
        if self.digits.len() >= other.digits.len() {
            self.digits.len()
        } else {
            other.digits.len()
        }
    }

    /// The number times a small one.
    pub fn times(&self, m: u32) -> (r: Natural)
        ensures
            r@ == m * self@,
    {
        self.times_plus(m, 0)
    }

    /// The number times a small one, plus another.
    pub fn times_plus(&self, m: u32, c: u32) -> (r: Natural)
        ensures
            r@ == m * self@ + c,
    {
        Natural::from_low(times_digits(self.digits.as_slice(), m, c).as_slice())
    }

    /// The sum of two numbers.
    pub fn plus(&self, other: &Natural) -> (r: Natural)
        ensures
            r@ == self@ + other@,
    {
        let n = self.longer(other);
        let a = self.padded(n);
        let b = other.padded(n);
        Natural::from_low(plus_digits(a.as_slice(), b.as_slice()).as_slice())
    }

    /// The difference of two numbers.
    pub fn minus(&self, other: &Natural) -> (r: Natural)
        requires
            self@ >= other@,
        ensures
            r@ == self@ - other@,
    {
        let n = self.longer(other);
        let a = self.padded(n);
        let b = other.padded(n);
        Natural::from_low(minus_digits(a.as_slice(), b.as_slice()).as_slice())
    }

    /// Whether the number is less than another.
    pub fn less(&self, other: &Natural) -> (r: bool)
        ensures
            r == (self@ < other@),
    {
        let n = self.longer(other);
        let a = self.padded(n);
        let b = other.padded(n);
        let mut below = false;
        let mut above = false;
        let mut i: usize = 0;
        while i < n
            invariant
                i <= n,
                n == a@.len(),
                n == b@.len(),
                below == (value(a@.take(i as int)) < value(b@.take(i as int))),
                above == (value(a@.take(i as int)) > value(b@.take(i as int))),
            decreases n - i,
        {
            proof {
                lemma_take(a@, i as int);
                lemma_take(b@, i as int);
            }
            if !below && !above {
                below = a[i] < b[i];
                above = a[i] > b[i];
            }
            i = i + 1;
        }
        assert(a@.take(n as int) =~= a@);
        assert(b@.take(n as int) =~= b@);
        below
    }

    /// Whether the number is zero.
    pub fn is_zero(&self) -> (r: bool)
        ensures
            r == (self@ == 0),
    {
        proof {
            use_type_invariant(self);
            if self.digits@.len() > 0 {
                lemma_positive(self.digits@);
            }
        }
        self.digits.len() == 0
    }

    /// The same number.
    pub fn copy(&self) -> (r: Natural)
        ensures
            r@ == self@,
    {
        proof {
            use_type_invariant(self);
        }
        let digits = self.digits.clone();
        assert(digits@ =~= self.digits@);
        Natural { digits }
    }

    /// The number times a power of two.
    pub fn shifted(&self, k: u32) -> (r: Natural)
        ensures
            r@ == self@ * pow2(k as nat),
    {
        let mut r = self.copy();
        let mut left: u32 = k;
        assert(r@ * pow2(0) == r@) by {
            lemma2_to64();
            assert(r@ * 1 == r@) by (nonlinear_arith);
        }
        while left >= 32
            invariant
                left <= k,
                r@ * pow2(left as nat) == self@ * pow2(k as nat),
            decreases left,
        {
            proof {
                lemma2_to64();
                lemma_pow2_adds(32, (left - 32) as nat);
                let a = r@ as int;
                let p = pow2((left - 32) as nat) as int;
                assert((0x1_0000_0000 * a) * p == a * (0x1_0000_0000 * p)) by (nonlinear_arith);
            }
            r = r.appended(0);
            left = left - 32;
        }
        while left > 0
            invariant
                left <= k,
                r@ * pow2(left as nat) == self@ * pow2(k as nat),
            decreases left,
        {
            proof {
                lemma_pow2_unfold(left as nat);
                let a = r@ as int;
                let p = pow2((left - 1) as nat) as int;
                assert((2 * a) * p == a * (2 * p)) by (nonlinear_arith);
            }
            r = r.times(2);
            left = left - 1;
        }
        proof {
            lemma2_to64();
            assert(r@ * 1 == r@) by (nonlinear_arith);
        }
        r
    }

    /// The quotient by a small number, and the remainder.
    pub fn div_small(&self, d: u32) -> (r: (Natural, u32))
        requires
            d > 0,
        ensures
            r.0@ == self@ / d as nat,
            r.1 == self@ % d as nat,
    {
        let n: usize = self.digits.len();
        let mut quotient = Natural::zero();
        let mut rest: u32 = 0;
        let mut i: usize = 0;
        assert(value(self.digits@.take(0)) == 0);
        assert(d * 0 == 0) by (nonlinear_arith);
        while i < n
            invariant
                i <= n,
                n == self.digits@.len(),
                rest < d,
                value(self.digits@.take(i as int)) == d * quotient@ + rest,
            decreases n - i,
        {
            let x = self.digits[i];
            let t: u64 = rest as u64 * 0x1_0000_0000 + x as u64;
            let ghost before = rest;
            proof {
                lemma_take(self.digits@, i as int);
                lemma_fundamental_div_mod(t as int, d as int);
                assert((t as int) / (d as int) < 0x1_0000_0000) by (nonlinear_arith)
                    requires
                        0 <= t,
                        t < d * 0x1_0000_0000,
                        d > 0,
                ;
            }
            let c: u32 = (t / d as u64) as u32;
            rest = (t % d as u64) as u32;
            proof {
                lemma_quotient_digit(
                    d as int,
                    quotient@ as int,
                    before as int,
                    x as int,
                    c as int,
                    rest as int,
                );
            }
            quotient = quotient.appended(c);
            i = i + 1;
        }
        assert(self.digits@.take(n as int) =~= self.digits@);
        proof {
            let q = quotient@ as int;
            assert(d * q == q * d) by (nonlinear_arith);
            lemma_fundamental_div_mod_converse(self@ as int, d as int, q, rest as int);
        }
        (quotient, rest)
    }

    /// The greatest digit `c` such that `c` times the number is at most `n`.
    fn digit_of(&self, n: &Natural) -> (c: u32)
        requires
            self@ > 0,
            n@ < 0x1_0000_0000 * self@,
        ensures
            c * self@ <= n@ < (c + 1) * self@,
    {
        assert(0 * self@ == 0 && 1 * self@ == self@) by (nonlinear_arith);
        if n.less(self) {
            return 0;
        }
        let mut low: u64 = 0;
        let mut high: u64 = 0x1_0000_0000;
        while high - low > 1
            invariant
                low < high <= 0x1_0000_0000,
                low * self@ <= n@ < high * self@,
            decreases high - low,
        {
            let middle: u64 = low + (high - low) / 2;
            let product = self.times(middle as u32);
            if n.less(&product) {
                high = middle;
            } else {
                low = middle;
            }
        }
        low as u32
    }

    /// The quotient by another number, and the remainder.
    pub fn div_rem(&self, d: &Natural) -> (r: (Natural, Natural))
        requires
            d@ > 0,
        ensures
            r.0@ == self@ / d@,
            r.1@ == self@ % d@,
    {
        let n: usize = self.digits.len();
        let mut quotient = Natural::zero();
        let mut rest = Natural::zero();
        let mut i: usize = 0;
        assert(value(self.digits@.take(0)) == 0);
        assert(d@ * 0 == 0) by (nonlinear_arith);
        while i < n
            invariant
                i <= n,
                n == self.digits@.len(),
                d@ > 0,
                rest@ < d@,
                value(self.digits@.take(i as int)) == d@ * quotient@ + rest@,
            decreases n - i,
        {
            let x = self.digits[i];
            let ghost before = rest@;
            proof {
                lemma_take(self.digits@, i as int);
            }
            rest = rest.appended(x);
            let c = d.digit_of(&rest);
            let product = d.times(c);
            proof {
                let dd = d@ as int;
                let cc = c as int;
                assert(cc * dd == dd * cc && (cc + 1) * dd == cc * dd + dd) by (nonlinear_arith);
            }
            rest = rest.minus(&product);
            proof {
                lemma_quotient_digit(
                    d@ as int,
                    quotient@ as int,
                    before as int,
                    x as int,
                    c as int,
                    rest@ as int,
                );
            }
            quotient = quotient.appended(c);
            i = i + 1;
        }
        assert(self.digits@.take(n as int) =~= self.digits@);
        proof {
            let q = quotient@ as int;
            let dd = d@ as int;
            assert(dd * q == q * dd) by (nonlinear_arith);
            lemma_fundamental_div_mod_converse(self@ as int, dd, q, rest@ as int);
        }
        (quotient, rest)
    }

    /// The number, or the greatest `u64` where it is greater.
    pub fn to_u64(&self) -> (r: u64)
        ensures
            r == if self@ <= u64::MAX {
                self@ as int
            } else {
                u64::MAX as int
            },
    {
        let n: usize = self.digits.len();
        let mut r: u64 = 0;
        let mut over = false;
        let mut i: usize = 0;
        assert(value(self.digits@.take(0)) == 0);
        while i < n
            invariant
                i <= n,
                n == self.digits@.len(),
                over == (value(self.digits@.take(i as int)) > u64::MAX),
                !over ==> r == value(self.digits@.take(i as int)),
            decreases n - i,
        {
            proof {
                lemma_take(self.digits@, i as int);
            }
            if over || r >= 0x1_0000_0000 {
                over = true;
            } else {
                r = r * 0x1_0000_0000 + self.digits[i] as u64;
            }
            i = i + 1;
        }
        assert(self.digits@.take(n as int) =~= self.digits@);
        if over {
            u64::MAX
        } else {
            r
        }
    }

    /// The number in decimal.
    pub fn text(&self) -> (r: String)
        ensures
            r@ == decimal(self@),
    {
        let (mut rest, mut last) = self.div_small(10);
        let mut low: Vec<char> = Vec::new();
        assert(low@.reverse() =~= Seq::<char>::empty());
        assert(decimal(self@) + low@.reverse() =~= decimal(self@));
        while !rest.is_zero()
            invariant
                last < 10,
                decimal(10 * rest@ + last as nat) + low@.reverse() == decimal(self@),
            decreases rest@,
        {
            let c = (48 + last as u8) as char;
            proof {
                assert(c == digit(last as int));
                let n = 10 * rest@ + last as nat;
                assert(n / 10 == rest@ && n % 10 == last);
                assert(low@.push(c).reverse() =~= seq![c] + low@.reverse());
                assert(decimal(rest@).push(c) + low@.reverse() =~= decimal(rest@) + (seq![c]
                    + low@.reverse()));
            }
            low.push(c);
            let (q, d) = rest.div_small(10);
            rest = q;
            last = d;
        }
        let c = (48 + last as u8) as char;
        let mut r = String::new();
        r.push(c);
        assert(c == digit(last as int));
        assert(r@ =~= decimal(last as nat));
        let mut i: usize = low.len();
        assert(low@.reverse().take(0) =~= Seq::<char>::empty());
        assert(r@ =~= decimal(last as nat) + low@.reverse().take(0));
        while i > 0
            invariant
                i <= low.len(),
                r@ == decimal(last as nat) + low@.reverse().take(low.len() - i),
            decreases i,
        {
            r.push(low[i - 1]);
            i = i - 1;
            assert(r@ =~= decimal(last as nat) + low@.reverse().take(low.len() - i));
        }
        assert(low@.reverse().take(low.len() as int) =~= low@.reverse());
        r
    }
}

} // verus!
