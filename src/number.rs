//! Numbers of the language: exact rationals with 64-bit parts. Sums, differences, products,
//! quotients and remainders are exact; a result whose parts do not fit is an overflow, and a
//! zero divisor is an error rather than an infinity. Text is decimal, with up to sixteen
//! fractional digits.

use vstd::prelude::*;
use crate::text::push_char;

verus! {

/// An exact rational number: `num / den` with a positive denominator.
#[derive(PartialEq, Eq, Structural, Clone, Copy, Debug)]
pub struct Number {
    pub num: i64,
    pub den: i64,
}

pub open spec fn fits_i64(x: int) -> bool {
    i64::MIN <= x <= i64::MAX
}

pub open spec fn abs(x: int) -> nat {
    if x < 0 { (-x) as nat } else { x as nat }
}

pub open spec fn gcd(a: nat, b: nat) -> nat
    decreases b,
{
    if b == 0 { a } else { gcd(b, a % b) }
}

/// Divides `n / d` by the greatest common divisor of its parts.
pub open spec fn reduce(n: int, d: int) -> (int, int) {
    let g = gcd(abs(n), abs(d));
    if g > 0 && abs(n) % g == 0 && abs(d) % g == 0 {
        (if n < 0 { -((abs(n) / g) as int) } else { (abs(n) / g) as int }, (abs(d) / g) as int)
    } else {
        (n, d)
    }
}

/// The number `n / d` (with `d > 0`) in lowest terms, if both parts fit in an `i64`.
pub open spec fn make_number(n: int, d: int) -> Option<Number> {
    let (rn, rd) = reduce(n, d);
    if fits_i64(rn) && fits_i64(rd) && rd > 0 {
        Some(Number { num: rn as i64, den: rd as i64 })
    } else {
        None
    }
}

pub open spec fn spec_add(a: Number, b: Number) -> Option<Number> {
    make_number(a.num * b.den + b.num * a.den, a.den * b.den)
}

pub open spec fn spec_sub(a: Number, b: Number) -> Option<Number> {
    make_number(a.num * b.den - b.num * a.den, a.den * b.den)
}

pub open spec fn spec_mul(a: Number, b: Number) -> Option<Number> {
    make_number(a.num * b.num, a.den * b.den)
}

/// Quotient; `None` on a zero divisor or on overflow.
pub open spec fn spec_div(a: Number, b: Number) -> Option<Number> {
    if b.num == 0 {
        None
    } else if b.num > 0 {
        make_number(a.num * b.den, a.den * b.num)
    } else {
        make_number(-(a.num * b.den), -(a.den * b.num))
    }
}

/// Remainder of the truncated quotient, with the sign of the dividend.
pub open spec fn spec_rem(a: Number, b: Number) -> Option<Number> {
    if b.num == 0 {
        None
    } else {
        let x = a.num * b.den;
        let y = b.num * a.den;
        let r = (abs(x) % abs(y)) as int;
        make_number(if x < 0 { -r } else { r }, a.den * b.den)
    }
}

pub open spec fn spec_neg(a: Number) -> Option<Number> {
    if a.num == i64::MIN {
        None
    } else {
        Some(Number { num: (-a.num) as i64, den: a.den })
    }
}

/// Compares `a` and `b` as rationals: negative, zero or positive as `a <, ==, > b`.
pub open spec fn spec_cmp(a: Number, b: Number) -> int {
    a.num * b.den - b.num * a.den
}

pub open spec fn digit_char(d: nat) -> char {
    if d == 0 { '0' }
    else if d == 1 { '1' }
    else if d == 2 { '2' }
    else if d == 3 { '3' }
    else if d == 4 { '4' }
    else if d == 5 { '5' }
    else if d == 6 { '6' }
    else if d == 7 { '7' }
    else if d == 8 { '8' }
    else { '9' }
}

/// Decimal digits of `n`, most significant first, without leading zeros.
pub open spec fn decimal_digits(n: nat) -> Seq<char>
    decreases n,
{
    if n < 10 {
        seq![digit_char(n)]
    } else {
        decimal_digits(n / 10).push(digit_char(n % 10))
    }
}

/// Up to `k` digits of the decimal expansion of the proper fraction `r / d`, stopping once
/// the expansion ends.
pub open spec fn fraction_digits(r: nat, d: nat, k: nat) -> Seq<char>
    decreases k,
{
    if k == 0 || r == 0 || d == 0 {
        Seq::empty()
    } else {
        seq![digit_char((r * 10) / d)] + fraction_digits((r * 10) % d, d, (k - 1) as nat)
    }
}

/// The number of fractional digits printed for a number that is not whole.
pub const FRACTION_DIGITS: usize = 16;

/// Decimal text of a number: an optional minus sign, the whole part, and for a number that
/// is not whole a point and its fractional digits (truncated after sixteen).
pub open spec fn number_text(a: Number) -> Seq<char> {
    let m = abs(a.num as int);
    let d = abs(a.den as int);
    let sign = if a.num < 0 { seq!['-'] } else { Seq::empty() };
    let whole = sign + decimal_digits(m / d);
    if m % d == 0 {
        whole
    } else {
        whole + seq!['.'] + fraction_digits(m % d, d, FRACTION_DIGITS as nat)
    }
}

/// The text used when a token's literal is shown: a whole number gets a trailing `.0`.
pub open spec fn number_debug_text(a: Number) -> Seq<char> {
    if a.den == 1 {
        number_text(a) + seq!['.', '0']
    } else {
        number_text(a)
    }
}

fn gcd_u128(a: u128, b: u128) -> (r: u128)
    ensures
        r == gcd(a as nat, b as nat),
{
    let mut x = a;
    let mut y = b;
    while y != 0
        invariant
            gcd(x as nat, y as nat) == gcd(a as nat, b as nat),
        decreases y,
    {
        let t = x % y;
        x = y;
        y = t;
    }
    x
}

fn magnitude(x: i128) -> (r: u128)
    requires
        x > i128::MIN,
    ensures
        r == abs(x as int),
{
    if x < 0 {
        (-x) as u128
    } else {
        x as u128
    }
}

/// Builds `n / d` in lowest terms; `None` if a part does not fit in an `i64`.
pub(crate) fn make(n: i128, d: i128) -> (r: Option<Number>)
    requires
        d > 0,
        n > i128::MIN,
    ensures
        r == make_number(n as int, d as int),
{
    let mn = magnitude(n);
    let md = magnitude(d);
    let g = gcd_u128(mn, md);
    let mut rn: i128 = n;
    let mut rd: i128 = d;
    if g > 0 && mn % g == 0 && md % g == 0 {
        let qn = mn / g;
        let qd = md / g;
        assert(qn <= mn) by (nonlinear_arith)
            requires qn == mn / g, g > 0;
        assert(qd <= md) by (nonlinear_arith)
            requires qd == md / g, g > 0;
        rn = if n < 0 { -(qn as i128) } else { qn as i128 };
        rd = qd as i128;
    }
    if rn >= i64::MIN as i128 && rn <= i64::MAX as i128 && rd >= i64::MIN as i128 && rd <= i64::MAX as i128 && rd > 0 {
        Some(Number { num: rn as i64, den: rd as i64 })
    } else {
        None
    }
}

proof fn lemma_product_bounds(a: i64, b: i64)
    ensures
        -0x4000_0000_0000_0000_0000_0000_0000_0000 <= (a as int) * (b as int) <= 0x4000_0000_0000_0000_0000_0000_0000_0000,
        b > 0 ==> -0x3fff_ffff_ffff_ffff_8000_0000_0000_0000 <= (a as int) * (b as int) <= 0x3fff_ffff_ffff_ffff_8000_0000_0000_0000,
        a > 0 && b > 0 ==> (a as int) * (b as int) > 0,
{
    assert(-0x4000_0000_0000_0000_0000_0000_0000_0000 <= (a as int) * (b as int) <= 0x4000_0000_0000_0000_0000_0000_0000_0000) by (nonlinear_arith)
        requires
            -0x8000_0000_0000_0000 <= a <= 0x7fff_ffff_ffff_ffff,
            -0x8000_0000_0000_0000 <= b <= 0x7fff_ffff_ffff_ffff,
    ;
    if a > 0 && b > 0 {
        assert((a as int) * (b as int) > 0) by (nonlinear_arith)
            requires a > 0, b > 0;
    }
    if b > 0 {
        assert(-0x3fff_ffff_ffff_ffff_8000_0000_0000_0000 <= (a as int) * (b as int) <= 0x3fff_ffff_ffff_ffff_8000_0000_0000_0000) by (nonlinear_arith)
            requires
                -0x8000_0000_0000_0000 <= a <= 0x7fff_ffff_ffff_ffff,
                0 < b <= 0x7fff_ffff_ffff_ffff,
        ;
    }
}

impl Number {
    /// A number is well formed when its denominator is positive.
    pub open spec fn wf(self) -> bool {
        self.den > 0
    }

    pub fn from_int(n: i64) -> (r: Number)
        ensures
            r == (Number { num: n, den: 1 }),
    {
        Number { num: n, den: 1 }
    }

    pub fn add(&self, b: &Number) -> (r: Option<Number>)
        requires
            self.wf(),
            b.wf(),
        ensures
            r == spec_add(*self, *b),
            r matches Some(v) ==> v.wf(),
    {
        proof {
            lemma_product_bounds(self.num, b.den);
            lemma_product_bounds(b.num, self.den);
            lemma_product_bounds(self.den, b.den);
        }
        let n = (self.num as i128) * (b.den as i128) + (b.num as i128) * (self.den as i128);
        let d = (self.den as i128) * (b.den as i128);
        make(n, d)
    }

    pub fn sub(&self, b: &Number) -> (r: Option<Number>)
        requires
            self.wf(),
            b.wf(),
        ensures
            r == spec_sub(*self, *b),
            r matches Some(v) ==> v.wf(),
    {
        proof {
            lemma_product_bounds(self.num, b.den);
            lemma_product_bounds(b.num, self.den);
            lemma_product_bounds(self.den, b.den);
        }
        let n = (self.num as i128) * (b.den as i128) - (b.num as i128) * (self.den as i128);
        let d = (self.den as i128) * (b.den as i128);
        make(n, d)
    }

    pub fn mul(&self, b: &Number) -> (r: Option<Number>)
        requires
            self.wf(),
            b.wf(),
        ensures
            r == spec_mul(*self, *b),
            r matches Some(v) ==> v.wf(),
    {
        proof {
            lemma_product_bounds(self.num, b.num);
            lemma_product_bounds(self.den, b.den);
        }
        let n = (self.num as i128) * (b.num as i128);
        let d = (self.den as i128) * (b.den as i128);
        make(n, d)
    }

    pub fn div(&self, b: &Number) -> (r: Option<Number>)
        requires
            self.wf(),
            b.wf(),
        ensures
            r == spec_div(*self, *b),
            r matches Some(v) ==> v.wf(),
    {
        if b.num == 0 {
            return None;
        }
        proof {
            lemma_product_bounds(self.num, b.den);
            lemma_product_bounds(self.den, b.num);
        }
        let n = (self.num as i128) * (b.den as i128);
        let d = (self.den as i128) * (b.num as i128);
        if b.num > 0 {
            assert(d > 0) by (nonlinear_arith)
                requires d == (self.den as int) * (b.num as int), self.den > 0, b.num > 0;
            make(n, d)
        } else {
            assert(d < 0) by (nonlinear_arith)
                requires d == (self.den as int) * (b.num as int), self.den > 0, b.num < 0;
            make(-n, -d)
        }
    }

    pub fn rem(&self, b: &Number) -> (r: Option<Number>)
        requires
            self.wf(),
            b.wf(),
        ensures
            r == spec_rem(*self, *b),
            r matches Some(v) ==> v.wf(),
    {
        if b.num == 0 {
            return None;
        }
        proof {
            lemma_product_bounds(self.num, b.den);
            lemma_product_bounds(b.num, self.den);
            lemma_product_bounds(self.den, b.den);
        }
        let x = (self.num as i128) * (b.den as i128);
        let y = (b.num as i128) * (self.den as i128);
        assert(y != 0) by (nonlinear_arith)
            requires y == (b.num as int) * (self.den as int), self.den > 0, b.num != 0;
        let mx = magnitude(x);
        let my = magnitude(y);
        let m = mx % my;
        assert(m < my);
        let r: i128 = if x < 0 { -(m as i128) } else { m as i128 };
        let d = (self.den as i128) * (b.den as i128);
        assert(d > 0) by (nonlinear_arith)
            requires d == (self.den as int) * (b.den as int), self.den > 0, b.den > 0;
        make(r, d)
    }

    pub fn neg(&self) -> (r: Option<Number>)
        requires
            self.wf(),
        ensures
            r == spec_neg(*self),
            r matches Some(v) ==> v.wf(),
    {
        if self.num == i64::MIN {
            None
        } else {
            Some(Number { num: -self.num, den: self.den })
        }
    }

    /// Compares two numbers as rationals.
    pub fn compare(&self, b: &Number) -> (r: i128)
        requires
            self.wf(),
            b.wf(),
        ensures
            r == spec_cmp(*self, *b),
    {
        proof {
            lemma_product_bounds(self.num, b.den);
            lemma_product_bounds(b.num, self.den);
        }
        (self.num as i128) * (b.den as i128) - (b.num as i128) * (self.den as i128)
    }
}

} // verus!

verus! {

fn digit(d: u64) -> (c: char)
    requires
        d < 10,
    ensures
        c == digit_char(d as nat),
{
    if d == 0 { '0' }
    else if d == 1 { '1' }
    else if d == 2 { '2' }
    else if d == 3 { '3' }
    else if d == 4 { '4' }
    else if d == 5 { '5' }
    else if d == 6 { '6' }
    else if d == 7 { '7' }
    else if d == 8 { '8' }
    else { '9' }
}

/// Appends the decimal digits of `n`.
pub fn push_digits(out: &mut String, n: u64)
    ensures
        final(out)@ == old(out)@ + decimal_digits(n as nat),
    decreases n,
{
    if n >= 10 {
        push_digits(out, n / 10);
    }
    push_char(out, digit(n % 10));
    proof {
        if n < 10 {
            assert(n % 10 == n);
        }
    }
    assert(final(out)@ =~= old(out)@ + decimal_digits(n as nat));
}

fn push_fraction(out: &mut String, r: u64, d: u64, k: usize)
    requires
        r < d,
    ensures
        final(out)@ == old(out)@ + fraction_digits(r as nat, d as nat, k as nat),
{
    let mut rem: u64 = r;
    let mut left: usize = k;
    while left > 0 && rem != 0
        invariant
            rem < d,
            old(out)@ + fraction_digits(r as nat, d as nat, k as nat) == out@ + fraction_digits(rem as nat, d as nat, left as nat),
        decreases left,
    {
        let t: u128 = (rem as u128) * 10;
        let q = t / (d as u128);
        let nr = t % (d as u128);
        assert(q < 10) by (nonlinear_arith)
            requires q == t / (d as u128), t == rem * 10, rem < d;
        let c = digit(q as u64);
        let ghost before = out@;
        push_char(out, c);
        assert(fraction_digits(rem as nat, d as nat, left as nat) == seq![c] + fraction_digits(nr as nat, d as nat, (left - 1) as nat));
        assert(before + fraction_digits(rem as nat, d as nat, left as nat) =~= out@ + fraction_digits(nr as nat, d as nat, (left - 1) as nat));
        rem = nr as u64;
        left = left - 1;
    }
    assert(fraction_digits(rem as nat, d as nat, left as nat) =~= Seq::empty());
    assert(out@ =~= old(out)@ + fraction_digits(r as nat, d as nat, k as nat));
}

impl Number {
    /// The decimal text of the number.
    pub fn to_text(&self) -> (r: String)
        requires
            self.wf(),
        ensures
            r@ == number_text(*self),
    {
        let mut out = String::new();
        if self.num < 0 {
            push_char(&mut out, '-');
        }
        let m: u64 = if self.num < 0 { (-(self.num as i128)) as u64 } else { self.num as u64 };
        let d: u64 = self.den as u64;
        push_digits(&mut out, m / d);
        let r = m % d;
        if r != 0 {
            push_char(&mut out, '.');
            push_fraction(&mut out, r, d, FRACTION_DIGITS);
        }
        assert(out@ =~= number_text(*self));
        out
    }

    /// The text shown for a literal number: a whole number carries a trailing `.0`.
    pub fn to_debug_text(&self) -> (r: String)
        requires
            self.wf(),
        ensures
            r@ == number_debug_text(*self),
    {
        let mut out = self.to_text();
        if self.den == 1 {
            push_char(&mut out, '.');
            push_char(&mut out, '0');
        }
        assert(out@ =~= number_debug_text(*self));
        out
    }
}

} // verus!
