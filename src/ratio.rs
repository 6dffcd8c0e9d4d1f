//! Exact fractions over a bounded unsigned integer width, and rounding of
//! such fractions to a fixed number of digits in some base.
use vstd::prelude::*;
use vstd::arithmetic::power::pow;
use vstd::arithmetic::div_mod::lemma_fundamental_div_mod;
use vstd::arithmetic::div_mod::lemma_fundamental_div_mod_converse;

verus! {

/// The unsigned integer width that numerators and denominators must fit.
///
/// A wider type gives more digits of precision; a narrower one rounds
/// earlier.
#[derive(Debug, Clone, Copy, PartialEq, Eq, Structural)]
pub enum Width {
    U8,
    U16,
    U32,
}

impl Width {
    /// Largest value of the width.
    pub open spec fn spec_max(self) -> int {
        match self {
            Width::U8 => 255,
            Width::U16 => 65535,
            Width::U32 => 4294967295,
        }
    }

    /// Largest value of the width.
    pub fn max_value(self) -> (r: u32)
        ensures
            r == self.spec_max(),
    {
        match self {
            Width::U8 => 255,
            Width::U16 => 65535,
            Width::U32 => 4294967295,
        }
    }
}

/// Error of an arithmetic operation whose result does not fit the width.
#[derive(Debug, Clone, Copy, PartialEq, Eq, Structural)]
pub enum ArithmeticError {
    Overflow,
}

/// The fraction `numer / denom`.
///
/// Two ratios are equal (`==`) when they denote the same rational number,
/// whatever their representation.
#[derive(Debug, Clone, Copy)]
pub struct Ratio {
    pub numer: u32,
    pub denom: u32,
}

impl Ratio {
    /// The denominator is not zero.
    pub open spec fn wf(self) -> bool {
        self.denom > 0
    }

    /// `self` denotes the rational number `n / d`.
    pub open spec fn denotes(self, n: int, d: int) -> bool {
        self.numer * d == n * self.denom
    }

    /// `self` and `o` denote the same rational number.
    pub open spec fn same(self, o: Ratio) -> bool {
        self.denotes(o.numer as int, o.denom as int)
    }

    /// `self <= o` as rational numbers (both denominators positive).
    pub open spec fn le(self, o: Ratio) -> bool {
        self.numer * o.denom <= o.numer * self.denom
    }

    /// `self < o` as rational numbers (both denominators positive).
    pub open spec fn lt(self, o: Ratio) -> bool {
        self.numer * o.denom < o.numer * self.denom
    }

    /// The value lies in the closed interval from 0 to 1.
    pub open spec fn in_unit(self) -> bool {
        self.wf() && self.numer <= self.denom
    }

    /// Numerator and denominator both fit the width.
    pub open spec fn fits(self, w: Width) -> bool {
        self.numer <= w.spec_max() && self.denom <= w.spec_max()
    }

    /// The fraction `numer / denom`, reduced to lowest terms.
    pub fn new(numer: u32, denom: u32) -> (r: Ratio)
        requires
            denom > 0,
        ensures
            r.wf(),
            r.denotes(numer as int, denom as int),
            r.numer <= numer,
            r.denom <= denom,
    {
        let g = gcd(numer, denom);
        let n = numer / g;
        let d = denom / g;
        proof {
            lemma_fundamental_div_mod(numer as int, g as int);
            lemma_fundamental_div_mod(denom as int, g as int);
            assert(n * (g * d) == (g * n) * d) by (nonlinear_arith);
            assert(d > 0) by (nonlinear_arith)
                requires denom == g * d, denom > 0, g > 0, d >= 0;
            assert(n <= numer) by (nonlinear_arith)
                requires numer == g * n, g > 0, n >= 0;
            assert(d <= denom) by (nonlinear_arith)
                requires denom == g * d, g > 0, d >= 0;
        }
        Ratio { numer: n, denom: d }
    }

    /// The whole number `n`.
    pub fn from_integer(n: u32) -> (r: Ratio)
        ensures
            r.wf(),
            r.numer == n,
            r.denom == 1,
    {
        Ratio { numer: n, denom: 1 }
    }

    /// The numerator as stored.
    pub fn numer(&self) -> (r: u32)
        ensures
            r == self.numer,
    {
        self.numer
    }

    /// The denominator as stored.
    pub fn denom(&self) -> (r: u32)
        ensures
            r == self.denom,
    {
        self.denom
    }

    /// The value is zero.
    pub fn is_zero(&self) -> (r: bool)
        ensures
            r == (self.numer == 0),
    {
        self.numer == 0
    }

    /// The value is one.
    pub fn is_one(&self) -> (r: bool)
        ensures
            r == (self.numer == self.denom),
    {
        self.numer == self.denom
    }

    /// The value is greater than one.
    pub fn exceeds_one(&self) -> (r: bool)
        ensures
            r == (self.numer > self.denom),
    {
        self.numer > self.denom
    }

    /// Compares two ratios by value: `self <= o`.
    pub fn less_or_equal(&self, o: &Ratio) -> (r: bool)
        ensures
            r == self.le(*o),
    {
        proof {
            lemma_mul_u32(self.numer, o.denom);
            lemma_mul_u32(o.numer, self.denom);
        }
        (self.numer as u64) * (o.denom as u64) <= (o.numer as u64) * (self.denom as u64)
    }
}

impl PartialEq for Ratio {
    fn eq(&self, o: &Ratio) -> (r: bool)
        ensures
            r == self.same(*o),
    {
        proof {
            lemma_mul_u32(self.numer, o.denom);
            lemma_mul_u32(o.numer, self.denom);
        }
        (self.numer as u64) * (o.denom as u64) == (o.numer as u64) * (self.denom as u64)
    }
}

impl vstd::std_specs::cmp::PartialEqSpecImpl for Ratio {
    open spec fn obeys_eq_spec() -> bool {
        true
    }

    open spec fn eq_spec(&self, o: &Ratio) -> bool {
        self.same(*o)
    }
}

/// The product of two `u32` values fits a `u64`.
pub proof fn lemma_mul_u32(a: u32, b: u32)
    ensures
        0 <= a as int * b <= u64::MAX,
{
    assert(0 <= a as int * b <= 0xffff_fffe_0000_0001) by (nonlinear_arith)
        requires a <= 0xffff_ffff, b <= 0xffff_ffff, a >= 0, b >= 0;
}

/// Relies on num::integer::gcd: the greatest common divisor of `a` and `b`
/// divides both, and is zero only when both are zero.
#[verifier::external_body]
fn gcd(a: u32, b: u32) -> (r: u32)
    ensures
        r > 0 <==> (a > 0 || b > 0),
        r > 0 ==> a % r == 0 && b % r == 0,
{
    num::integer::gcd(a, b)
}

/// Relies on num::checked_pow: `base` raised to `exp`, or `None` where that
/// power does not fit a `u32`.
#[verifier::external_body]
pub(crate) fn checked_pow(base: u32, exp: usize) -> (r: Option<u32>)
    ensures
        r matches Some(v) ==> v == pow(base as int, exp as nat),
        r is None <==> pow(base as int, exp as nat) > u32::MAX,
{
    num::checked_pow(base, exp)
}

/// `n / d` (in the unit interval) times `big_d`, rounded to the nearest
/// integer, halves rounded up.
pub open spec fn rounded_numer(n: int, d: int, big_d: int) -> int {
    (2 * n * big_d + d) / (2 * d)
}

/// Largest denominator that `round_fraction` takes: `2 ^ 96`, room for a
/// product of three `u32` values.
pub const WIDE_LIMIT: u128 = 0x1_0000_0000_0000_0000_0000_0000;

/// Rounding a value of the unit interval to a fraction over `big_d` gives
/// a numerator from 0 to `big_d`.
pub proof fn lemma_rounded_bounds(n: int, d: int, big_d: int)
    requires
        0 < d,
        0 <= n <= d,
        0 <= big_d,
    ensures
        0 <= rounded_numer(n, d, big_d) <= big_d,
{
    let x = 2 * n * big_d + d;
    let y = 2 * d * big_d + d;
    assert(0 <= x <= y) by (nonlinear_arith)
        requires x == 2 * n * big_d + d, y == 2 * d * big_d + d, 0 <= n <= d, 0 <= big_d;
    assert(y == big_d * (2 * d) + d) by (nonlinear_arith)
        requires y == 2 * d * big_d + d;
    lemma_fundamental_div_mod_converse(y, 2 * d, big_d, d);
    vstd::arithmetic::div_mod::lemma_div_is_ordered(x, y, 2 * d);
    vstd::arithmetic::div_mod::lemma_div_is_ordered(0, x, 2 * d);
}

/// Rounds `n / d` times `big_d` to the nearest integer, halves up.
fn round_half_up(n: u128, d: u128, big_d: u32) -> (k: u32)
    requires
        0 < d <= WIDE_LIMIT,
        n <= d,
    ensures
        k == rounded_numer(n as int, d as int, big_d as int),
        k <= big_d,
{
    proof {
        assert(n * big_d <= WIDE_LIMIT * 0xffff_ffff) by (nonlinear_arith)
            requires n <= d, d <= WIDE_LIMIT, big_d <= 0xffff_ffff, n >= 0, big_d >= 0;
    }
    let prod: u128 = n * (big_d as u128);
    let q: u128 = prod / d;
    let rem: u128 = prod % d;
    proof {
        lemma_fundamental_div_mod(prod as int, d as int);
        assert(prod <= (d as int) * big_d) by (nonlinear_arith)
            requires prod == n * big_d, n <= d, big_d >= 0;
        assert(q <= big_d) by (nonlinear_arith)
            requires prod == d * q + rem, prod <= d * big_d, d > 0, rem >= 0, q >= 0;
        assert(q == big_d ==> rem == 0) by (nonlinear_arith)
            requires prod == d * q + rem, prod <= d * big_d, d > 0, rem >= 0;
    }
    let up: bool = 2 * rem >= d;
    proof {
        let x = 2 * n * big_d + d;
        if up {
            assert(x == (q + 1) * (2 * d) + (2 * rem - d)) by (nonlinear_arith)
                requires prod == n * big_d, prod == d * q + rem, x == 2 * n * big_d + d;
            lemma_fundamental_div_mod_converse(x, 2 * d, q + 1, 2 * rem - d);
        } else {
            assert(x == q * (2 * d) + (2 * rem + d)) by (nonlinear_arith)
                requires prod == n * big_d, prod == d * q + rem, x == 2 * n * big_d + d;
            lemma_fundamental_div_mod_converse(x, 2 * d, q as int, 2 * rem + d);
        }
    }
    if up {
        (q + 1) as u32
    } else {
        q as u32
    }
}

/// Rounds the fraction `n / d`, which lies in the unit interval, to a
/// fraction over `base ^ exponent - negative_offset`, as `round_denominator`
/// does. Fails with `Overflow` exactly when `base ^ exponent` does not fit
/// the width.
pub fn round_fraction(
    n: u128,
    d: u128,
    base: u32,
    exponent: usize,
    negative_offset: u32,
    width: Width,
) -> (r: Result<Ratio, ArithmeticError>)
    requires
        0 < d <= WIDE_LIMIT,
        n <= d,
        (negative_offset as int) < pow(base as int, exponent as nat),
    ensures
        pow(base as int, exponent as nat) <= width.spec_max() <==> r is Ok,
        r matches Ok(q) ==> q.in_unit() && q.fits(width) && q.denotes(
            rounded_numer(n as int, d as int, pow(base as int, exponent as nat) - negative_offset),
            pow(base as int, exponent as nat) - negative_offset,
        ),
{
    match checked_pow(base, exponent) {
        None => Err(ArithmeticError::Overflow),
        Some(p) => {
            if p > width.max_value() {
                Err(ArithmeticError::Overflow)
            } else {
                let big_d = p - negative_offset;
                let k = round_half_up(n, d, big_d);
                let q = Ratio::new(k, big_d);
                proof {
                    assert(q.numer <= q.denom) by (nonlinear_arith)
                        requires q.numer * big_d == k * q.denom, k <= big_d, big_d > 0,
                            q.denom > 0;
                }
                Ok(q)
            }
        }
    }
}

/// Rounds a ratio in the unit interval to a fraction over
/// `base ^ exponent - negative_offset`.
///
/// The new denominator is `base ^ exponent - negative_offset`, and the new
/// numerator is the old value times that denominator, rounded to the nearest
/// integer with halves rounded up. An offset of 1 suits hexadecimal
/// channels, which are fractions over `16 ^ digits - 1`. Fails with
/// `Overflow` exactly when `base ^ exponent` does not fit the width.
pub fn round_denominator(
    ratio_on_unit_interval: Ratio,
    base: u32,
    exponent: usize,
    negative_offset: u32,
    width: Width,
) -> (r: Result<Ratio, ArithmeticError>)
    requires
        ratio_on_unit_interval.in_unit(),
        (negative_offset as int) < pow(base as int, exponent as nat),
    ensures
        pow(base as int, exponent as nat) <= width.spec_max() <==> r is Ok,
        r matches Ok(q) ==> q.in_unit() && q.fits(width) && q.denotes(
            rounded_numer(
                ratio_on_unit_interval.numer as int,
                ratio_on_unit_interval.denom as int,
                pow(base as int, exponent as nat) - negative_offset,
            ),
            pow(base as int, exponent as nat) - negative_offset,
        ),
{
    round_fraction(
        ratio_on_unit_interval.numer as u128,
        ratio_on_unit_interval.denom as u128,
        base,
        exponent,
        negative_offset,
        width,
    )
}

/// Ratios that denote the same number agree on being zero, one, or above
/// one.
pub proof fn lemma_same_value_tests(a: Ratio, b: Ratio)
    requires
        a.wf(),
        b.wf(),
        a.same(b),
    ensures
        (a.numer == 0) == (b.numer == 0),
        (a.numer == a.denom) == (b.numer == b.denom),
        (a.numer > a.denom) == (b.numer > b.denom),
{
    assert((a.numer == 0) == (b.numer == 0)) by (nonlinear_arith)
        requires a.numer * b.denom == b.numer * a.denom, a.denom > 0, b.denom > 0;
    assert((a.numer == a.denom) == (b.numer == b.denom)) by (nonlinear_arith)
        requires a.numer * b.denom == b.numer * a.denom, a.denom > 0, b.denom > 0;
    assert((a.numer > a.denom) == (b.numer > b.denom)) by (nonlinear_arith)
        requires a.numer * b.denom == b.numer * a.denom, a.denom > 0, b.denom > 0;
}

} // verus!
