//! Conversions between RGB colours and SHT colours, each quantity rounded
//! to a chosen number of digits.
use vstd::prelude::*;
use vstd::arithmetic::power::pow;
use crate::ratio::{Ratio, Width, ArithmeticError, round_denominator, round_fraction, rounded_numer, lemma_mul_u32};
use crate::rgb::HexRGB;
use crate::sht::{ChannelRatios, ColourChannel, SecondaryColour, SHT, SHTValueError, value_errors, components_wf};

verus! {

/// Errors of converting an RGB colour to SHT.
#[derive(Debug, Clone, PartialEq)]
pub enum ToShtError {
    /// `12 ^ precision` does not fit the width.
    Overflow,
    /// The rounded components violate the normal form, which happens where
    /// rounding takes a shade to 0, a tint to 1, or a blend to 0 or 1.
    ValueErrors(Vec<SHTValueError>),
}

/// The primary colour of a lowercase channel letter.
pub open spec fn primary_for(c: char) -> Option<ColourChannel> {
    match c {
        'r' => Some(ColourChannel::Red),
        'g' => Some(ColourChannel::Green),
        'b' => Some(ColourChannel::Blue),
        _ => None,
    }
}

/// The secondary colour made of two distinct lowercase channel letters, in
/// either order.
pub open spec fn secondary_for(a: char, b: char) -> Option<SecondaryColour> {
    if (a == 'g' && b == 'b') || (a == 'b' && b == 'g') {
        Some(SecondaryColour::Cyan)
    } else if (a == 'r' && b == 'g') || (a == 'g' && b == 'r') {
        Some(SecondaryColour::Yellow)
    } else if (a == 'r' && b == 'b') || (a == 'b' && b == 'r') {
        Some(SecondaryColour::Magenta)
    } else {
        None
    }
}

/// The primary colour of a lowercase channel letter `r`, `g` or `b`.
pub fn char_to_primary(c: char) -> (r: Option<ColourChannel>)
    ensures
        r == primary_for(c),
{
    match c {
        'r' => Some(ColourChannel::Red),
        'g' => Some(ColourChannel::Green),
        'b' => Some(ColourChannel::Blue),
        _ => None,
    }
}

/// The secondary colour that two distinct channel letters add up to.
pub fn chars_to_secondary(a: char, b: char) -> (r: Option<SecondaryColour>)
    ensures
        r == secondary_for(a, b),
{
    if (a == 'g' && b == 'b') || (a == 'b' && b == 'g') {
        Some(SecondaryColour::Cyan)
    } else if (a == 'r' && b == 'g') || (a == 'g' && b == 'r') {
        Some(SecondaryColour::Yellow)
    } else if (a == 'r' && b == 'b') || (a == 'b' && b == 'r') {
        Some(SecondaryColour::Magenta)
    } else {
        None
    }
}

/// Rank of a channel letter among equal values: `b`, then `g`, then `r`.
pub open spec fn letter_rank(c: char) -> int {
    if c == 'b' {
        0
    } else if c == 'g' {
        1
    } else {
        2
    }
}

/// Order of labelled channels: by value, then by letter.
pub open spec fn key_le(a: (Ratio, char), b: (Ratio, char)) -> bool {
    a.0.lt(b.0) || (a.0.same(b.0) && letter_rank(a.1) <= letter_rank(b.1))
}

/// Three labelled channels in ascending order.
pub open spec fn sort3(a: (Ratio, char), b: (Ratio, char), c: (Ratio, char)) -> (
    (Ratio, char),
    (Ratio, char),
    (Ratio, char),
) {
    let (a1, b1) = if key_le(a, b) {
        (a, b)
    } else {
        (b, a)
    };
    let (b2, c2) = if key_le(b1, c) {
        (b1, c)
    } else {
        (c, b1)
    };
    if key_le(a1, b2) {
        (a1, b2, c2)
    } else {
        (b2, a1, c2)
    }
}

/// The channels of a colour in ascending order, labelled by letter.
pub open spec fn sorted_channels(c: HexRGB) -> ((Ratio, char), (Ratio, char), (Ratio, char)) {
    sort3((c.red, 'r'), (c.green, 'g'), (c.blue, 'b'))
}

/// A ratio as numerator and denominator.
pub open spec fn frac(q: Ratio) -> (int, int) {
    (q.numer as int, q.denom as int)
}

/// Fractions `a` and `b`, each a numerator and a denominator, are equal.
pub open spec fn frac_eq(a: (int, int), b: (int, int)) -> bool {
    a.0 * b.1 == b.0 * a.1
}

/// Fraction `a` is less than fraction `b` (positive denominators).
pub open spec fn frac_lt(a: (int, int), b: (int, int)) -> bool {
    a.0 * b.1 < b.0 * a.1
}

/// `(max - min) / (1 - min)` as numerator and denominator.
pub open spec fn shade_fraction(m: (int, int), mx: (int, int)) -> (int, int) {
    (mx.0 * m.1 - m.0 * mx.1, mx.1 * (m.1 - m.0))
}

/// `(mid - min) / (max - min)` as numerator and denominator.
pub open spec fn blend_fraction(m: (int, int), md: (int, int), mx: (int, int)) -> (int, int) {
    ((md.0 * m.1 - m.0 * md.1) * mx.1, md.1 * (mx.0 * m.1 - m.0 * mx.1))
}

/// The SHT components of an RGB colour, each quantity over `big_d`.
///
/// With the channels sorted into minimum, middle and maximum: the tint is
/// the minimum; the shade is 0 for black, 1 where all channels are equal,
/// else `(max - min) / (1 - min)`; one strictly brightest channel is the
/// primary, with the middle channel as direction and
/// `(mid - min) / (max - min)` as blend where it exceeds the minimum; two
/// channels tied above the third give their secondary colour; three equal
/// channels give no hue.
pub open spec fn rgb_to_sht_model(c: HexRGB, big_d: int) -> (ChannelRatios, Ratio, Ratio) {
    let (lo, mid, hi) = sorted_channels(c);
    let (m, md, mx) = (lo.0, mid.0, hi.0);
    let tint = crate::parser::ratio_of(rounded_numer(m.numer as int, m.denom as int, big_d), big_d);
    let shade = rgb_shade_model(m, mx, big_d);
    let channel_ratios = if md.lt(mx) {
        if m.lt(md) {
            ChannelRatios::OneBrightestChannel {
                primary: primary_for(hi.1).unwrap(),
                direction_blend: Some(
                    (primary_for(mid.1).unwrap(), rgb_blend_model(m, md, mx, big_d)),
                ),
            }
        } else {
            ChannelRatios::OneBrightestChannel {
                primary: primary_for(hi.1).unwrap(),
                direction_blend: None,
            }
        }
    } else if m.lt(md) {
        ChannelRatios::TwoBrightestChannels { secondary: secondary_for(hi.1, mid.1).unwrap() }
    } else {
        ChannelRatios::ThreeBrightestChannels
    };
    (channel_ratios, shade, tint)
}

/// Two channel classifications agree, with blends compared by value.
pub open spec fn channel_ratios_same(a: ChannelRatios, b: ChannelRatios) -> bool {
    match (a, b) {
        (
            ChannelRatios::OneBrightestChannel { primary: p, direction_blend: Some((d, x)) },
            ChannelRatios::OneBrightestChannel { primary: q, direction_blend: Some((e, y)) },
        ) => p == q && d == e && x.same(y),
        (
            ChannelRatios::OneBrightestChannel { primary: p, direction_blend: None },
            ChannelRatios::OneBrightestChannel { primary: q, direction_blend: None },
        ) => p == q,
        (
            ChannelRatios::TwoBrightestChannels { secondary: p },
            ChannelRatios::TwoBrightestChannels { secondary: q },
        ) => p == q,
        (ChannelRatios::ThreeBrightestChannels, ChannelRatios::ThreeBrightestChannels) => true,
        _ => false,
    }
}

/// A colour has these components, up to the representation of each ratio.
pub open spec fn sht_same(s: SHT, parts: (ChannelRatios, Ratio, Ratio)) -> bool {
    &&& channel_ratios_same(s.channel_ratios, parts.0)
    &&& s.shade.same(parts.1)
    &&& s.tint.same(parts.2)
}

/// Components that agree by value violate the same invariants.
pub proof fn lemma_value_errors_same(a: (ChannelRatios, Ratio, Ratio), b: (ChannelRatios, Ratio, Ratio))
    requires
        components_wf(a.0, a.1, a.2),
        components_wf(b.0, b.1, b.2),
        channel_ratios_same(a.0, b.0),
        a.1.same(b.1),
        a.2.same(b.2),
    ensures
        value_errors(a.0, a.1, a.2) == value_errors(b.0, b.1, b.2),
{
    crate::ratio::lemma_same_value_tests(a.1, b.1);
    crate::ratio::lemma_same_value_tests(a.2, b.2);
    match (a.0, b.0) {
        (
            ChannelRatios::OneBrightestChannel { direction_blend: Some((_, x)), .. },
            ChannelRatios::OneBrightestChannel { direction_blend: Some((_, y)), .. },
        ) => {
            crate::ratio::lemma_same_value_tests(x, y);
        },
        _ => {},
    }
}

/// The order of values is transitive.
pub proof fn lemma_le_trans(a: Ratio, b: Ratio, c: Ratio)
    requires
        a.wf(),
        b.wf(),
        c.wf(),
        a.le(b),
        b.le(c),
    ensures
        a.le(c),
        a.lt(b) || b.lt(c) ==> a.lt(c),
{
    assert(a.le(c)) by (nonlinear_arith)
        requires
            a.numer * b.denom <= b.numer * a.denom,
            b.numer * c.denom <= c.numer * b.denom,
            a.denom > 0,
            b.denom > 0,
            c.denom > 0,
    ;
    assert(a.lt(b) || b.lt(c) ==> a.lt(c)) by (nonlinear_arith)
        requires
            a.numer * b.denom <= b.numer * a.denom,
            b.numer * c.denom <= c.numer * b.denom,
            a.denom > 0,
            b.denom > 0,
            c.denom > 0,
    ;
}

/// Sorting three distinctly labelled channels orders them by value and
/// keeps their labels.
pub proof fn lemma_sort3(a: (Ratio, char), b: (Ratio, char), c: (Ratio, char))
    requires
        a.0.wf(),
        b.0.wf(),
        c.0.wf(),
        a.1 == 'r',
        b.1 == 'g',
        c.1 == 'b',
    ensures
        ({
            let (x, y, z) = sort3(a, b, c);
            &&& x.0.le(y.0)
            &&& y.0.le(z.0)
            &&& x.0.wf() && y.0.wf() && z.0.wf()
            &&& x.1 != y.1 && y.1 != z.1 && x.1 != z.1
            &&& primary_for(x.1) is Some && primary_for(y.1) is Some && primary_for(z.1) is Some
            &&& (x == a || x == b || x == c)
            &&& (y == a || y == b || y == c)
            &&& (z == a || z == b || z == c)
        }),
{
    assert forall|p: Ratio, q: Ratio| p.wf() && q.wf() && !p.le(q) implies q.lt(p) by {}
    assert forall|p: Ratio, q: Ratio| p.wf() && q.wf() && p.lt(q) implies p.le(q) by {}
    assert forall|p: Ratio, q: Ratio| p.wf() && q.wf() && p.same(q) implies p.le(q) && q.le(p) by {}
    if a.0.le(b.0) && b.0.le(c.0) {
        lemma_le_trans(a.0, b.0, c.0);
    }
    if a.0.le(c.0) && c.0.le(b.0) {
        lemma_le_trans(a.0, c.0, b.0);
    }
    if b.0.le(a.0) && a.0.le(c.0) {
        lemma_le_trans(b.0, a.0, c.0);
    }
    if b.0.le(c.0) && c.0.le(a.0) {
        lemma_le_trans(b.0, c.0, a.0);
    }
    if c.0.le(a.0) && a.0.le(b.0) {
        lemma_le_trans(c.0, a.0, b.0);
    }
    if c.0.le(b.0) && b.0.le(a.0) {
        lemma_le_trans(c.0, b.0, a.0);
    }
}

/// Orders labelled channels: by value, then by letter.
fn key_less_or_equal(a: (Ratio, char), b: (Ratio, char)) -> (r: bool)
    ensures
        r == key_le(a, b),
{
    proof {
        lemma_mul_u32(a.0.numer, b.0.denom);
        lemma_mul_u32(b.0.numer, a.0.denom);
    }
    let x: u64 = (a.0.numer as u64) * (b.0.denom as u64);
    let y: u64 = (b.0.numer as u64) * (a.0.denom as u64);
    let ra: u8 = if a.1 == 'b' { 0 } else if a.1 == 'g' { 1 } else { 2 };
    let rb: u8 = if b.1 == 'b' { 0 } else if b.1 == 'g' { 1 } else { 2 };
    x < y || (x == y && ra <= rb)
}

/// Sorts three labelled channels, as `sort3` does.
fn sort_channels(a: (Ratio, char), b: (Ratio, char), c: (Ratio, char)) -> (r: (
    (Ratio, char),
    (Ratio, char),
    (Ratio, char),
))
    ensures
        r == sort3(a, b, c),
{
    let (a1, b1) = if key_less_or_equal(a, b) {
        (a, b)
    } else {
        (b, a)
    };
    let (b2, c2) = if key_less_or_equal(b1, c) {
        (b1, c)
    } else {
        (c, b1)
    };
    if key_less_or_equal(a1, b2) {
        (a1, b2, c2)
    } else {
        (b2, a1, c2)
    }
}

/// The shade of a colour with minimum `m` and maximum `mx`, over
/// `12 ^ precision`.
fn shade_of(m: Ratio, mx: Ratio, precision: usize, width: Width) -> (r: Ratio)
    requires
        m.in_unit(),
        mx.in_unit(),
        m.le(mx),
        pow(12, precision as nat) <= width.spec_max(),
    ensures
        r.wf(),
        r.same(rgb_shade_model(m, mx, pow(12, precision as nat))),
{
    proof {
        vstd::arithmetic::power::lemma_pow_positive(12, precision as nat);
    }
    if mx.numer == 0 {
        Ratio::from_integer(0)
    } else if m == mx {
        Ratio::from_integer(1)
    } else {
        proof {
            assert(m.numer < m.denom) by (nonlinear_arith)
                requires
                    m.numer * mx.denom <= mx.numer * m.denom,
                    m.numer * mx.denom != mx.numer * m.denom,
                    mx.numer <= mx.denom,
                    m.denom > 0,
                    mx.denom > 0,
            ;
            lemma_mul_u32(mx.numer, m.denom);
            lemma_mul_u32(m.numer, mx.denom);
            lemma_mul_u32(mx.denom, (m.denom - m.numer) as u32);
            assert(mx.numer * m.denom - m.numer * mx.denom <= mx.denom * (m.denom - m.numer))
                by (nonlinear_arith)
                requires mx.numer <= mx.denom, m.denom > 0, m.numer >= 0;
            assert(mx.denom * (m.denom - m.numer) > 0) by (nonlinear_arith)
                requires mx.denom > 0, m.denom > m.numer;
        }
        let n: u128 = (mx.numer as u128) * (m.denom as u128) - (m.numer as u128) * (
        mx.denom as u128);
        let d: u128 = (mx.denom as u128) * ((m.denom - m.numer) as u128);
        let q = round_fraction(n, d, 12, precision, 0, width).unwrap();
        proof {
            crate::ratio::lemma_rounded_bounds(n as int, d as int, pow(12, precision as nat));
        }
        q
    }
}

/// The blend of a colour with minimum `m`, middle `md` and maximum `mx`,
/// over `12 ^ precision`.
fn blend_of(m: Ratio, md: Ratio, mx: Ratio, precision: usize, width: Width) -> (r: Ratio)
    requires
        m.in_unit(),
        md.in_unit(),
        mx.in_unit(),
        m.lt(md),
        md.lt(mx),
        pow(12, precision as nat) <= width.spec_max(),
    ensures
        r.wf(),
        r.same(rgb_blend_model(m, md, mx, pow(12, precision as nat))),
{
    proof {
        vstd::arithmetic::power::lemma_pow_positive(12, precision as nat);
        lemma_mul_u32(md.numer, m.denom);
        lemma_mul_u32(m.numer, md.denom);
        lemma_mul_u32(mx.numer, m.denom);
        lemma_mul_u32(m.numer, mx.denom);
        assert(m.le(md));
        assert(md.le(mx));
        lemma_le_trans(m, md, mx);
    }
    let e1: u128 = (md.numer as u128) * (m.denom as u128) - (m.numer as u128) * (md.denom as u128);
    let e2: u128 = (mx.numer as u128) * (m.denom as u128) - (m.numer as u128) * (mx.denom as u128);
    proof {
        assert(e1 * mx.denom <= md.denom * e2) by (nonlinear_arith)
            requires
                e1 == md.numer * m.denom - m.numer * md.denom,
                e2 == mx.numer * m.denom - m.numer * mx.denom,
                md.numer * mx.denom <= mx.numer * md.denom,
                m.denom > 0,
        ;
        assert(md.denom * e2 > 0) by (nonlinear_arith)
            requires md.denom > 0, e2 > 0;
        assert(md.denom * e2 <= crate::ratio::WIDE_LIMIT) by (nonlinear_arith)
            requires md.denom <= 0xffff_ffff, 0 <= e2 <= 0xffff_ffff_ffff_ffff;
        assert(0 <= e1 * mx.denom) by (nonlinear_arith)
            requires e1 >= 0, mx.denom >= 0;
    }
    let n: u128 = e1 * (mx.denom as u128);
    let d: u128 = (md.denom as u128) * e2;
    let q = round_fraction(n, d, 12, precision, 0, width).unwrap();
    proof {
        crate::ratio::lemma_rounded_bounds(n as int, d as int, pow(12, precision as nat));
    }
    q
}

/// The shade of `rgb_to_sht_model`.
pub open spec fn rgb_shade_model(m: Ratio, mx: Ratio, big_d: int) -> Ratio {
    if mx.numer == 0 {
        crate::parser::ratio_of(0, 1)
    } else if m.same(mx) {
        crate::parser::ratio_of(1, 1)
    } else {
        let (n, d) = shade_fraction(frac(m), frac(mx));
        crate::parser::ratio_of(rounded_numer(n, d, big_d), big_d)
    }
}

/// The blend of `rgb_to_sht_model`.
pub open spec fn rgb_blend_model(m: Ratio, md: Ratio, mx: Ratio, big_d: int) -> Ratio {
    let (n, d) = blend_fraction(frac(m), frac(md), frac(mx));
    crate::parser::ratio_of(rounded_numer(n, d, big_d), big_d)
}

impl HexRGB {
    /// Converts the colour to SHT, each quantity rounded to `precision`
    /// base-12 digits.
    ///
    /// Fails with `Overflow` exactly when `12 ^ precision` does not fit the
    /// width; otherwise gives the colour with the components of
    /// `rgb_to_sht_model`, or every invariant of the normal form that they
    /// violate after rounding.
    pub fn to_sht(&self, precision: usize, width: Width) -> (r: Result<SHT, ToShtError>)
        requires
            self.wf(),
        ensures
            pow(12, precision as nat) <= width.spec_max() <==> !(r matches Err(
                ToShtError::Overflow,
            )),
            pow(12, precision as nat) <= width.spec_max() ==> ({
                let parts = rgb_to_sht_model(*self, pow(12, precision as nat));
                &&& value_errors(parts.0, parts.1, parts.2).len() == 0 <==> r is Ok
                &&& r matches Ok(s) ==> s.wf() && sht_same(s, parts)
                &&& r matches Err(ToShtError::ValueErrors(v)) ==> v@ == value_errors(
                    parts.0,
                    parts.1,
                    parts.2,
                )
            }),
    {
        let a = (self.red, 'r');
        let b = (self.green, 'g');
        let c = (self.blue, 'b');
        proof {
            lemma_sort3(a, b, c);
            vstd::arithmetic::power::lemma_pow_positive(12, precision as nat);
        }
        let (lo, mid, hi) = sort_channels(a, b, c);
        let m = lo.0;
        let md = mid.0;
        let mx = hi.0;
        let ghost big_d = pow(12, precision as nat);
        let ghost parts = rgb_to_sht_model(*self, big_d);
        proof {
            lemma_le_trans(m, md, mx);
        }
        let tint = match round_denominator(m, 12, precision, 0, width) {
            Ok(q) => q,
            Err(_) => return Err(ToShtError::Overflow),
        };
        proof {
            crate::ratio::lemma_rounded_bounds(m.numer as int, m.denom as int, big_d);
        }
        let shade = shade_of(m, mx, precision, width);
        let channel_ratios = if md.less_or_equal(&mx) && !mx.less_or_equal(&md) {
            let primary = char_to_primary(hi.1).unwrap();
            if m.less_or_equal(&md) && !md.less_or_equal(&m) {
                let blend = blend_of(m, md, mx, precision, width);
                let direction = char_to_primary(mid.1).unwrap();
                ChannelRatios::OneBrightestChannel {
                    primary,
                    direction_blend: Some((direction, blend)),
                }
            } else {
                ChannelRatios::OneBrightestChannel { primary, direction_blend: None }
            }
        } else if m.less_or_equal(&md) && !md.less_or_equal(&m) {
            ChannelRatios::TwoBrightestChannels {
                secondary: chars_to_secondary(hi.1, mid.1).unwrap(),
            }
        } else {
            ChannelRatios::ThreeBrightestChannels
        };
        proof {
            assert(channel_ratios_same(channel_ratios, parts.0));
            assert(shade.same(parts.1));
            assert(tint.same(parts.2));
            lemma_value_errors_same((channel_ratios, shade, tint), parts);
        }
        match SHT::new(channel_ratios, shade, tint) {
            Ok(s) => Ok(s),
            Err(errs) => Err(ToShtError::ValueErrors(errs)),
        }
    }
}

/// The secondary colour contains the channel.
pub open spec fn in_secondary(secondary: SecondaryColour, ch: ColourChannel) -> bool {
    match secondary {
        SecondaryColour::Cyan => ch != ColourChannel::Red,
        SecondaryColour::Yellow => ch != ColourChannel::Blue,
        SecondaryColour::Magenta => ch != ColourChannel::Green,
    }
}

/// The brightness of a channel of an SHT colour, as numerator and
/// denominator.
///
/// The weakest channels stand at the tint, `min = tint`; the brightest at
/// `max = tint + shade * (1 - tint)`; a direction channel at
/// `min + blend * (max - min)`.
pub open spec fn channel_level(s: SHT, ch: ColourChannel) -> (int, int) {
    let t = s.tint;
    let sh = s.shade;
    let low = (t.numer as int, t.denom as int);
    let high = (t.numer * sh.denom + sh.numer * (t.denom - t.numer), t.denom * sh.denom);
    match s.channel_ratios {
        ChannelRatios::ThreeBrightestChannels => low,
        ChannelRatios::TwoBrightestChannels { secondary } => if in_secondary(secondary, ch) {
            high
        } else {
            low
        },
        ChannelRatios::OneBrightestChannel { primary, direction_blend } => if ch == primary {
            high
        } else {
            match direction_blend {
                Some((direction, b)) => if direction == ch {
                    (
                        t.numer * sh.denom * b.denom + b.numer * sh.numer * (t.denom - t.numer),
                        t.denom * sh.denom * b.denom,
                    )
                } else {
                    low
                },
                None => low,
            }
        },
    }
}

/// `q` is the level of `ch` in `s`, rounded to a fraction over `big_d`.
pub open spec fn rounded_level(q: Ratio, s: SHT, ch: ColourChannel, big_d: int) -> bool {
    let (n, d) = channel_level(s, ch);
    q.denotes(rounded_numer(n, d, big_d), big_d)
}

/// The channel is the secondary colour's, computed.
fn secondary_has(secondary: SecondaryColour, ch: ColourChannel) -> (r: bool)
    ensures
        r == in_secondary(secondary, ch),
{
    match secondary {
        SecondaryColour::Cyan => ch != ColourChannel::Red,
        SecondaryColour::Yellow => ch != ColourChannel::Blue,
        SecondaryColour::Magenta => ch != ColourChannel::Green,
    }
}

impl SHT {
    /// The level of one channel, computed exactly.
    fn level(&self, ch: ColourChannel) -> (r: (u128, u128))
        requires
            self.wf(),
        ensures
            r.0 as int == channel_level(*self, ch).0,
            r.1 as int == channel_level(*self, ch).1,
            0 < r.1 <= crate::ratio::WIDE_LIMIT,
            r.0 <= r.1,
    {
        let t = self.tint;
        let sh = self.shade;
        proof {
            lemma_mul_u32(t.numer, sh.denom);
            lemma_mul_u32(sh.numer, (t.denom - t.numer) as u32);
            lemma_mul_u32(t.denom, sh.denom);
            assert(t.numer * sh.denom + sh.numer * (t.denom - t.numer) <= t.denom * sh.denom)
                by (nonlinear_arith)
                requires sh.numer <= sh.denom, t.numer <= t.denom, t.numer >= 0;
            assert(t.denom * sh.denom > 0) by (nonlinear_arith)
                requires t.denom > 0, sh.denom > 0;
        }
        let low = (t.numer as u128, t.denom as u128);
        let high = (
            (t.numer as u128) * (sh.denom as u128) + (sh.numer as u128) * ((t.denom - t.numer) as u128),
            (t.denom as u128) * (sh.denom as u128),
        );
        match self.channel_ratios {
            ChannelRatios::ThreeBrightestChannels => low,
            ChannelRatios::TwoBrightestChannels { secondary } => if secondary_has(secondary, ch) {
                high
            } else {
                low
            },
            ChannelRatios::OneBrightestChannel { primary, direction_blend } => if ch == primary {
                high
            } else {
                match direction_blend {
                    Some((direction, b)) => if direction == ch {
                        proof {
                            let x = t.numer * sh.denom;
                            let y = sh.numer * (t.denom - t.numer);
                            let z = t.denom * sh.denom;
                            assert(x * b.denom + b.numer * y <= z * b.denom) by (nonlinear_arith)
                                requires
                                    x + y <= z,
                                    b.numer <= b.denom,
                                    y >= 0,
                                    x >= 0,
                            ;
                            assert(b.numer * y <= 0xffff_ffff * 0xffff_ffff_ffff_ffff)
                                by (nonlinear_arith)
                                requires b.numer <= 0xffff_ffff, 0 <= y <= 0xffff_ffff_ffff_ffff;
                            assert(x * b.denom <= 0xffff_ffff_ffff_ffff * 0xffff_ffff)
                                by (nonlinear_arith)
                                requires b.denom <= 0xffff_ffff, 0 <= x <= 0xffff_ffff_ffff_ffff;
                            assert(z * b.denom <= 0xffff_ffff_ffff_ffff * 0xffff_ffff)
                                by (nonlinear_arith)
                                requires b.denom <= 0xffff_ffff, 0 <= z <= 0xffff_ffff_ffff_ffff;
                            assert(z * b.denom > 0) by (nonlinear_arith)
                                requires z > 0, b.denom > 0;
                            assert(x * b.denom + b.numer * y == t.numer * sh.denom * b.denom
                                + b.numer * sh.numer * (t.denom - t.numer)) by (nonlinear_arith)
                                requires x == t.numer * sh.denom, y == sh.numer * (t.denom - t.numer);
                            assert(z * b.denom == t.denom * sh.denom * b.denom);
                        }
                        let x: u128 = (t.numer as u128) * (sh.denom as u128);
                        let y: u128 = (sh.numer as u128) * ((t.denom - t.numer) as u128);
                        let z: u128 = (t.denom as u128) * (sh.denom as u128);
                        (x * (b.denom as u128) + (b.numer as u128) * y, z * (b.denom as u128))
                    } else {
                        low
                    },
                    None => low,
                }
            },
        }
    }

    /// Converts the colour to RGB, each channel rounded to a fraction over
    /// `16 ^ precision - 1`, the largest value of `precision` hexadecimal
    /// digits.
    ///
    /// Fails with `Overflow` exactly when `16 ^ precision` does not fit the
    /// width.
    pub fn to_rgb(&self, precision: usize, width: Width) -> (r: Result<HexRGB, ArithmeticError>)
        requires
            self.wf(),
            precision >= 1,
        ensures
            pow(16, precision as nat) <= width.spec_max() <==> r is Ok,
            r matches Ok(h) ==> h.wf() && h.red.fits(width) && h.green.fits(width) && h.blue.fits(
                width,
            ) && rounded_level(h.red, *self, ColourChannel::Red, pow(16, precision as nat) - 1)
                && rounded_level(h.green, *self, ColourChannel::Green, pow(16, precision as nat) - 1)
                && rounded_level(h.blue, *self, ColourChannel::Blue, pow(16, precision as nat) - 1),
    {
        proof {
            vstd::arithmetic::power::lemma_pow0(16);
            vstd::arithmetic::power::lemma_pow_strictly_increases(16, 0, precision as nat);
        }
        let (rn, rd) = self.level(ColourChannel::Red);
        let (gn, gd) = self.level(ColourChannel::Green);
        let (bn, bd) = self.level(ColourChannel::Blue);
        let red = match round_fraction(rn, rd, 16, precision, 1, width) {
            Ok(q) => q,
            Err(e) => return Err(e),
        };
        let green = round_fraction(gn, gd, 16, precision, 1, width).unwrap();
        let blue = round_fraction(bn, bd, 16, precision, 1, width).unwrap();
        Ok(HexRGB::new(red, green, blue))
    }
}

/// Without rounding, converting to RGB and back gives the colour again: of
/// the exact channel levels of a colour with a hue, the weakest is the tint,
/// the brightest lies strictly above it and gives back the shade through
/// `(max - min) / (1 - min)`, and a direction channel lies strictly between
/// the two and gives back the blend through `(mid - min) / (max - min)`.
/// What rounding to a number of digits then loses is not covered here.
pub proof fn lemma_levels_give_back_components(x: SHT, brightest: ColourChannel, other: ColourChannel)
    requires
        x.wf(),
        !(x.channel_ratios is ThreeBrightestChannels),
        match x.channel_ratios {
            ChannelRatios::OneBrightestChannel { primary, direction_blend } => brightest == primary
                && other != primary && match direction_blend {
                Some((direction, _)) => other != direction,
                None => true,
            },
            ChannelRatios::TwoBrightestChannels { secondary } => in_secondary(secondary, brightest)
                && !in_secondary(secondary, other),
            _ => true,
        },
    ensures
        channel_level(x, other) == frac(x.tint),
        frac_lt(channel_level(x, other), channel_level(x, brightest)),
        frac_eq(shade_fraction(channel_level(x, other), channel_level(x, brightest)), frac(x.shade)),
        x.channel_ratios matches ChannelRatios::OneBrightestChannel {
            direction_blend: Some((direction, blend)),
            ..
        } ==> {
            let low = channel_level(x, other);
            let mid = channel_level(x, direction);
            let high = channel_level(x, brightest);
            &&& frac_lt(low, mid)
            &&& frac_lt(mid, high)
            &&& frac_eq(blend_fraction(low, mid, high), frac(blend))
        },
{
    let t = x.tint;
    let sh = x.shade;
    assert(t.numer < t.denom);
    assert(sh.numer > 0 && sh.numer <= sh.denom);
    let (tn, td, sn, sd) = (t.numer as int, t.denom as int, sh.numer as int, sh.denom as int);
    let u = sn * (td - tn);
    assert(u > 0) by (nonlinear_arith)
        requires u == sn * (td - tn), sn > 0, td > tn;
    assert(td * sd > 0) by (nonlinear_arith)
        requires td > 0, sd > 0;
    let high = (tn * sd + u, td * sd);
    assert(channel_level(x, brightest) == high);
    // (max - min) over a common denominator
    let gap = high.0 * td - tn * high.1;
    assert(gap == u * td) by (nonlinear_arith)
        requires gap == (tn * sd + u) * td - tn * (td * sd);
    assert(u * td > 0) by (nonlinear_arith)
        requires u > 0, td > 0;
    assert(frac_lt((tn, td), high));
    let sf = shade_fraction((tn, td), high);
    assert(sf == (gap, td * sd * (td - tn)));
    assert(u * td * sd == sn * (td * sd * (td - tn))) by (nonlinear_arith)
        requires u == sn * (td - tn);
    assert(frac_eq(sf, (sn, sd)));
    match x.channel_ratios {
        ChannelRatios::OneBrightestChannel { direction_blend: Some((direction, blend)), .. } => {
            let (bn, bd) = (blend.numer as int, blend.denom as int);
            assert(0 < bn < bd);
            assert(bn * sn * (td - tn) == bn * u) by (nonlinear_arith)
                requires u == sn * (td - tn);
            let mid = (tn * sd * bd + bn * u, td * sd * bd);
            assert(channel_level(x, direction) == (tn * sd * bd + bn * sn * (td - tn), td * sd * bd));
            assert(channel_level(x, direction) == mid);
            let lo_gap = mid.0 * td - tn * mid.1;
            assert(lo_gap == bn * u * td) by (nonlinear_arith)
                requires lo_gap == (tn * sd * bd + bn * u) * td - tn * (td * sd * bd);
            assert(bn * u * td > 0) by (nonlinear_arith)
                requires bn > 0, u > 0, td > 0;
            assert(frac_lt((tn, td), mid));
            let hi_gap = high.0 * mid.1 - mid.0 * high.1;
            let a = tn * sd;
            let w = td * sd;
            assert(td * sd * bd == w * bd) by (nonlinear_arith)
                requires w == td * sd;
            assert(tn * sd * bd == a * bd) by (nonlinear_arith)
                requires a == tn * sd;
            assert(hi_gap == (a + u) * (w * bd) - (a * bd + bn * u) * w);
            assert(hi_gap == u * w * (bd - bn)) by (nonlinear_arith)
                requires hi_gap == (a + u) * (w * bd) - (a * bd + bn * u) * w;
            assert(u * w * (bd - bn) > 0) by (nonlinear_arith)
                requires bd > bn, u > 0, w > 0;
            assert(frac_lt(mid, high));
            let bf = blend_fraction((tn, td), mid, high);
            assert(bf == (lo_gap * (td * sd), (td * sd * bd) * gap));
            assert(lo_gap * (td * sd) * bd == bn * ((td * sd * bd) * gap)) by (nonlinear_arith)
                requires lo_gap == bn * u * td, gap == u * td;
            assert(frac_eq(bf, (bn, bd)));
        },
        _ => {},
    }
}

} // verus!
