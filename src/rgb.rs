//! RGB colours as three channel ratios, and their hexadecimal codes.
use vstd::prelude::*;
use vstd::arithmetic::power::pow;
use crate::ratio::{Ratio, Width, checked_pow, lemma_mul_u32};
use crate::parser::{chars_of, string_of, lemma_pow16_step};

verus! {

/// Errors of parsing a hexadecimal colour code.
#[derive(Debug, Clone, Copy, PartialEq, Eq, Structural, Hash)]
pub enum ParseHexError {
    /// The code has no characters.
    EmptyCode,
    /// The code does not begin with `#`.
    MissingOctothorpe,
    /// The number of digits is not a multiple of three.
    InvalidDigitCount,
    /// A channel has no digits, a character that is not a hexadecimal
    /// digit, or a value too large for the width.
    DigitParseError,
    /// The denominator of a channel does not fit the width.
    Overflow,
}

/// A colour as the brightness of its red, green and blue channels, each a
/// ratio between 0 and 1.
#[derive(Debug, Clone, Copy, PartialEq)]
pub struct HexRGB {
    pub red: Ratio,
    pub green: Ratio,
    pub blue: Ratio,
}

/// The value of a hexadecimal digit character, in either case.
pub open spec fn hex_digit_of(c: char) -> Option<nat> {
    match c {
        '0' => Some(0),
        '1' => Some(1),
        '2' => Some(2),
        '3' => Some(3),
        '4' => Some(4),
        '5' => Some(5),
        '6' => Some(6),
        '7' => Some(7),
        '8' => Some(8),
        '9' => Some(9),
        'a' | 'A' => Some(10),
        'b' | 'B' => Some(11),
        'c' | 'C' => Some(12),
        'd' | 'D' => Some(13),
        'e' | 'E' => Some(14),
        'f' | 'F' => Some(15),
        _ => None,
    }
}

/// Every character is a hexadecimal digit.
pub open spec fn all_hex(ds: Seq<char>) -> bool {
    forall|i: int| 0 <= i < ds.len() ==> (#[trigger] hex_digit_of(ds[i])) is Some
}

/// The digits read as a base-16 integer, most significant first.
pub open spec fn hex_value(ds: Seq<char>) -> int
    decreases ds.len(),
{
    if ds.len() == 0 {
        0
    } else {
        hex_value(ds.drop_last()) * 16 + hex_digit_of(ds.last()).unwrap_or(0)
    }
}

/// What parsing one channel's digits gives: its value over `16 ^ len - 1`,
/// or the error.
pub open spec fn channel_spec(ds: Seq<char>, w: Width) -> Result<(int, int), ParseHexError> {
    if ds.len() == 0 || !all_hex(ds) || hex_value(ds) > w.spec_max() {
        Err(ParseHexError::DigitParseError)
    } else if pow(16, ds.len()) > w.spec_max() {
        Err(ParseHexError::Overflow)
    } else {
        Ok((hex_value(ds), pow(16, ds.len()) - 1))
    }
}

/// The value of a hexadecimal digit character.
fn hex_digit(c: char) -> (r: Option<u8>)
    ensures
        r is Some <==> hex_digit_of(c) is Some,
        r matches Some(v) ==> hex_digit_of(c) == Some(v as nat) && v < 16,
{
    match c {
        '0' => Some(0),
        '1' => Some(1),
        '2' => Some(2),
        '3' => Some(3),
        '4' => Some(4),
        '5' => Some(5),
        '6' => Some(6),
        '7' => Some(7),
        '8' => Some(8),
        '9' => Some(9),
        'a' | 'A' => Some(10),
        'b' | 'B' => Some(11),
        'c' | 'C' => Some(12),
        'd' | 'D' => Some(13),
        'e' | 'E' => Some(14),
        'f' | 'F' => Some(15),
        _ => None,
    }
}

/// Parses a string of hexadecimal digits as a ratio between 0 and 1: its
/// value over `16 ^ len - 1`, the largest value of that many digits.
pub fn parse_channel(digits: &[char], width: Width) -> (r: Result<Ratio, ParseHexError>)
    ensures
        match channel_spec(digits@, width) {
            Ok((n, d)) => r matches Ok(q) && q.numer == n && q.denom == d && q.in_unit() && q.fits(
                width,
            ),
            Err(e) => r == Err::<Ratio, ParseHexError>(e),
        },
{
    if digits.len() == 0 {
        return Err(ParseHexError::DigitParseError);
    }
    let max: u64 = width.max_value() as u64;
    let mut value: u64 = 0;
    let mut denom: u64 = 1;
    let mut i: usize = 0;
    let mut too_large: bool = false;
    proof {
        vstd::arithmetic::power::lemma_pow0(16);
        assert(digits@.take(0) =~= Seq::<char>::empty());
    }
    while i < digits.len()
        invariant
            i <= digits@.len(),
            max == width.spec_max(),
            forall|j: int| 0 <= j < i ==> (#[trigger] hex_digit_of(digits@[j])) is Some,
            !too_large ==> value == hex_value(digits@.take(i as int)) && value <= max,
            too_large ==> hex_value(digits@.take(i as int)) > max,
            denom == (if pow(16, i as nat) <= max { pow(16, i as nat) } else { max + 1 }),
            denom <= max + 1,
            pow(16, i as nat) > 0,
        decreases digits@.len() - i,
    {
        let d = match hex_digit(digits[i]) {
            Some(d) => d,
            None => {
                proof {
                    assert(!all_hex(digits@));
                }
                return Err(ParseHexError::DigitParseError);
            },
        };
        proof {
            let t = digits@.take(i + 1);
            assert(t.drop_last() =~= digits@.take(i as int));
            assert(t.last() == digits@[i as int]);
            lemma_pow16_step(i as nat);
            vstd::arithmetic::power::lemma_pow_positive(16, (i + 1) as nat);
            if too_large {
                assert(hex_value(t) >= hex_value(digits@.take(i as int)) * 16);
            }
        }
        if !too_large {
            let next: u64 = value * 16 + d as u64;
            if next > max {
                too_large = true;
            } else {
                value = next;
            }
        }
        if denom <= max {
            denom = if denom * 16 <= max { denom * 16 } else { max + 1 };
        }
        proof {
            if pow(16, i as nat) > max {
                assert(pow(16, (i + 1) as nat) > max);
            }
        }
        i = i + 1;
    }
    proof {
        assert(digits@.take(i as int) =~= digits@);
        assert(all_hex(digits@));
    }
    if too_large {
        return Err(ParseHexError::DigitParseError);
    }
    if denom > max {
        return Err(ParseHexError::Overflow);
    }
    let d = (denom - 1) as u32;
    proof {
        lemma_hex_value_bound(digits@);
        vstd::arithmetic::power::lemma_pow0(16);
        vstd::arithmetic::power::lemma_pow_strictly_increases(16, 0, digits@.len());
        assert(value < denom);
        assert(channel_spec(digits@, width) == Ok::<(int, int), ParseHexError>((value as int, d as int)));
    }
    Ok(Ratio { numer: value as u32, denom: d })
}

/// A number of `n` hexadecimal digits is less than `16 ^ n`.
pub proof fn lemma_hex_value_bound(ds: Seq<char>)
    requires
        all_hex(ds),
    ensures
        0 <= hex_value(ds) < pow(16, ds.len()),
    decreases ds.len(),
{
    if ds.len() == 0 {
        vstd::arithmetic::power::lemma_pow0(16);
    } else {
        assert(all_hex(ds.drop_last())) by {
            assert forall|i: int| 0 <= i < ds.drop_last().len() implies (#[trigger] hex_digit_of(
                ds.drop_last()[i],
            )) is Some by {
                assert(ds.drop_last()[i] == ds[i]);
            }
        }
        lemma_hex_value_bound(ds.drop_last());
        lemma_pow16_step((ds.len() - 1) as nat);
        assert(hex_digit_of(ds[ds.len() - 1]) is Some);
    }
}

/// The characters of `s` from `start` up to `end`.
fn copy_range(s: &[char], start: usize, end: usize) -> (r: Vec<char>)
    requires
        start <= end <= s@.len(),
    ensures
        r@ == s@.subrange(start as int, end as int),
{
    let mut out: Vec<char> = Vec::new();
    let mut i: usize = start;
    while i < end
        invariant
            start <= i <= end <= s@.len(),
            out@ == s@.subrange(start as int, i as int),
        decreases end - i,
    {
        out.push(s[i]);
        proof {
            assert(s@.subrange(start as int, i + 1) =~= s@.subrange(start as int, i as int).push(
                s@[i as int],
            ));
        }
        i = i + 1;
    }
    out
}

/// Splits digits into three parts of equal length (the last part takes
/// what is left where the length is not a multiple of three).
pub fn channel_split(s: &[char]) -> (r: (Vec<char>, Vec<char>, Vec<char>))
    ensures
        r.0@ == s@.subrange(0, s@.len() as int / 3),
        r.1@ == s@.subrange(s@.len() as int / 3, 2 * (s@.len() as int / 3)),
        r.2@ == s@.subrange(2 * (s@.len() as int / 3), s@.len() as int),
{
    let first = s.len() / 3;
    let second = first * 2;
    (copy_range(s, 0, first), copy_range(s, first, second), copy_range(s, second, s.len()))
}

/// The result of parsing a hexadecimal colour code: `#` and then a number of
/// digits divisible by three, a third for each of red, green and blue. The
/// first failing channel, in that order, gives the error.
pub open spec fn parse_hex_spec(s: Seq<char>, w: Width) -> Result<
    ((int, int), (int, int), (int, int)),
    ParseHexError,
> {
    if s.len() == 0 {
        Err(ParseHexError::EmptyCode)
    } else if s[0] != '#' {
        Err(ParseHexError::MissingOctothorpe)
    } else if (s.len() - 1) % 3 != 0 {
        Err(ParseHexError::InvalidDigitCount)
    } else {
        let t = (s.len() - 1) / 3;
        match channel_spec(s.subrange(1, 1 + t), w) {
            Err(e) => Err(e),
            Ok(r) => match channel_spec(s.subrange(1 + t, 1 + 2 * t), w) {
                Err(e) => Err(e),
                Ok(g) => match channel_spec(s.subrange(1 + 2 * t, s.len() as int), w) {
                    Err(e) => Err(e),
                    Ok(b) => Ok((r, g, b)),
                },
            },
        }
    }
}

/// `q` is the ratio with this numerator and denominator.
pub open spec fn is_fraction(q: Ratio, nd: (int, int)) -> bool {
    q.numer == nd.0 && q.denom == nd.1
}

impl HexRGB {
    /// Every channel lies in the unit interval.
    pub open spec fn wf(self) -> bool {
        self.red.in_unit() && self.green.in_unit() && self.blue.in_unit()
    }

    /// A colour from its three channels.
    pub fn new(red: Ratio, green: Ratio, blue: Ratio) -> (r: HexRGB)
        ensures
            r == (HexRGB { red, green, blue }),
    {
        HexRGB { red, green, blue }
    }

    /// The three channels: red, green and blue.
    pub fn components(self) -> (r: (Ratio, Ratio, Ratio))
        ensures
            r == (self.red, self.green, self.blue),
    {
        (self.red, self.green, self.blue)
    }

    /// Parses a hexadecimal code such as `#F80` or `#FF8800`, each channel a
    /// fraction over the largest value of its digits.
    pub fn parse(code: &str, width: Width) -> (r: Result<HexRGB, ParseHexError>)
        ensures
            match parse_hex_spec(code@, width) {
                Ok((red, green, blue)) => r matches Ok(h) && is_fraction(h.red, red) && is_fraction(
                    h.green,
                    green,
                ) && is_fraction(h.blue, blue) && h.wf(),
                Err(e) => r == Err::<HexRGB, ParseHexError>(e),
            },
    {
        let s = chars_of(code);
        if s.len() == 0 {
            return Err(ParseHexError::EmptyCode);
        }
        if s[0] != '#' {
            return Err(ParseHexError::MissingOctothorpe);
        }
        let digits = copy_range(s.as_slice(), 1, s.len());
        if digits.len() % 3 != 0 {
            return Err(ParseHexError::InvalidDigitCount);
        }
        let (red_digits, green_digits, blue_digits) = channel_split(digits.as_slice());
        proof {
            let t = (s@.len() - 1) / 3;
            assert(red_digits@ =~= s@.subrange(1, 1 + t));
            assert(green_digits@ =~= s@.subrange(1 + t, 1 + 2 * t));
            assert(blue_digits@ =~= s@.subrange(1 + 2 * t, s@.len() as int));
        }
        let red = match parse_channel(red_digits.as_slice(), width) {
            Ok(q) => q,
            Err(e) => return Err(e),
        };
        let green = match parse_channel(green_digits.as_slice(), width) {
            Ok(q) => q,
            Err(e) => return Err(e),
        };
        let blue = match parse_channel(blue_digits.as_slice(), width) {
            Ok(q) => q,
            Err(e) => return Err(e),
        };
        Ok(HexRGB::new(red, green, blue))
    }
}

/// The uppercase character of a hexadecimal digit.
pub open spec fn hex_char(v: nat) -> char {
    if v < 10 {
        ((v + 48) as u8) as char
    } else {
        ((v + 55) as u8) as char
    }
}

/// The last `count` hexadecimal digits of `v`, most significant first.
pub open spec fn hex_text(v: nat, count: nat) -> Seq<char>
    decreases count,
{
    if count == 0 {
        seq![]
    } else {
        hex_text(v / 16, (count - 1) as nat).push(hex_char(v % 16))
    }
}

/// The integer part of `q` times `big_d`.
pub open spec fn scaled_floor(q: Ratio, big_d: int) -> nat {
    ((q.numer * big_d) / (q.denom as int)) as nat
}

/// The hexadecimal code of a colour with `digits` digits per channel (at
/// least one): each channel times `16 ^ digits - 1`, rounded down.
pub open spec fn hex_code(c: HexRGB, digits: nat) -> Seq<char> {
    let big_d = pow(16, digits) - 1;
    let n = if digits == 0 { 1nat } else { digits };
    seq!['#'] + hex_text(scaled_floor(c.red, big_d), n) + hex_text(scaled_floor(c.green, big_d), n)
        + hex_text(scaled_floor(c.blue, big_d), n)
}

/// The uppercase character of a hexadecimal digit.
fn hex_char_of(v: u64) -> (c: char)
    requires
        v < 16,
    ensures
        c == hex_char(v as nat),
{
    let b: u8 = if v < 10 { (v + 48) as u8 } else { (v + 55) as u8 };
    b as char
}

/// Appends the last `count` hexadecimal digits of `v` to `out`.
fn push_hex(out: &mut Vec<char>, v: u64, count: usize)
    ensures
        final(out)@ == old(out)@ + hex_text(v as nat, count as nat),
{
    let mut digits: Vec<char> = Vec::new();
    let mut rest: u64 = v;
    let mut i: usize = 0;
    while i < count
        invariant
            i <= count,
            hex_text(v as nat, count as nat) == hex_text(rest as nat, (count - i) as nat) + digits@,
        decreases count - i,
    {
        let c = hex_char_of(rest % 16);
        proof {
            assert(hex_text(rest as nat, (count - i) as nat) == hex_text(
                (rest / 16) as nat,
                (count - i - 1) as nat,
            ).push(hex_char((rest % 16) as nat)));
            assert(hex_text((rest / 16) as nat, (count - i - 1) as nat).push(
                hex_char((rest % 16) as nat),
            ) + digits@ =~= hex_text((rest / 16) as nat, (count - i - 1) as nat) + seq![c].add(
                digits@,
            ));
        }
        digits.insert(0, c);
        rest = rest / 16;
        i = i + 1;
    }
    proof {
        assert(hex_text(rest as nat, 0) + digits@ =~= digits@);
    }
    out.append(&mut digits);
}

impl HexRGB {
    /// The hexadecimal code of the colour, with `digits` uppercase digits per
    /// channel (at least one). Each channel is its ratio times
    /// `16 ^ digits - 1`, rounded down. `None` where `16 ^ digits` does not
    /// fit the width.
    pub fn format_hex(&self, digits: usize, width: Width) -> (r: Option<String>)
        requires
            self.wf(),
        ensures
            pow(16, digits as nat) <= width.spec_max() <==> r is Some,
            r matches Some(t) ==> t@ == hex_code(*self, digits as nat),
    {
        let p = match checked_pow(16, digits) {
            Some(p) => p,
            None => return None,
        };
        if p > width.max_value() {
            return None;
        }
        proof {
            vstd::arithmetic::power::lemma_pow_positive(16, digits as nat);
        }
        let big_d: u32 = p - 1;
        let n: usize = if digits == 0 { 1 } else { digits };
        let mut out: Vec<char> = vec!['#'];
        let channels = [self.red, self.green, self.blue];
        let mut k: usize = 0;
        while k < 3
            invariant
                k <= 3,
                channels@ == seq![self.red, self.green, self.blue],
                self.wf(),
                big_d == pow(16, digits as nat) - 1,
                n == (if digits == 0 { 1nat } else { digits as nat }),
                out@ == seq!['#'] + (if k >= 1 { hex_text(scaled_floor(self.red, big_d as int), n as nat) } else { seq![] })
                    + (if k >= 2 { hex_text(scaled_floor(self.green, big_d as int), n as nat) } else { seq![] })
                    + (if k >= 3 { hex_text(scaled_floor(self.blue, big_d as int), n as nat) } else { seq![] }),
            decreases 3 - k,
        {
            let q = channels[k];
            proof {
                lemma_mul_u32(q.numer, big_d);
            }
            let v: u64 = (q.numer as u64) * (big_d as u64) / (q.denom as u64);
            push_hex(&mut out, v, n);
            k = k + 1;
        }
        proof {
            assert(out@ =~= hex_code(*self, digits as nat));
        }
        Some(string_of(out.as_slice(), 0))
    }
}

impl Default for HexRGB {
    /// Pure red.
    fn default() -> (r: HexRGB)
        ensures
            r == (HexRGB {
                red: Ratio { numer: 1, denom: 1 },
                green: Ratio { numer: 0, denom: 1 },
                blue: Ratio { numer: 0, denom: 1 },
            }),
    {
        HexRGB {
            red: Ratio::from_integer(1),
            green: Ratio::from_integer(0),
            blue: Ratio::from_integer(0),
        }
    }
}

} // verus!
