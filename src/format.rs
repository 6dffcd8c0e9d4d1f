//! Rendering of fractions as base-12 digit strings, and of colours as SHT
//! codes.
use vstd::prelude::*;
use crate::ratio::Ratio;
use crate::sht::{ChannelRatios, ColourChannel, SecondaryColour, SHT};
use crate::parser::{string_of, spec_quantity, digit_of, digit_run_end, horner, max_digits, ratio_of, lemma_pow12_step};
use crate::ratio::Width;
use vstd::arithmetic::power::pow;

verus! {

/// The digits with one added to the last, carried leftward through any
/// digits that would reach twelve; a carry out of the first digit leaves
/// the single digit 12. Without `round_up` the digits are unchanged.
pub open spec fn round_spec(ds: Seq<u8>, round_up: bool) -> Seq<u8>
    decreases ds.len(),
{
    if !round_up {
        ds
    } else if ds.len() == 0 {
        seq![12u8]
    } else if ds.last() < 11 {
        ds.drop_last().push((ds.last() + 1) as u8)
    } else {
        round_spec(ds.drop_last(), true)
    }
}

/// Possibly rounds up a base-12 number given as its digits.
pub fn round(input: &[u8], round_up: bool) -> (r: Vec<u8>)
    ensures
        r@ == round_spec(input@, round_up),
{
    let mut n: usize = input.len();
    proof {
        assert(input@.take(input@.len() as int) =~= input@);
    }
    if round_up {
        while n > 0 && input[n - 1] >= 11
            invariant
                n <= input@.len(),
                round_spec(input@, true) == round_spec(input@.take(n as int), true),
            decreases n,
        {
            proof {
                assert(input@.take(n as int).drop_last() =~= input@.take(n - 1));
            }
            n = n - 1;
        }
    }
    let mut out: Vec<u8> = Vec::new();
    let keep: usize = if round_up && n > 0 { n - 1 } else { n };
    let mut i: usize = 0;
    while i < keep
        invariant
            keep <= n <= input@.len(),
            i <= keep,
            out@ == input@.take(i as int),
        decreases keep - i,
    {
        out.push(input[i]);
        proof {
            assert(input@.take(i + 1) =~= input@.take(i as int).push(input@[i as int]));
        }
        i = i + 1;
    }
    proof {
        assert(input@.take(input@.len() as int) =~= input@);
    }
    if round_up {
        if n == 0 {
            out.push(12);
        } else {
            out.push(input[n - 1] + 1);
            proof {
                assert(input@.take(n as int).drop_last() =~= input@.take(keep as int));
            }
        }
    }
    out
}

/// The character of a digit: `0` to `9`, `X`, `E`, and `W` for twelve or
/// more.
pub open spec fn digit_char(d: u8) -> char {
    if d < 10 {
        ((d + 48) as u8) as char
    } else if d == 10 {
        'X'
    } else if d == 11 {
        'E'
    } else {
        'W'
    }
}

/// Long division of `rem / d` in base 12, for `count` digits at most: the
/// digits, and whether the remainder after the last of them is at least a
/// half. Stops early, without rounding, where the remainder becomes zero.
pub open spec fn long_division(rem: nat, d: nat, count: nat) -> (Seq<u8>, bool)
    decreases count,
{
    if count == 0 || d == 0 {
        (seq![], false)
    } else {
        let digit = ((rem * 12) / d) as u8;
        let next = (rem * 12) % d;
        if count == 1 {
            (seq![digit], 2 * next >= d)
        } else if next == 0 {
            (seq![digit], false)
        } else {
            let (rest, up) = long_division(next, d, (count - 1) as nat);
            (seq![digit] + rest, up)
        }
    }
}

/// The text of a fraction to `precision` base-12 digits: `W` for one or
/// more, `0` for no digits, otherwise the digits of its long division,
/// rounded half up.
pub open spec fn duodecimal_spec(input: Ratio, precision: nat) -> Seq<char> {
    if input.numer >= input.denom {
        seq!['W']
    } else if precision == 0 {
        seq!['0']
    } else {
        let (ds, up) = long_division(input.numer as nat, input.denom as nat, precision);
        round_spec(ds, up).map_values(|d: u8| digit_char(d))
    }
}

/// The character of a digit.
fn char_of_digit(d: u8) -> (c: char)
    ensures
        c == digit_char(d),
{
    match d {
        0 => '0',
        1 => '1',
        2 => '2',
        3 => '3',
        4 => '4',
        5 => '5',
        6 => '6',
        7 => '7',
        8 => '8',
        9 => '9',
        10 => 'X',
        11 => 'E',
        _ => 'W',
    }
}

/// The characters of `duodecimal`.
fn duodecimal_chars(input: Ratio, precision: usize) -> (r: Vec<char>)
    requires
        input.wf(),
    ensures
        r@ == duodecimal_spec(input, precision as nat),
{
    if input.numer >= input.denom {
        return vec!['W'];
    }
    if precision == 0 {
        return vec!['0'];
    }
    let d: u64 = input.denom as u64;
    let mut rem: u64 = input.numer as u64;
    let mut digits: Vec<u8> = Vec::new();
    let mut left: usize = precision;
    let mut round_up: bool = false;
    let ghost whole = long_division(input.numer as nat, d as nat, precision as nat);
    while left > 0
        invariant
            0 < d <= u32::MAX,
            rem < d,
            left <= precision,
            left > 0 ==> !round_up,
            ({
                let (ds, up) = long_division(rem as nat, d as nat, left as nat);
                left > 0 ==> whole == (digits@ + ds, up)
            }),
            left == 0 ==> whole == (digits@, round_up),
        decreases left,
    {
        let scaled: u64 = rem * 12;
        let digit: u8 = (scaled / d) as u8;
        let next: u64 = scaled % d;
        proof {
            assert(scaled / d < 12) by (nonlinear_arith)
                requires scaled == rem * 12, rem < d, d > 0;
            let (ds, up) = long_division(rem as nat, d as nat, left as nat);
            if left > 1 && next != 0 {
                let (rest, up2) = long_division(next as nat, d as nat, (left - 1) as nat);
                assert(digits@.push(digit) + rest =~= digits@ + ds);
            } else {
                assert(digits@.push(digit) =~= digits@ + ds);
            }
        }
        digits.push(digit);
        rem = next;
        if left == 1 {
            round_up = 2 * next >= d;
            left = 0;
        } else if next == 0 {
            left = 0;
        } else {
            left = left - 1;
        }
    }
    let rounded = round(digits.as_slice(), round_up);
    let mut out: Vec<char> = Vec::new();
    let mut i: usize = 0;
    while i < rounded.len()
        invariant
            i <= rounded@.len(),
            out@ == rounded@.take(i as int).map_values(|x: u8| digit_char(x)),
        decreases rounded@.len() - i,
    {
        out.push(char_of_digit(rounded[i]));
        proof {
            assert(rounded@.take(i + 1) =~= rounded@.take(i as int).push(rounded@[i as int]));
            assert(rounded@.take(i + 1).map_values(|x: u8| digit_char(x)) =~= rounded@.take(
                i as int,
            ).map_values(|x: u8| digit_char(x)).push(digit_char(rounded@[i as int])));
        }
        i = i + 1;
    }
    proof {
        assert(rounded@.take(rounded@.len() as int) =~= rounded@);
    }
    out
}

/// Renders a fraction as base-12 digits, to `precision` digits at most,
/// rounding the last digit half up. `X` and `E` stand for ten and eleven;
/// `W` stands for one, which a carry out of the first digit also gives.
pub fn duodecimal(input: Ratio, precision: usize) -> (r: String)
    requires
        input.wf(),
    ensures
        r@ == duodecimal_spec(input, precision as nat),
{
    let cs = duodecimal_chars(input, precision);
    string_of(cs.as_slice(), 0)
}

/// The letter of a primary colour.
pub open spec fn primary_letter(c: ColourChannel) -> char {
    match c {
        ColourChannel::Red => 'r',
        ColourChannel::Green => 'g',
        ColourChannel::Blue => 'b',
    }
}

/// The letter of a secondary colour.
pub open spec fn secondary_letter(c: SecondaryColour) -> char {
    match c {
        SecondaryColour::Cyan => 'c',
        SecondaryColour::Yellow => 'y',
        SecondaryColour::Magenta => 'm',
    }
}

/// The SHT code of a colour: the shade unless it is 1 or the tint is 1
/// (white, whatever its shade), the hue letters with blend and direction,
/// and the tint unless it is 0, each quantity to `precision` digits.
pub open spec fn sht_text(c: SHT, precision: nat) -> Seq<char> {
    let shade = if c.shade.numer == c.shade.denom || c.tint.numer == c.tint.denom {
        seq![]
    } else {
        duodecimal_spec(c.shade, precision)
    };
    let hue = match c.channel_ratios {
        ChannelRatios::OneBrightestChannel { primary, direction_blend: None } => seq![
            primary_letter(primary),
        ],
        ChannelRatios::OneBrightestChannel {
            primary,
            direction_blend: Some((direction, blend)),
        } => seq![primary_letter(primary)] + duodecimal_spec(blend, precision) + seq![
            primary_letter(direction),
        ],
        ChannelRatios::TwoBrightestChannels { secondary } => seq![secondary_letter(secondary)],
        ChannelRatios::ThreeBrightestChannels => seq![],
    };
    let tint = if c.tint.numer == 0 {
        seq![]
    } else {
        duodecimal_spec(c.tint, precision)
    };
    shade + hue + tint
}

/// The letter of a primary colour.
fn primary_char(c: ColourChannel) -> (r: char)
    ensures
        r == primary_letter(c),
{
    match c {
        ColourChannel::Red => 'r',
        ColourChannel::Green => 'g',
        ColourChannel::Blue => 'b',
    }
}

/// The letter of a secondary colour.
fn secondary_char(c: SecondaryColour) -> (r: char)
    ensures
        r == secondary_letter(c),
{
    match c {
        SecondaryColour::Cyan => 'c',
        SecondaryColour::Yellow => 'y',
        SecondaryColour::Magenta => 'm',
    }
}

/// Renders a colour as an SHT code, each quantity to `precision` base-12
/// digits at most.
pub fn format_sht(colour: &SHT, precision: usize) -> (r: String)
    requires
        colour.wf(),
    ensures
        r@ == sht_text(*colour, precision as nat),
{
    let mut out: Vec<char> = Vec::new();
    if colour.shade.numer != colour.shade.denom && colour.tint.numer != colour.tint.denom {
        let mut part = duodecimal_chars(colour.shade, precision);
        out.append(&mut part);
    }
    match colour.channel_ratios {
        ChannelRatios::OneBrightestChannel { primary, direction_blend } => {
            out.push(primary_char(primary));
            match direction_blend {
                Some((direction, blend)) => {
                    let mut part = duodecimal_chars(blend, precision);
                    out.append(&mut part);
                    out.push(primary_char(direction));
                },
                None => {},
            }
        },
        ChannelRatios::TwoBrightestChannels { secondary } => {
            out.push(secondary_char(secondary));
        },
        ChannelRatios::ThreeBrightestChannels => {},
    }
    if colour.tint.numer != 0 {
        let mut part = duodecimal_chars(colour.tint, precision);
        out.append(&mut part);
    }
    assert(out@ =~= sht_text(*colour, precision as nat));
    string_of(out.as_slice(), 0)
}

impl SHT {
    /// The SHT code of the colour, to two base-12 digits per quantity.
    pub fn to_string(&self) -> (r: String)
        requires
            self.wf(),
        ensures
            r@ == sht_text(*self, 2),
    {
        format_sht(self, 2)
    }
}

/// Every base-12 digit survives a round trip: the fraction `d / 12`
/// formatted to one digit is that digit's character, and the character
/// parsed is `d / 12` again, at any width.
pub proof fn lemma_digit_round_trip(d: u8, w: Width)
    requires
        d < 12,
    ensures
        duodecimal_spec(ratio_of(d as int, 12), 1) == seq![digit_char(d)],
        spec_quantity(seq![digit_char(d)], 0, w) == Some((1int, d as int, 12int)),
{
    let s = seq![digit_char(d)];
    assert(digit_of(digit_char(d)) == Some(d as nat)) by {
        assert(d == 0 || d == 1 || d == 2 || d == 3 || d == 4 || d == 5 || d == 6 || d == 7 || d
            == 8 || d == 9 || d == 10 || d == 11);
    }
    let (ds, up) = long_division(d as nat, 12, 1);
    assert((d as nat * 12) / 12 == d as nat);
    assert((d as nat * 12) % 12 == 0);
    assert(ds =~= seq![d]);
    assert(!up);
    assert(round_spec(ds, up).map_values(|x: u8| digit_char(x)) =~= seq![digit_char(d)]);
    assert(digit_run_end(s, 1) == 1);
    assert(digit_run_end(s, 0) == 1);
    let sub = s.subrange(0, 1);
    assert(sub =~= s);
    assert(sub.take(1) =~= s);
    assert(s.drop_last() =~= Seq::<char>::empty());
    assert(horner(s.drop_last()) == 0);
    assert(s.last() == digit_char(d));
    assert(horner(s) == d as int);
    lemma_pow12_step(0);
    vstd::arithmetic::power::lemma_pow0(12);
    assert(max_digits(w) >= 2);
}

/// Eleven in every place: `k` elevens read as a base-12 integer are one
/// less than `12 ^ k`.
pub proof fn lemma_horner_elevens(k: nat)
    ensures
        horner(Seq::new(k, |i: int| 'E')) == pow(12, k) - 1,
    decreases k,
{
    let s = Seq::new(k, |i: int| 'E');
    if k == 0 {
        vstd::arithmetic::power::lemma_pow0(12);
    } else {
        assert(s.drop_last() =~= Seq::new((k - 1) as nat, |i: int| 'E'));
        lemma_horner_elevens((k - 1) as nat);
        lemma_pow12_step((k - 1) as nat);
    }
}

/// A run of `E` digits longer than the width can hold is rounded up all the
/// way to exactly 1: the carry from the first dropped digit runs through
/// every kept digit.
pub proof fn lemma_elevens_carry_to_one(n: nat, w: Width)
    requires
        n > max_digits(w),
    ensures
        spec_quantity(Seq::new(n, |i: int| 'E'), 0, w) matches Some((e, num, den)) && e == n && num
            == den,
{
    let s = Seq::new(n, |i: int| 'E');
    let k = max_digits(w);
    assert forall|p: int| 0 <= p <= n implies digit_run_end(s, p) == n by {
        lemma_run_of_elevens(n, p);
    }
    let sub = s.subrange(0, n as int);
    assert(sub =~= s);
    assert(sub.take(k as int) =~= Seq::new(k, |i: int| 'E'));
    lemma_horner_elevens(k);
}

/// In a run of `E` digits, every run from `p` on ends at the end.
pub proof fn lemma_run_of_elevens(n: nat, p: int)
    requires
        0 <= p <= n,
    ensures
        digit_run_end(Seq::new(n, |i: int| 'E'), p) == n,
    decreases n - p,
{
    if p < n {
        lemma_run_of_elevens(n, p + 1);
    }
}

} // verus!
