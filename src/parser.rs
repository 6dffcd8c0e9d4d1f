//! Parsing of SHT codes: `[shade] channel [tint]`, a bare zero shade, a bare
//! tint, or `W` for white. Quantities are base-12 fractions whose digits
//! beyond the precision of the width are rounded.
use vstd::prelude::*;
use vstd::arithmetic::power::pow;
use vstd::arithmetic::power::lemma_pow_strictly_increases;
use vstd::std_specs::iter::IteratorSpec;
use crate::ratio::{Ratio, Width};
use crate::sht::{ChannelRatios, ColourChannel, SecondaryColour, SHT, SHTValueError, ParsePropertyError, value_errors};

verus! {

broadcast use vstd::string::axiom_spec_iter, vstd::string::next_postcondition;

/// The value of a base-12 digit character: `0` to `9`, then `X` for ten and
/// `E` for eleven, in either case.
pub open spec fn digit_of(c: char) -> Option<nat> {
    match c {
        '0' => Some(0),
        '1' => Some(1),
        '2' => Some(2),
        '3' => Some(3),
        '4' => Some(4),
        '5' => Some(5),
        '6' => Some(6),
        '7' => Some(7),
        '8' => Some(8),
        '9' => Some(9),
        'X' | 'x' => Some(10),
        'E' | 'e' => Some(11),
        _ => None,
    }
}

/// The primary colour that a letter names, in either case.
pub open spec fn primary_of(c: char) -> Option<ColourChannel> {
    match c {
        'r' | 'R' => Some(ColourChannel::Red),
        'g' | 'G' => Some(ColourChannel::Green),
        'b' | 'B' => Some(ColourChannel::Blue),
        _ => None,
    }
}

/// The secondary colour that a letter names, in either case.
pub open spec fn secondary_of(c: char) -> Option<SecondaryColour> {
    match c {
        'c' | 'C' => Some(SecondaryColour::Cyan),
        'y' | 'Y' => Some(SecondaryColour::Yellow),
        'm' | 'M' => Some(SecondaryColour::Magenta),
        _ => None,
    }
}

/// The character at `pos`, if there is one.
pub open spec fn char_at(s: Seq<char>, pos: int) -> Option<char> {
    if 0 <= pos < s.len() {
        Some(s[pos])
    } else {
        None
    }
}

/// The end of the run of digit characters that starts at `pos`.
pub open spec fn digit_run_end(s: Seq<char>, pos: int) -> int
    decreases s.len() - pos,
{
    if 0 <= pos < s.len() && digit_of(s[pos]) is Some {
        digit_run_end(s, pos + 1)
    } else {
        pos
    }
}

/// The digits read as a base-12 integer, most significant first.
pub open spec fn horner(ds: Seq<char>) -> int
    decreases ds.len(),
{
    if ds.len() == 0 {
        0
    } else {
        horner(ds.drop_last()) * 12 + digit_of(ds.last()).unwrap_or(0)
    }
}

/// How many base-12 fraction digits the width holds: the largest `k` with
/// `12 ^ k` no greater than the width's maximum.
pub open spec fn max_digits(w: Width) -> nat {
    match w {
        Width::U8 => 2,
        Width::U16 => 4,
        Width::U32 => 8,
    }
}

/// The fraction that a run of digits denotes, as numerator and denominator.
///
/// The first `k` digits, `k` as many as the width holds, give the fraction
/// over `12 ^ k`; if a digit follows them and is 6 or more, one is added to
/// the numerator.
pub open spec fn quantity_value(ds: Seq<char>, w: Width) -> (int, int) {
    let k = max_digits(w);
    let m = if ds.len() <= k { ds.len() } else { k };
    let up = ds.len() > k && digit_of(ds[k as int]).unwrap_or(0) >= 6;
    (horner(ds.take(m as int)) + if up { 1int } else { 0int }, pow(12, m))
}

/// The quantity that starts at `pos`: where it ends, its numerator and its
/// denominator.
pub open spec fn spec_quantity(s: Seq<char>, pos: int, w: Width) -> Option<(int, int, int)> {
    let e = digit_run_end(s, pos);
    if e == pos {
        None
    } else {
        let (n, d) = quantity_value(s.subrange(pos, e), w);
        Some((e, n, d))
    }
}

/// The ratio with these numerator and denominator.
pub open spec fn ratio_of(n: int, d: int) -> Ratio {
    Ratio { numer: n as u32, denom: d as u32 }
}

/// A blend quantity followed by a direction letter, from `pos`: where it
/// ends, the direction and the blend.
pub open spec fn spec_direction_blend(s: Seq<char>, pos: int, w: Width) -> Option<
    (int, ColourChannel, Ratio),
> {
    match spec_quantity(s, pos, w) {
        Some((e, n, d)) => match char_at(s, e) {
            Some(c) => match primary_of(c) {
                Some(p) => Some((e + 1, p, ratio_of(n, d))),
                None => None,
            },
            None => None,
        },
        None => None,
    }
}

/// The channel part of a code, from `pos`: a primary letter with an
/// optional blend and direction, or a secondary letter.
pub open spec fn spec_channel_ratios(s: Seq<char>, pos: int, w: Width) -> Option<
    (int, ChannelRatios),
> {
    match char_at(s, pos) {
        Some(c) => match primary_of(c) {
            Some(primary) => match spec_direction_blend(s, pos + 1, w) {
                Some((e, direction, blend)) => Some(
                    (
                        e,
                        ChannelRatios::OneBrightestChannel {
                            primary,
                            direction_blend: Some((direction, blend)),
                        },
                    ),
                ),
                None => Some(
                    (pos + 1, ChannelRatios::OneBrightestChannel { primary, direction_blend: None }),
                ),
            },
            None => match secondary_of(c) {
                Some(secondary) => Some(
                    (pos + 1, ChannelRatios::TwoBrightestChannels { secondary }),
                ),
                None => None,
            },
        },
        None => None,
    }
}

/// The components that a code spells, and where the match ends: shade,
/// channel ratios and tint, each as written (`None` where omitted).
///
/// Alternatives are tried in order: an optional shade, a channel part and an
/// optional nonzero tint; a lone quantity equal to zero, as a shade; a lone
/// nonzero quantity, as a tint; the letter `W`, for white, as shade 0 and tint 1.
pub open spec fn spec_sht_data(s: Seq<char>, w: Width) -> Option<
    (int, Option<Ratio>, ChannelRatios, Option<Ratio>),
> {
    let first = spec_quantity(s, 0, w);
    let (after_shade, shade) = match first {
        Some((e, n, d)) => (e, Some(ratio_of(n, d))),
        None => (0, None),
    };
    match spec_channel_ratios(s, after_shade, w) {
        Some((after_hue, channel_ratios)) => {
            let (after_tint, tint) = match spec_quantity(s, after_hue, w) {
                Some((e, n, d)) => if n != 0 {
                    (e, Some(ratio_of(n, d)))
                } else {
                    (after_hue, None)
                },
                None => (after_hue, None),
            };
            Some((after_tint, shade, channel_ratios, tint))
        },
        None => match first {
            Some((e, n, d)) => if n == 0 {
                Some((e, Some(ratio_of(n, d)), ChannelRatios::ThreeBrightestChannels, None))
            } else {
                Some((e, None, ChannelRatios::ThreeBrightestChannels, Some(ratio_of(n, d))))
            },
            None => if s.len() > 0 && (s[0] == 'W' || s[0] == 'w') {
                Some((1, Some(ratio_of(0, 1)), ChannelRatios::ThreeBrightestChannels, Some(ratio_of(1, 1))))
            } else {
                None
            },
        },
    }
}

/// `12 ^ m` fits the width exactly when `m` is at most `max_digits(w)`.
pub proof fn lemma_digit_capacity(w: Width, m: nat)
    ensures
        pow(12, m) <= w.spec_max() <==> m <= max_digits(w),
        pow(12, m) > 0,
{
    reveal_with_fuel(pow, 10);
    let k = max_digits(w);
    assert(pow(12, k) <= w.spec_max());
    assert(pow(12, k + 1) > w.spec_max());
    if m < k {
        lemma_pow_strictly_increases(12, m, k);
    } else if m > k + 1 {
        lemma_pow_strictly_increases(12, k + 1, m);
    }
    vstd::arithmetic::power::lemma_pow_positive(12, m);
}

/// One more factor of twelve.
pub proof fn lemma_pow12_step(m: nat)
    ensures
        pow(12, m + 1) == 12 * pow(12, m),
{
    reveal_with_fuel(pow, 2);
}

/// One more factor of sixteen.
pub proof fn lemma_pow16_step(m: nat)
    ensures
        pow(16, m + 1) == 16 * pow(16, m),
{
    reveal_with_fuel(pow, 2);
}

/// The value of a digit character.
fn digit_value(c: char) -> (r: Option<u8>)
    ensures
        r is Some <==> digit_of(c) is Some,
        r matches Some(v) ==> digit_of(c) == Some(v as nat) && v < 12,
{
    match c {
        '0' => Some(0),
        '1' => Some(1),
        '2' => Some(2),
        '3' => Some(3),
        '4' => Some(4),
        '5' => Some(5),
        '6' => Some(6),
        '7' => Some(7),
        '8' => Some(8),
        '9' => Some(9),
        'X' | 'x' => Some(10),
        'E' | 'e' => Some(11),
        _ => None,
    }
}

/// Accepts one base-12 digit character at `pos`; returns the position after
/// it and the character.
pub fn duodecimal_digit(s: &[char], pos: usize) -> (r: Option<(usize, char)>)
    ensures
        r is Some <==> (pos < s@.len() && digit_of(s@[pos as int]) is Some),
        r matches Some((e, c)) ==> e == pos + 1 && c == s@[pos as int],
{
    if pos < s.len() {
        match digit_value(s[pos]) {
            Some(_) => Some((pos + 1, s[pos])),
            None => None,
        }
    } else {
        None
    }
}

/// Accepts one base-12 digit at `pos`; returns the position after it and
/// its value.
pub fn number_from_digit(s: &[char], pos: usize) -> (r: Option<(usize, u8)>)
    ensures
        r is Some <==> (pos < s@.len() && digit_of(s@[pos as int]) is Some),
        r matches Some((e, v)) ==> e == pos + 1 && digit_of(s@[pos as int]) == Some(v as nat),
{
    if pos < s.len() {
        match digit_value(s[pos]) {
            Some(v) => Some((pos + 1, v)),
            None => None,
        }
    } else {
        None
    }
}

/// Accepts a letter for a primary colour at `pos`.
pub fn primary_colour(s: &[char], pos: usize) -> (r: Option<(usize, ColourChannel)>)
    ensures
        r is Some <==> (char_at(s@, pos as int) matches Some(c) && primary_of(c) is Some),
        r matches Some((e, p)) ==> e == pos + 1 && primary_of(s@[pos as int]) == Some(p),
{
    if pos < s.len() {
        match s[pos] {
            'r' | 'R' => Some((pos + 1, ColourChannel::Red)),
            'g' | 'G' => Some((pos + 1, ColourChannel::Green)),
            'b' | 'B' => Some((pos + 1, ColourChannel::Blue)),
            _ => None,
        }
    } else {
        None
    }
}

/// Accepts a letter for a secondary colour at `pos`.
pub fn secondary_colour(s: &[char], pos: usize) -> (r: Option<(usize, SecondaryColour)>)
    ensures
        r is Some <==> (char_at(s@, pos as int) matches Some(c) && secondary_of(c) is Some),
        r matches Some((e, p)) ==> e == pos + 1 && secondary_of(s@[pos as int]) == Some(p),
{
    if pos < s.len() {
        match s[pos] {
            'c' | 'C' => Some((pos + 1, SecondaryColour::Cyan)),
            'y' | 'Y' => Some((pos + 1, SecondaryColour::Yellow)),
            'm' | 'M' => Some((pos + 1, SecondaryColour::Magenta)),
            _ => None,
        }
    } else {
        None
    }
}

/// Parses a base-12 fraction at `pos`: one or more digits, each worth a
/// twelfth of the one before it. Digits beyond what the width holds are not
/// added; if the first of them is 6 or more, the last kept digit is rounded
/// up, and that carry may reach 1.
pub fn quantity(s: &[char], pos: usize, width: Width) -> (r: Option<(usize, Ratio)>)
    requires
        pos <= s@.len(),
    ensures
        r is Some <==> spec_quantity(s@, pos as int, width) is Some,
        r matches Some((e, q)) ==> spec_quantity(s@, pos as int, width) == Some(
            (e as int, q.numer as int, q.denom as int),
        ) && q.in_unit() && q.fits(width) && pos < e <= s@.len(),
{
    let max: u64 = width.max_value() as u64;
    let ghost k = max_digits(width);
    let mut i: usize = pos;
    let mut numer: u64 = 0;
    let mut denom: u64 = 1;
    let mut taken: usize = 0;
    let mut overflowed: bool = false;
    let mut round_up: bool = false;
    proof {
        lemma_pow12_step(0);
        vstd::arithmetic::power::lemma_pow0(12);
        lemma_digit_capacity(width, 0);
        assert(s@.subrange(pos as int, pos as int) =~= Seq::<char>::empty());
    }
    while i < s.len() && digit_value(s[i]).is_some()
        invariant
            pos <= i <= s@.len(),
            max == width.spec_max(),
            k == max_digits(width),
            digit_run_end(s@, pos as int) == digit_run_end(s@, i as int),
            forall|j: int| pos <= j < i ==> digit_of(#[trigger] s@[j]) is Some,
            taken == (if i - pos <= k { (i - pos) as nat } else { k }),
            denom == pow(12, taken as nat),
            denom <= max,
            numer < denom,
            numer == horner(s@.subrange(pos as int, pos + taken)),
            overflowed == (i - pos > k),
            round_up == (i - pos > k && digit_of(s@[pos + k]).unwrap_or(0) >= 6),
        decreases s@.len() - i,
    {
        let d = digit_value(s[i]).unwrap();
        if !overflowed {
            proof {
                lemma_digit_capacity(width, (taken + 1) as nat);
                lemma_pow12_step(taken as nat);
            }
            if denom * 12 <= max {
                proof {
                    let sub = s@.subrange(pos as int, pos + taken + 1);
                    assert(sub.drop_last() =~= s@.subrange(pos as int, pos + taken));
                    assert(sub.last() == s@[i as int]);
                }
                numer = numer * 12 + d as u64;
                denom = denom * 12;
                taken = taken + 1;
            } else {
                overflowed = true;
                round_up = d >= 6;
            }
        }
        i = i + 1;
    }
    if i == pos {
        return None;
    }
    if round_up {
        numer = numer + 1;
    }
    proof {
        let ds = s@.subrange(pos as int, i as int);
        assert(digit_run_end(s@, i as int) == i);
        assert(ds.take(taken as int) =~= s@.subrange(pos as int, pos + taken));
        if i - pos > k {
            assert(ds[k as int] == s@[pos + k]);
        }
    }
    Some((i, Ratio { numer: numer as u32, denom: denom as u32 }))
}


/// Parses a blend quantity followed by a direction letter at `pos`.
pub fn direction_blend(s: &[char], pos: usize, width: Width) -> (r: Option<
    (usize, (ColourChannel, Ratio)),
>)
    requires
        pos <= s@.len(),
    ensures
        r is Some <==> spec_direction_blend(s@, pos as int, width) is Some,
        r matches Some((e, (direction, blend))) ==> spec_direction_blend(s@, pos as int, width)
            == Some((e as int, direction, blend)) && blend.in_unit() && blend.fits(width) && e
            <= s@.len(),
{
    match quantity(s, pos, width) {
        Some((e, blend)) => match primary_colour(s, e) {
            Some((e2, direction)) => Some((e2, (direction, blend))),
            None => None,
        },
        None => None,
    }
}

/// Parses the channel part of a code at `pos`: a primary letter with an
/// optional blend and direction, or else a secondary letter.
pub fn channel_ratios(s: &[char], pos: usize, width: Width) -> (r: Option<(usize, ChannelRatios)>)
    requires
        pos <= s@.len(),
    ensures
        r is Some <==> spec_channel_ratios(s@, pos as int, width) is Some,
        r matches Some((e, c)) ==> spec_channel_ratios(s@, pos as int, width) == Some(
            (e as int, c),
        ) && channel_ratios_in_unit(c, width) && e <= s@.len(),
{
    match primary_colour(s, pos) {
        Some((e, primary)) => match direction_blend(s, e, width) {
            Some((e2, db)) => Some(
                (e2, ChannelRatios::OneBrightestChannel { primary, direction_blend: Some(db) }),
            ),
            None => Some((e, ChannelRatios::OneBrightestChannel { primary, direction_blend: None })),
        },
        None => match secondary_colour(s, pos) {
            Some((e, secondary)) => Some((e, ChannelRatios::TwoBrightestChannels { secondary })),
            None => None,
        },
    }
}

/// A blend, where there is one, lies in the unit interval and fits the
/// width.
pub open spec fn channel_ratios_in_unit(c: ChannelRatios, w: Width) -> bool {
    match c {
        ChannelRatios::OneBrightestChannel { direction_blend: Some((_, blend)), .. } => blend.in_unit()
            && blend.fits(w),
        _ => true,
    }
}

/// An optional ratio, where present, lies in the unit interval and fits the
/// width.
pub open spec fn opt_in_unit(q: Option<Ratio>, w: Width) -> bool {
    match q {
        Some(v) => v.in_unit() && v.fits(w),
        None => true,
    }
}

/// Parses the components of a code from its start: where the match ends,
/// the shade, the channel ratios and the tint as written.
pub fn sht_data(s: &[char], width: Width) -> (r: Option<
    (usize, Option<Ratio>, ChannelRatios, Option<Ratio>),
>)
    ensures
        r is Some <==> spec_sht_data(s@, width) is Some,
        r matches Some((e, shade, c, tint)) ==> spec_sht_data(s@, width) == Some(
            (e as int, shade, c, tint),
        ) && e <= s@.len() && opt_in_unit(shade, width) && channel_ratios_in_unit(c, width)
            && opt_in_unit(tint, width),
{
    let first = quantity(s, 0, width);
    let (after_shade, shade) = match first {
        Some((e, q)) => (e, Some(q)),
        None => (0, None),
    };
    match channel_ratios(s, after_shade, width) {
        Some((after_hue, c)) => {
            let (after_tint, tint) = match quantity(s, after_hue, width) {
                Some((e, q)) => if q.numer != 0 {
                    (e, Some(q))
                } else {
                    (after_hue, None)
                },
                None => (after_hue, None),
            };
            Some((after_tint, shade, c, tint))
        },
        None => match first {
            Some((e, q)) => if q.numer == 0 {
                Some((e, Some(q), ChannelRatios::ThreeBrightestChannels, None))
            } else {
                Some((e, None, ChannelRatios::ThreeBrightestChannels, Some(q)))
            },
            None => if s.len() > 0 && (s[0] == 'W' || s[0] == 'w') {
                Some(
                    (
                        1,
                        Some(Ratio::from_integer(0)),
                        ChannelRatios::ThreeBrightestChannels,
                        Some(Ratio::from_integer(1)),
                    ),
                )
            } else {
                None
            },
        },
    }
}

/// The colour that a code denotes, as `parse_sht` returns it.
///
/// A code that no alternative matches is a `ParseFailure`; one that leaves
/// characters unread is `InputRemaining` with those characters, whatever
/// their values; otherwise an omitted shade counts as 1 and an omitted tint
/// as 0, and the normal form decides.
pub open spec fn parse_sht_spec(s: Seq<char>, w: Width) -> ParseOutcome {
    match spec_sht_data(s, w) {
        None => ParseOutcome::Failure,
        Some((e, shade, c, tint)) => if e < s.len() {
            ParseOutcome::Remaining(s.subrange(e, s.len() as int))
        } else {
            let sh = match shade {
                Some(v) => v,
                None => ratio_of(1, 1),
            };
            let ti = match tint {
                Some(v) => v,
                None => ratio_of(0, 1),
            };
            if value_errors(c, sh, ti).len() == 0 {
                ParseOutcome::Colour(SHT { channel_ratios: c, shade: sh, tint: ti })
            } else {
                ParseOutcome::Invalid(value_errors(c, sh, ti))
            }
        },
    }
}

/// What parsing a code gives, in terms of mathematical values.
pub enum ParseOutcome {
    Colour(SHT),
    Invalid(Seq<SHTValueError>),
    Failure,
    Remaining(Seq<char>),
}

/// `r` is what `parse_sht_spec` describes.
pub open spec fn parse_result_matches(r: Result<SHT, ParsePropertyError>, o: ParseOutcome) -> bool {
    match o {
        ParseOutcome::Colour(c) => r == Ok::<SHT, ParsePropertyError>(c),
        ParseOutcome::Invalid(errs) => r matches Err(ParsePropertyError::ValueErrors(v)) && v@ == errs,
        ParseOutcome::Failure => r matches Err(ParsePropertyError::ParseFailure),
        ParseOutcome::Remaining(rest) => r matches Err(ParsePropertyError::InputRemaining(t)) && t@
            == rest,
    }
}

/// Parses an SHT code from its characters.
pub fn parse_sht_chars(s: &[char], width: Width) -> (r: Result<SHT, ParsePropertyError>)
    ensures
        parse_result_matches(r, parse_sht_spec(s@, width)),
        r matches Ok(c) ==> c.wf(),
{
    match sht_data(s, width) {
        None => Err(ParsePropertyError::ParseFailure),
        Some((e, shade, c, tint)) => {
            if e < s.len() {
                Err(ParsePropertyError::InputRemaining(string_of(s, e)))
            } else {
                let sh = match shade {
                    Some(v) => v,
                    None => Ratio::from_integer(1),
                };
                let ti = match tint {
                    Some(v) => v,
                    None => Ratio::from_integer(0),
                };
                match SHT::new(c, sh, ti) {
                    Ok(v) => Ok(v),
                    Err(errs) => Err(ParsePropertyError::ValueErrors(errs)),
                }
            }
        },
    }
}

/// Parses an SHT code, with fractions that fit the given width.
pub fn parse_sht(input: &str, width: Width) -> (r: Result<SHT, ParsePropertyError>)
    ensures
        parse_result_matches(r, parse_sht_spec(input@, width)),
        r matches Ok(c) ==> c.wf(),
{
    let chars = chars_of(input);
    parse_sht_chars(chars.as_slice(), width)
}

/// The characters of the string, in order.
pub(crate) fn chars_of(s: &str) -> (r: Vec<char>)
    ensures
        r@ == s@,
{
    let mut it = s.chars();
    let mut out: Vec<char> = Vec::new();
    loop
        invariant
            out@ + it.remaining() == s@,
            it.decrease() is Some,
        decreases it.decrease().unwrap(),
    {
        match it.next() {
            Some(c) => {
                proof {
                    assert(out@.push(c) + it.remaining() =~= s@);
                }
                out.push(c);
            },
            None => {
                assert(out@ =~= s@);
                return out;
            },
        }
    }
}

/// Relies on collecting characters into a String: the characters of `s`
/// from `start` on.
#[verifier::external_body]
pub(crate) fn string_of(s: &[char], start: usize) -> (r: String)
    requires
        start <= s@.len(),
    ensures
        r@ == s@.subrange(start as int, s@.len() as int),
{
    s[start..].iter().collect()
}

} // verus!
