use sht_colour::parser::{
    channel_ratios, direction_blend, duodecimal_digit, number_from_digit, parse_sht,
    primary_colour, quantity, secondary_colour, sht_data,
};
use sht_colour::ratio::{Ratio, Width};
use sht_colour::sht::{ChannelRatios, ColourChannel, ParsePropertyError, SecondaryColour, SHT};

fn chars(s: &str) -> Vec<char> {
    s.chars().collect()
}

fn leftover(s: &str) -> Result<SHT, ParsePropertyError> {
    Err(ParsePropertyError::InputRemaining(s.to_string()))
}

fn red(direction_blend: Option<(ColourChannel, Ratio)>) -> ChannelRatios {
    ChannelRatios::OneBrightestChannel {
        primary: ColourChannel::Red,
        direction_blend,
    }
}

fn expect(code: &str, channel_ratios: ChannelRatios, shade: Ratio, tint: Ratio) {
    assert_eq!(
        parse_sht(code, Width::U8).ok(),
        SHT::new(channel_ratios, shade, tint).ok()
    );
}

#[test]
fn parse_success_shade_blend_tint() {
    expect(
        "8r6g3",
        red(Some((ColourChannel::Green, Ratio::new(1, 2)))),
        Ratio::new(2, 3),
        Ratio::new(1, 4),
    );
}

#[test]
fn parse_success_only_primary() {
    expect("r", red(None), Ratio::new(1, 1), Ratio::new(0, 1));
}

#[test]
fn parse_success_shade() {
    expect("8r", red(None), Ratio::new(2, 3), Ratio::new(0, 1));
}

#[test]
fn parse_success_tint() {
    expect("r3", red(None), Ratio::new(1, 1), Ratio::new(1, 4));
}

#[test]
fn parse_success_shade_tint() {
    expect("6r3", red(None), Ratio::new(1, 2), Ratio::new(1, 4));
}

#[test]
fn parse_success_blend() {
    expect(
        "r6g",
        red(Some((ColourChannel::Green, Ratio::new(1, 2)))),
        Ratio::new(1, 1),
        Ratio::new(0, 1),
    );
}

#[test]
fn parse_success_shade_blend() {
    expect(
        "8r6g",
        red(Some((ColourChannel::Green, Ratio::new(1, 2)))),
        Ratio::new(2, 3),
        Ratio::new(0, 1),
    );
}

#[test]
fn parse_success_shade_secondary_tint() {
    expect(
        "8y3",
        ChannelRatios::TwoBrightestChannels {
            secondary: SecondaryColour::Yellow,
        },
        Ratio::new(2, 3),
        Ratio::new(1, 4),
    );
}

#[test]
fn parse_success_shade_only() {
    expect("6", ChannelRatios::ThreeBrightestChannels, Ratio::new(1, 1), Ratio::new(1, 2));
}

#[test]
fn parse_success_zero_shade_only() {
    expect("0", ChannelRatios::ThreeBrightestChannels, Ratio::new(0, 1), Ratio::new(0, 1));
}

#[test]
fn parse_success_tint_only() {
    expect("W", ChannelRatios::ThreeBrightestChannels, Ratio::new(0, 1), Ratio::new(1, 1));
}

#[test]
fn sht_parse_success() {
    assert_eq!(
        parse_sht("W", Width::U8),
        SHT::new(
            ChannelRatios::ThreeBrightestChannels,
            Ratio::new(0, 1),
            Ratio::new(1, 1)
        )
        .map_err(ParsePropertyError::ValueErrors)
    );
}

#[test]
fn tests_parse_failure_empty_string() {
    assert_eq!(parse_sht("", Width::U8), Err(ParsePropertyError::ParseFailure));
}

#[test]
fn parse_failure_leftover_symbols() {
    assert_eq!(parse_sht("...", Width::U8), Err(ParsePropertyError::ParseFailure));
}

#[test]
#[allow(non_snake_case)]
fn parse_failure_extra_W() {
    for code in [
        "8r6g3W", "rW", "8rW", "r3W", "6r3W", "r6gW", "8r6gW", "8r6g3W", "8y3W", "6W", "0W", "WW",
    ] {
        assert_eq!(parse_sht(code, Width::U8), leftover("W"));
    }
}

#[test]
fn parse_failure_extra_r() {
    for code in ["8r6g3r", "rr", "8rr", "r6gr", "8r6gr", "8r6g3r", "8y3r", "Wr"] {
        assert_eq!(parse_sht(code, Width::U8), leftover("r"));
    }
}

#[test]
fn parse_failure_extra_c() {
    for code in ["8r6g3c", "rc", "8rc", "r3c", "6r3c", "r6gc", "8r6gc", "8r6g3c", "8y3c", "Wc"] {
        assert_eq!(parse_sht(code, Width::U8), leftover("c"));
    }
}

#[test]
fn parse_failure_extra_0() {
    for code in ["r0", "8r0", "r6g0", "8r6g0", "W0"] {
        assert_eq!(parse_sht(code, Width::U8), leftover("0"));
    }
}

#[test]
fn parse_failure_extra_1() {
    assert_eq!(parse_sht("W1", Width::U8), leftover("1"));
}

#[test]
fn parse_failure_value_errors() {
    assert_eq!(
        parse_sht("0r", Width::U8),
        Err(ParsePropertyError::ValueErrors(vec![
            sht_colour::sht::SHTValueError::PrimaryShadeZero
        ]))
    );
}

#[test]
fn parse_primary_colours() {
    assert_eq!(primary_colour(&chars("rr"), 0), Some((1, ColourChannel::Red)));
    assert_eq!(primary_colour(&chars("gr"), 0), Some((1, ColourChannel::Green)));
    assert_eq!(primary_colour(&chars("br"), 0), Some((1, ColourChannel::Blue)));
}

#[test]
fn parse_secondary_colours() {
    assert_eq!(secondary_colour(&chars("cc"), 0), Some((1, SecondaryColour::Cyan)));
    assert_eq!(secondary_colour(&chars("yc"), 0), Some((1, SecondaryColour::Yellow)));
    assert_eq!(secondary_colour(&chars("mc"), 0), Some((1, SecondaryColour::Magenta)));
}

#[test]
fn parse_only_digits() {
    let digits = ['0', '1', '2', '3', '4', '5', '6', '7', '8', '9', 'X', 'E'];
    for i in 0_u8..=255 {
        // every one-byte character: exactly the twelve digits, X and E in either case
        let c = i as char;
        let is_digit = digits.contains(&c.to_uppercase().next().unwrap());
        assert_eq!(duodecimal_digit(&[c], 0).is_some(), is_digit);
        assert_eq!(number_from_digit(&[c], 0).is_some(), is_digit);
    }
}

#[test]
fn parse_lowercase_w_is_white() {
    assert_eq!(parse_sht("w", Width::U8), parse_sht("W", Width::U8));
}

#[test]
fn parse_all_digits() {
    let digits = ['0', '1', '2', '3', '4', '5', '6', '7', '8', '9', 'X', 'E'];
    for (i, c) in digits.iter().enumerate() {
        assert_eq!(number_from_digit(&[*c], 0), Some((1, i as u8)));
        let repeated = chars(&c.to_string().repeat(10));
        assert_eq!(number_from_digit(&repeated, 0), Some((1, i as u8)));
        assert_eq!(duodecimal_digit(&repeated, 0), Some((1, *c)));
    }
}

#[test]
fn parse_digits_reject_other_characters() {
    for c in ['a', 'A', 'r', 'W', '.', ' ', 'c'] {
        assert_eq!(duodecimal_digit(&[c], 0), None);
        assert_eq!(number_from_digit(&[c], 0), None);
    }
    assert_eq!(number_from_digit(&['x'], 0), Some((1, 10)));
    assert_eq!(number_from_digit(&['e'], 0), Some((1, 11)));
    assert_eq!(number_from_digit(&[], 0), None);
}

#[test]
fn parse_quantity_success_u32_unrounded() {
    assert_eq!(quantity(&chars("1c"), 0, Width::U32), Some((1, Ratio::new(1, 12))));
    assert_eq!(quantity(&chars("11c"), 0, Width::U32), Some((2, Ratio::new(13, 144))));
    assert_eq!(quantity(&chars("EEEc"), 0, Width::U32), Some((3, Ratio::new(1727, 1728))));
    assert_eq!(quantity(&chars("EEc"), 0, Width::U32), Some((2, Ratio::new(143, 144))));
}

#[test]
fn parse_quantity_success_u8_upper_bounds() {
    assert_eq!(quantity(&chars("EE0Ec"), 0, Width::U8), Some((4, Ratio::new(143, 144))));
    assert_eq!(quantity(&chars("EEEEc"), 0, Width::U8), Some((4, Ratio::new(1, 1))));
}

#[test]
fn parse_quantity_success_u16() {
    assert_eq!(quantity(&chars("EEEE0Ec"), 0, Width::U16), Some((6, Ratio::new(20735, 20736))));
    assert_eq!(quantity(&chars("555555c"), 0, Width::U16), Some((6, Ratio::new(9425, 20736))));
    assert_eq!(quantity(&chars("EEEE7c"), 0, Width::U16), Some((5, Ratio::new(1, 1))));
    assert_eq!(quantity(&chars("EEEE5c"), 0, Width::U16), Some((5, Ratio::new(20735, 20736))));
}

#[test]
fn parse_quantity_rounds_at_first_dropped_digit() {
    // 5555 over 12^4, then 6 rounds the last kept digit up
    assert_eq!(quantity(&chars("555565"), 0, Width::U16), Some((6, Ratio::new(9426, 20736))));
    assert_eq!(quantity(&chars("5555"), 0, Width::U16), Some((4, Ratio::new(9425, 20736))));
}

#[test]
fn parse_quantity_success_u32_precision() {
    assert_eq!(
        quantity(&chars("EEEEEEc"), 0, Width::U32),
        Some((6, Ratio::new(2_985_983, 2_985_984)))
    );
}

#[test]
fn parse_quantity_success_u8_two_thirds() {
    assert_eq!(quantity(&chars("666c"), 0, Width::U8), Some((3, Ratio::new(79, 144))));
}

#[test]
fn parse_quantity_case_error() {
    assert_eq!(quantity(&chars("C"), 0, Width::U8), None);
}

#[test]
fn parse_quantity_elevens_carry_to_one() {
    assert_eq!(quantity(&chars("EEEE"), 0, Width::U8), Some((4, Ratio::new(1, 1))));
    let long = chars(&"E".repeat(12));
    assert_eq!(quantity(&long, 0, Width::U32), Some((12, Ratio::new(1, 1))));
}

#[test]
fn parse_direction_blend_success() {
    assert_eq!(
        direction_blend(&chars("34EXRC"), 0, Width::U32),
        Some((5, (ColourChannel::Red, Ratio::new(5902, 20736))))
    );
    assert_eq!(
        direction_blend(&chars("3GC"), 0, Width::U32),
        Some((2, (ColourChannel::Green, Ratio::new(3, 12))))
    );
}

#[test]
fn parse_direction_blend_failure_empty() {
    assert_eq!(direction_blend(&chars("..."), 0, Width::U8), None);
}

#[test]
fn parse_direction_blend_failure_wrong_order_direction_blend() {
    assert_eq!(direction_blend(&chars("r1..."), 0, Width::U8), None);
}

#[test]
fn parse_direction_blend_failure_direction_no_blend() {
    assert_eq!(direction_blend(&chars("r..."), 0, Width::U8), None);
}

#[test]
fn parse_direction_blend_failure_blend_no_direction() {
    assert_eq!(direction_blend(&chars("1..."), 0, Width::U8), None);
}

#[test]
fn parse_channel_ratios_uppercase_primary_u8() {
    assert_eq!(channel_ratios(&chars("R..."), 0, Width::U8), Some((1, red(None))));
}

#[test]
fn parse_channel_ratios_uppercase_direction_blend() {
    assert_eq!(
        channel_ratios(&chars("R123G..."), 0, Width::U16),
        Some((5, red(Some((ColourChannel::Green, Ratio::new(171, 1728))))))
    );
}

#[test]
fn parse_channel_ratios_uppercase_tint() {
    assert_eq!(channel_ratios(&chars("R123..."), 0, Width::U16), Some((1, red(None))));
}

#[test]
fn parse_channel_ratios_uppercase_primary_u16() {
    assert_eq!(
        channel_ratios(&chars("G..."), 0, Width::U16),
        Some((
            1,
            ChannelRatios::OneBrightestChannel {
                primary: ColourChannel::Green,
                direction_blend: None
            }
        ))
    );
}

#[test]
fn parse_channel_ratios_uppercase_secondary() {
    assert_eq!(
        channel_ratios(&chars("C..."), 0, Width::U16),
        Some((
            1,
            ChannelRatios::TwoBrightestChannels {
                secondary: SecondaryColour::Cyan
            }
        ))
    );
}

#[test]
fn parse_channel_ratios_empty() {
    assert_eq!(channel_ratios(&chars("..."), 0, Width::U8), None);
}

#[test]
fn parse_channel_ratios_uppercase_shade_primary() {
    assert_eq!(channel_ratios(&chars("123R..."), 0, Width::U16), None);
}

#[test]
fn parse_sht_data_shade_blend_tint() {
    assert_eq!(
        sht_data(&chars("8r6g3..."), Width::U8),
        Some((
            5,
            Some(Ratio::new(2, 3)),
            red(Some((ColourChannel::Green, Ratio::new(1, 2)))),
            Some(Ratio::new(1, 4))
        ))
    );
}

#[test]
fn parse_sht_data_primary_only() {
    assert_eq!(sht_data(&chars("r..."), Width::U8), Some((1, None, red(None), None)));
}

#[test]
fn parse_sht_data_shade() {
    assert_eq!(
        sht_data(&chars("8r..."), Width::U8),
        Some((2, Some(Ratio::new(2, 3)), red(None), None))
    );
}

#[test]
fn parse_sht_data_tint() {
    assert_eq!(
        sht_data(&chars("r3..."), Width::U8),
        Some((2, None, red(None), Some(Ratio::new(1, 4))))
    );
}

#[test]
fn parse_sht_data_shade_tint() {
    assert_eq!(
        sht_data(&chars("6r3..."), Width::U8),
        Some((3, Some(Ratio::new(1, 2)), red(None), Some(Ratio::new(1, 4))))
    );
}

#[test]
fn parse_sht_data_blend() {
    assert_eq!(
        sht_data(&chars("r6g..."), Width::U8),
        Some((3, None, red(Some((ColourChannel::Green, Ratio::new(1, 2)))), None))
    );
}

#[test]
fn parse_sht_data_shade_blend() {
    assert_eq!(
        sht_data(&chars("8r6g..."), Width::U8),
        Some((
            4,
            Some(Ratio::new(2, 3)),
            red(Some((ColourChannel::Green, Ratio::new(1, 2)))),
            None
        ))
    );
}

#[test]
fn parse_sht_data_shade_secondary_tint() {
    assert_eq!(
        sht_data(&chars("8y3..."), Width::U8),
        Some((
            3,
            Some(Ratio::new(2, 3)),
            ChannelRatios::TwoBrightestChannels {
                secondary: SecondaryColour::Yellow
            },
            Some(Ratio::new(1, 4))
        ))
    );
}

#[test]
fn parse_sht_data_shade_only() {
    assert_eq!(
        sht_data(&chars("6..."), Width::U8),
        Some((1, None, ChannelRatios::ThreeBrightestChannels, Some(Ratio::new(1, 2))))
    );
}

#[test]
fn parse_sht_data_zero_shade_only() {
    assert_eq!(
        sht_data(&chars("0..."), Width::U8),
        Some((1, Some(Ratio::new(0, 1)), ChannelRatios::ThreeBrightestChannels, None))
    );
}

#[test]
fn parse_sht_data_tint_only() {
    assert_eq!(
        sht_data(&chars("W..."), Width::U8),
        Some((
            1,
            Some(Ratio::new(0, 1)),
            ChannelRatios::ThreeBrightestChannels,
            Some(Ratio::new(1, 1))
        ))
    );
}
