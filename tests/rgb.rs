use sht_colour::format::format_sht;
use sht_colour::parser::parse_sht;
use sht_colour::ratio::{round_denominator, ArithmeticError, Ratio, Width};
use sht_colour::convert::{char_to_primary, chars_to_secondary, ToShtError};
use sht_colour::rgb::{channel_split, parse_channel, HexRGB, ParseHexError};
use sht_colour::sht::{ColourChannel, SHTValueError, SecondaryColour};

fn hex(code: &str) -> HexRGB {
    HexRGB::parse(code, Width::U32).unwrap()
}

fn sht(code: &str) -> sht_colour::sht::SHT {
    parse_sht(code, Width::U32).unwrap()
}

/// The colour prints as `code`; unless it is white, whose parsed shade (0)
/// differs from the shade of its RGB conversion (1), it also equals the
/// parsed code.
fn assert_is_code(colour: &sht_colour::sht::SHT, code: &str, precision: usize) {
    assert_eq!(format_sht(colour, precision), code);
    if code != "W" {
        assert_eq!(*colour, sht(code));
    }
}

#[test]
fn rgb_to_sht() {
    for (input, output) in &[
        ("#ff0000", "r"),
        ("#aa0000", "8r"),
        ("#ff4040", "r3"),
        ("#c04040", "8r3"),
        ("#ff8000", "r6g"),
        ("#aa5500", "8r6g"),
        ("#c08040", "8r6g3"),
        ("#c0c040", "8y3"),
        ("#808080", "6"),
        ("#000000", "0"),
        ("#ffffff", "W"),
    ] {
        assert_is_code(&hex(input).to_sht(1, Width::U32).unwrap(), output, 1);
    }
}

#[test]
fn sht_to_rgb() {
    for (input, output) in &[
        ("r", "#ff0000"),
        ("8r", "#aa0000"),
        ("r3", "#ff4040"),
        ("8r3", "#bf4040"),
        ("r6g", "#ff8000"),
        ("8r6g", "#aa5500"),
        ("8r6g3", "#bf8040"),
        ("8y3", "#bfbf40"),
        ("6", "#808080"),
        ("0", "#000000"),
        ("W", "#ffffff"),
    ] {
        assert_eq!(sht(input).to_rgb(2, Width::U32), Ok(hex(output)));
    }
}

#[test]
fn conversion_identities_at_precision_two() {
    for (code, hex_code) in &[
        ("r", "#ff0000"),
        ("8r", "#aa0000"),
        ("r6g", "#ff8000"),
        ("8y3", "#bfbf40"),
        ("6", "#808080"),
        ("0", "#000000"),
        ("W", "#ffffff"),
    ] {
        assert_eq!(sht(code).to_rgb(2, Width::U32), Ok(hex(hex_code)));
        assert_is_code(&hex(hex_code).to_sht(2, Width::U32).unwrap(), code, 2);
    }
}

#[test]
fn round_trip_through_rgb_keeps_code() {
    for code in ["r", "8r", "r6g", "8y3", "6", "0", "W", "b4r", "7c2"] {
        let rgb = sht(code).to_rgb(2, Width::U32).unwrap();
        assert_is_code(&rgb.to_sht(2, Width::U32).unwrap(), code, 2);
    }
}

#[test]
fn to_sht_overflow() {
    assert_eq!(hex("#ff0000").to_sht(9, Width::U32), Err(ToShtError::Overflow));
    assert_eq!(hex("#ff0000").to_sht(3, Width::U8), Err(ToShtError::Overflow));
}

#[test]
fn to_sht_rounding_to_invalid_code() {
    assert_eq!(
        hex("#010000").to_sht(1, Width::U32),
        Err(ToShtError::ValueErrors(vec![SHTValueError::PrimaryShadeZero]))
    );
}

#[test]
fn to_sht_secondary_and_direction() {
    assert_eq!(hex("#00ffff").to_sht(1, Width::U32), Ok(sht("c")));
    let white = hex("#ffffff").to_sht(2, Width::U32).unwrap();
    assert_eq!((white.shade, white.tint), (Ratio::new(1, 1), Ratio::new(1, 1)));
    assert_eq!(hex("#ff00ff").to_sht(1, Width::U32), Ok(sht("m")));
    assert_eq!(hex("#4080ff").to_sht(2, Width::U32).unwrap().tint, Ratio::new(36, 144));
}

#[test]
fn to_rgb_overflow() {
    assert_eq!(sht("r").to_rgb(8, Width::U32), Err(ArithmeticError::Overflow));
    assert_eq!(sht("r").to_rgb(2, Width::U8), Err(ArithmeticError::Overflow));
    assert!(sht("r").to_rgb(1, Width::U8).is_ok());
}

#[test]
fn rounding_no_offset() {
    assert_eq!(round_denominator(Ratio::new(2, 3), 2, 2, 0, Width::U8), Ok(Ratio::new(3, 4)));
    assert_eq!(round_denominator(Ratio::new(1, 100), 2, 1, 0, Width::U8), Ok(Ratio::new(0, 1)));
    assert_eq!(round_denominator(Ratio::new(22, 100), 3, 2, 0, Width::U8), Ok(Ratio::new(2, 9)));
    assert_eq!(round_denominator(Ratio::new(49, 100), 100, 0, 0, Width::U8), Ok(Ratio::new(0, 1)));
    assert_eq!(round_denominator(Ratio::new(50, 100), 100, 0, 0, Width::U8), Ok(Ratio::new(1, 1)));
    assert_eq!(round_denominator(Ratio::new(0, 100), 100, 2, 0, Width::U32), Ok(Ratio::new(0, 1)));
    assert_eq!(round_denominator(Ratio::new(100, 100), 100, 2, 0, Width::U32), Ok(Ratio::new(1, 1)));
}

#[test]
fn rounding_above_threshold() {
    assert_eq!(round_denominator(Ratio::new(1, 3), 10, 1, 0, Width::U32), Ok(Ratio::new(3, 10)));
    assert_eq!(round_denominator(Ratio::new(101, 300), 10, 1, 0, Width::U32), Ok(Ratio::new(3, 10)));
}

#[test]
fn rounding_with_offset_and_overflow() {
    assert_eq!(round_denominator(Ratio::new(1, 2), 16, 2, 1, Width::U32), Ok(Ratio::new(128, 255)));
    assert_eq!(round_denominator(Ratio::new(1, 2), 12, 3, 0, Width::U8), Err(ArithmeticError::Overflow));
    assert_eq!(round_denominator(Ratio::new(1, 2), 12, 20, 0, Width::U32), Err(ArithmeticError::Overflow));
}

#[test]
fn parse_u8_success() {
    assert_eq!(
        HexRGB::parse("#123", Width::U8),
        Ok(HexRGB::new(Ratio::new(1, 15), Ratio::new(2, 15), Ratio::new(3, 15)))
    );
}

#[test]
fn parse_u64_success() {
    assert_eq!(
        HexRGB::parse("#555666777", Width::U32),
        Ok(HexRGB::new(
            Ratio::new(0x555, 0xFFF),
            Ratio::new(0x666, 0xFFF),
            Ratio::new(0x777, 0xFFF),
        ))
    );
}

#[test]
fn parse_failure_empty_string() {
    assert_eq!(HexRGB::parse("", Width::U8), Err(ParseHexError::EmptyCode));
}

#[test]
fn parse_failure_no_octothorpe() {
    assert_eq!(HexRGB::parse("111", Width::U8), Err(ParseHexError::MissingOctothorpe));
}

#[test]
fn parse_failure_wrong_digit_number() {
    assert_eq!(HexRGB::parse("#11", Width::U8), Err(ParseHexError::InvalidDigitCount));
}

#[test]
fn parse_failure_invalid_hex() {
    assert_eq!(HexRGB::parse("#G11", Width::U8), Err(ParseHexError::DigitParseError));
}

#[test]
fn parse_failure_no_digits() {
    assert_eq!(HexRGB::parse("#", Width::U8), Err(ParseHexError::DigitParseError));
}

#[test]
fn rgb_parse_failure() {
    assert_eq!(HexRGB::parse("", Width::U8), Err(ParseHexError::EmptyCode));
    assert_eq!(HexRGB::parse("111", Width::U8), Err(ParseHexError::MissingOctothorpe));
    assert_eq!(HexRGB::parse("#11", Width::U8), Err(ParseHexError::InvalidDigitCount));
    assert_eq!(HexRGB::parse("#G11", Width::U8), Err(ParseHexError::DigitParseError));
    assert_eq!(HexRGB::parse("#", Width::U8), Err(ParseHexError::DigitParseError));
}

#[test]
fn parse_overflowing_channels() {
    assert_eq!(HexRGB::parse("#000000", Width::U8), Err(ParseHexError::Overflow));
    assert_eq!(HexRGB::parse("#FFFFFF", Width::U16), Ok(hex("#FFFFFF")));
    assert_eq!(HexRGB::parse("#FFF000000", Width::U8), Err(ParseHexError::DigitParseError));
}

#[test]
fn display_precision_4() {
    assert_eq!(hex("#000").format_hex(4, Width::U32), Some("#000000000000".to_string()));
    assert_eq!(hex("#123456").format_hex(4, Width::U32), Some("#121234345656".to_string()));
}

#[test]
fn display_precision_1() {
    assert_eq!(hex("#AABBCC").format_hex(1, Width::U32), Some("#ABC".to_string()));
}

#[test]
fn diplay_no_precision() {
    let abc = HexRGB::parse("#ABC", Width::U16).unwrap();
    assert_eq!(abc.format_hex(2, Width::U16), Some("#AABBCC".to_string()));
    let black = HexRGB::parse("#000", Width::U16).unwrap();
    assert_eq!(black.format_hex(2, Width::U16), Some("#000000".to_string()));
    assert_eq!(black.format_hex(2, Width::U8), None);
}

#[test]
fn default_is_red() {
    assert_eq!(HexRGB::default(), hex("#F00"));
    assert_eq!(HexRGB::default().components(), (Ratio::new(1, 1), Ratio::new(0, 1), Ratio::new(0, 1)));
}

#[test]
fn channel_helpers() {
    let digits: Vec<char> = "123456".chars().collect();
    assert_eq!(channel_split(&digits), (vec!['1', '2'], vec!['3', '4'], vec!['5', '6']));
    assert_eq!(parse_channel(&['f', 'f'], Width::U16), Ok(Ratio::new(1, 1)));
    assert_eq!(char_to_primary('g'), Some(ColourChannel::Green));
    assert_eq!(char_to_primary('x'), None);
    assert_eq!(chars_to_secondary('b', 'r'), Some(SecondaryColour::Magenta));
    assert_eq!(chars_to_secondary('g', 'b'), Some(SecondaryColour::Cyan));
    assert_eq!(chars_to_secondary('r', 'r'), None);
}
