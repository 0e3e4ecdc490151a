use mark::parse::{hex_digit, ParseIntError, ParseSrgbColorError};
use mark::pixel::Rgb;

fn rgb(red: u8, green: u8, blue: u8) -> Rgb {
    Rgb { red, green, blue }
}

const SIX: Result<Rgb, ParseSrgbColorError> = Err(ParseSrgbColorError::MustBeSixHexDigits);
const THREE: Result<Rgb, ParseSrgbColorError> = Err(ParseSrgbColorError::ThreeValuesRequired);

fn number(kind: ParseIntError) -> Result<Rgb, ParseSrgbColorError> {
    Err(ParseSrgbColorError::ParseIntError(kind))
}

#[test]
fn hex_digit_reads_both_cases() {
    for (i, c) in "0123456789abcdef".bytes().enumerate() {
        assert_eq!(hex_digit(c), Some(i as u8));
    }
    for (i, c) in "ABCDEF".bytes().enumerate() {
        assert_eq!(hex_digit(c), Some(10 + i as u8));
    }
    for c in [b'g', b'G', b'/', b':', b'@', b'`', b' ', b'+', b'-', 0, 0x80, 0xff] {
        assert_eq!(hex_digit(c), None);
    }
}

#[test]
fn from_hex_reads_six_digits() {
    assert_eq!(Rgb::from_hex("000000"), Ok(rgb(0, 0, 0)));
    assert_eq!(Rgb::from_hex("ffffff"), Ok(rgb(255, 255, 255)));
    assert_eq!(Rgb::from_hex("FFFFFF"), Ok(rgb(255, 255, 255)));
    assert_eq!(Rgb::from_hex("ff8000"), Ok(rgb(255, 128, 0)));
    assert_eq!(Rgb::from_hex("0a1B2c"), Ok(rgb(10, 27, 44)));
    assert_eq!(Rgb::from_hex("123456"), Ok(rgb(0x12, 0x34, 0x56)));
}

#[test]
fn from_hex_agrees_with_from_str_radix() {
    for v in 0..=255u8 {
        let text = format!("{:02x}{:02X}{:02x}", v, 255 - v, v / 2);
        let red = u8::from_str_radix(&text[0..2], 16).unwrap();
        let green = u8::from_str_radix(&text[2..4], 16).unwrap();
        let blue = u8::from_str_radix(&text[4..6], 16).unwrap();
        assert_eq!(Rgb::from_hex(&text), Ok(rgb(red, green, blue)));
        assert_eq!(rgb(red, green, blue), rgb(v, 255 - v, v / 2));
    }
}

#[test]
fn from_hex_refuses_another_length() {
    for text in ["", "f", "fffff", "fffffff", "#ffffff", "ffffff ", "ff ff ff"] {
        assert_eq!(Rgb::from_hex(text), SIX, "{:?}", text);
    }
}

#[test]
fn from_hex_refuses_what_is_no_digit() {
    for text in ["gggggg", "fffffg", "xfffff", "+fffff", "-00000", "ff,fff", "0x1234", "12 456"] {
        assert_eq!(Rgb::from_hex(text), SIX, "{:?}", text);
    }
    // Six bytes that are fewer characters, and six characters that are more
    // bytes.
    assert_eq!(Rgb::from_hex("ééé"), SIX);
    assert_eq!(Rgb::from_hex("ffffé"), SIX);
    assert_eq!(Rgb::from_hex("éfffff"), SIX);
    assert_eq!(Rgb::from_hex("１２３４５６"), SIX);
}

#[test]
fn from_triplet_reads_three_numbers() {
    assert_eq!(Rgb::from_triplet("0,0,0"), Ok(rgb(0, 0, 0)));
    assert_eq!(Rgb::from_triplet("255,255,255"), Ok(rgb(255, 255, 255)));
    assert_eq!(Rgb::from_triplet("255,128,0"), Ok(rgb(255, 128, 0)));
    assert_eq!(Rgb::from_triplet("1,22,133"), Ok(rgb(1, 22, 133)));
    assert_eq!(Rgb::from_triplet("+1,+22,+133"), Ok(rgb(1, 22, 133)));
    assert_eq!(Rgb::from_triplet("001,0000022,00000000000133"), Ok(rgb(1, 22, 133)));
}

#[test]
fn from_triplet_and_from_hex_mean_the_same_color() {
    assert_eq!(Rgb::from_triplet("255,128,0"), Rgb::from_hex("ff8000"));
    assert_eq!(Rgb::from_triplet("18,52,86"), Rgb::from_hex("123456"));
}

#[test]
fn from_triplet_wants_two_commas() {
    for text in ["", "1", "1,2", "1,2,3,4", ",,,", "1,2,3,", ",1,2,3", "255", "ff8000"] {
        assert_eq!(Rgb::from_triplet(text), THREE, "{:?}", text);
    }
}

#[test]
fn from_triplet_refuses_an_empty_part() {
    for text in [",,", "1,,3", ",2,3", "1,2,"] {
        assert_eq!(Rgb::from_triplet(text), number(ParseIntError::Empty), "{:?}", text);
    }
}

#[test]
fn from_triplet_refuses_what_is_no_digit() {
    for text in [
        "a,2,3", "1,b,3", "1,2,c", "1, 2,3", " 1,2,3", "1,2,3 ", "-1,2,3", "1,+,3", "1,-,3",
        "1,2,+-3", "1,2,3+", "1.0,2,3", "0x1,2,3", "1,2,é", "1;2,3,4", "١,2,3",
    ] {
        assert_eq!(Rgb::from_triplet(text), number(ParseIntError::InvalidDigit), "{:?}", text);
    }
}

#[test]
fn from_triplet_refuses_a_number_above_255() {
    for text in ["256,0,0", "0,256,0", "0,0,256", "1000,2,3", "1,2,99999999999999999999", "0,260,0"]
    {
        assert_eq!(Rgb::from_triplet(text), number(ParseIntError::PosOverflow), "{:?}", text);
    }
}

#[test]
fn from_triplet_reports_the_first_failure() {
    assert_eq!(Rgb::from_triplet("x,,999"), number(ParseIntError::InvalidDigit));
    assert_eq!(Rgb::from_triplet(",x,999"), number(ParseIntError::Empty));
    assert_eq!(Rgb::from_triplet("999,x,"), number(ParseIntError::PosOverflow));
    // Within one number, whatever comes first from the left.
    assert_eq!(Rgb::from_triplet("999x,0,0"), number(ParseIntError::PosOverflow));
    assert_eq!(Rgb::from_triplet("99x9,0,0"), number(ParseIntError::InvalidDigit));
    assert_eq!(Rgb::from_triplet("25x,0,0"), number(ParseIntError::InvalidDigit));
}

#[test]
fn from_triplet_agrees_with_the_standard_parser() {
    let parts = [
        "", "0", "7", "+7", "-7", "+", "-", "255", "256", "0255", "2555", "25a", "a25", "999a",
        "99a9", " 1", "1 ", "+0", "++1", "00", "300", "1e2",
    ];
    for red in parts {
        for green in parts {
            for blue in ["3", "", "x", "256"] {
                let text = format!("{},{},{}", red, green, blue);
                let expect = standard([red, green, blue]);
                assert_eq!(Rgb::from_triplet(&text), expect, "{:?}", text);
            }
        }
    }
}

fn standard(parts: [&str; 3]) -> Result<Rgb, ParseSrgbColorError> {
    let mut values = [0u8; 3];
    for (value, part) in values.iter_mut().zip(parts) {
        match part.parse::<u8>() {
            Ok(v) => *value = v,
            Err(e) => {
                let kind = match e.kind() {
                    std::num::IntErrorKind::Empty => ParseIntError::Empty,
                    std::num::IntErrorKind::InvalidDigit => ParseIntError::InvalidDigit,
                    std::num::IntErrorKind::PosOverflow => ParseIntError::PosOverflow,
                    other => panic!("{:?}", other),
                };
                return number(kind);
            }
        }
    }
    Ok(rgb(values[0], values[1], values[2]))
}

#[test]
fn every_error_has_its_words() {
    assert_eq!(
        ParseSrgbColorError::MustBeSixHexDigits.message(),
        "a color must consist of six hexadecimal digits"
    );
    assert_eq!(
        ParseSrgbColorError::ThreeValuesRequired.message(),
        "exactly three values must be specified"
    );
    for part in ["", "x", "256"] {
        let expect = part.parse::<u8>().unwrap_err().to_string();
        let text = format!("1,2,{}", part);
        assert_eq!(Rgb::from_triplet(&text).unwrap_err().message(), expect);
    }
    assert_eq!(ParseIntError::Empty.message(), "cannot parse integer from empty string");
    assert_eq!(ParseIntError::InvalidDigit.message(), "invalid digit found in string");
    assert_eq!(ParseIntError::PosOverflow.message(), "number too large to fit in target type");
}
