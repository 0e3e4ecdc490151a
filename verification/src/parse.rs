//! Device colours as text: six hexadecimal digits, or three decimal numbers
//! with commas between them.
use vstd::prelude::*;
use vstd::string::StringSliceAdditionalSpecFns;
use crate::pixel::Rgb;

verus! {

/// Why a text is not a number from 0 to 255.
#[derive(Clone, Copy, Debug, PartialEq, Eq, Structural)]
pub enum ParseIntError {
    /// The text is empty.
    Empty,
    /// The text holds something that is no digit, or a sign and nothing else.
    InvalidDigit,
    /// The number is above 255.
    PosOverflow,
}

/// Why a text is not a colour.
#[derive(Clone, Copy, Debug, PartialEq, Eq, Structural)]
pub enum ParseSrgbColorError {
    /// The text is not made of six hexadecimal digits.
    MustBeSixHexDigits,
    /// The text is not made of three parts with commas between them.
    ThreeValuesRequired,
    /// One of the three parts is not a number from 0 to 255.
    ParseIntError(ParseIntError),
}

/// The value of a hexadecimal digit, in either case.
pub open spec fn hex_value(byte: u8) -> Option<u8> {
    if 0x30 <= byte <= 0x39 {
        Some((byte - 0x30) as u8)
    } else if 0x41 <= byte <= 0x46 {
        Some((byte - 0x41 + 10) as u8)
    } else if 0x61 <= byte <= 0x66 {
        Some((byte - 0x61 + 10) as u8)
    } else {
        None
    }
}

/// The value of two hexadecimal digits, the high one first.
pub open spec fn hex_pair(high: u8, low: u8) -> u8 {
    (16 * hex_value(high)->0 + hex_value(low)->0) as u8
}

/// What six hexadecimal digits mean: the red, green and blue channel, two
/// digits each. Anything else is no colour.
pub open spec fn hex_color(text: Seq<u8>) -> Result<Rgb, ParseSrgbColorError> {
    if text.len() == 6 && (forall|i: int| 0 <= i < 6 ==> hex_value(#[trigger] text[i]) is Some) {
        Ok(
            Rgb {
                red: hex_pair(text[0], text[1]),
                green: hex_pair(text[2], text[3]),
                blue: hex_pair(text[4], text[5]),
            },
        )
    } else {
        Err(ParseSrgbColorError::MustBeSixHexDigits)
    }
}

/// The value of a hexadecimal digit, in either case.
pub fn hex_digit(byte: u8) -> (value: Option<u8>)
    ensures
        value == hex_value(byte),
        value matches Some(v) ==> v < 16,
{
    if 0x30 <= byte && byte <= 0x39 {
        Some(byte - 0x30)
    } else if 0x41 <= byte && byte <= 0x46 {
        Some(byte - 0x41 + 10)
    } else if 0x61 <= byte && byte <= 0x66 {
        Some(byte - 0x61 + 10)
    } else {
        None
    }
}

impl Rgb {
    /// Reads a colour from six hexadecimal digits, such as `ff8000`.
    pub fn from_hex(text: &str) -> (parsed: Result<Rgb, ParseSrgbColorError>)
        ensures
            parsed == hex_color(text.spec_bytes()),
    {
        let bytes = text.as_bytes();
        if bytes.len() != 6 {
            return Err(ParseSrgbColorError::MustBeSixHexDigits);
        }
        let mut values: [u8; 6] = [0, 0, 0, 0, 0, 0];
        let mut i: usize = 0;
        while i < 6
            invariant
                i <= 6,
                bytes@ == text.spec_bytes(),
                bytes@.len() == 6,
                forall|j: int| 0 <= j < i ==> hex_value(#[trigger] bytes@[j]) == Some(values@[j]),
                forall|j: int| 0 <= j < i ==> values@[j] < 16,
            decreases 6 - i,
        {
            match hex_digit(bytes[i]) {
                Some(value) => {
                    values[i] = value;
                },
                None => {
                    return Err(ParseSrgbColorError::MustBeSixHexDigits);
                },
            }
            i += 1;
        }
        Ok(
            Rgb {
                red: 16 * values[0] + values[1],
                green: 16 * values[2] + values[3],
                blue: 16 * values[4] + values[5],
            },
        )
    }
}

/// The value of a decimal digit.
pub open spec fn decimal_value(byte: u8) -> Option<u8> {
    if 0x30 <= byte <= 0x39 {
        Some((byte - 0x30) as u8)
    } else {
        None
    }
}

/// What digits mean when `read` is what the digits before them came to.
/// They are read from the left, and the first that is no digit, or that
/// takes the number above 255, ends the reading.
pub open spec fn decimal_from(read: int, digits: Seq<u8>) -> Result<u8, ParseIntError>
    decreases digits.len(),
{
    if digits.len() == 0 {
        Ok(read as u8)
    } else {
        match decimal_value(digits[0]) {
            None => Err(ParseIntError::InvalidDigit),
            Some(digit) => if read * 10 + digit > 255 {
                Err(ParseIntError::PosOverflow)
            } else {
                decimal_from(read * 10 + digit, digits.skip(1))
            },
        }
    }
}

/// What a text means as a number from 0 to 255: decimal digits, with a plus
/// sign before them or without, and nothing else.
pub open spec fn decimal_u8(text: Seq<u8>) -> Result<u8, ParseIntError> {
    if text.len() == 0 {
        Err(ParseIntError::Empty)
    } else if text.len() == 1 && (text[0] == 0x2b || text[0] == 0x2d) {
        Err(ParseIntError::InvalidDigit)
    } else if text[0] == 0x2b {
        decimal_from(0, text.skip(1))
    } else {
        decimal_from(0, text)
    }
}

/// The number of bytes before the first comma, or of all bytes where there
/// is no comma.
pub open spec fn until_comma(text: Seq<u8>) -> int
    decreases text.len(),
{
    if text.len() == 0 || text[0] == 0x2c {
        0
    } else {
        1 + until_comma(text.skip(1))
    }
}

/// The colour of three numbers, or the error of the first that is none.
pub open spec fn color_of_parts(red: Seq<u8>, green: Seq<u8>, blue: Seq<u8>) -> Result<
    Rgb,
    ParseSrgbColorError,
> {
    match decimal_u8(red) {
        Err(e) => Err(ParseSrgbColorError::ParseIntError(e)),
        Ok(red) => match decimal_u8(green) {
            Err(e) => Err(ParseSrgbColorError::ParseIntError(e)),
            Ok(green) => match decimal_u8(blue) {
                Err(e) => Err(ParseSrgbColorError::ParseIntError(e)),
                Ok(blue) => Ok(Rgb { red, green, blue }),
            },
        },
    }
}

/// What a text of three decimal numbers means: the red, green and blue
/// channel, with one comma after the first and one after the second and no
/// other.
pub open spec fn triplet_color(text: Seq<u8>) -> Result<Rgb, ParseSrgbColorError> {
    let first = until_comma(text);
    if first >= text.len() {
        Err(ParseSrgbColorError::ThreeValuesRequired)
    } else {
        let rest = text.skip(first + 1);
        let second = until_comma(rest);
        if second >= rest.len() {
            Err(ParseSrgbColorError::ThreeValuesRequired)
        } else {
            let last = rest.skip(second + 1);
            if until_comma(last) < last.len() {
                Err(ParseSrgbColorError::ThreeValuesRequired)
            } else {
                color_of_parts(text.take(first), rest.take(second), last)
            }
        }
    }
}

/// The place of the first comma at or after `from`, or the length of the
/// text where there is none.
fn find_comma(text: &[u8], from: usize) -> (at: usize)
    requires
        from <= text@.len(),
    ensures
        from <= at <= text@.len(),
        at - from == until_comma(text@.skip(from as int)),
{
    let mut at: usize = from;
    while at < text.len() && text[at] != 0x2c
        invariant
            from <= at <= text@.len(),
            until_comma(text@.skip(from as int)) == (at - from) + until_comma(
                text@.skip(at as int),
            ),
        decreases text@.len() - at,
    {
        proof {
            assert(text@.skip(at as int).skip(1) =~= text@.skip(at + 1));
        }
        at += 1;
    }
    at
}

/// Reads the bytes from `from` up to `to` as a number from 0 to 255.
fn parse_decimal(text: &[u8], from: usize, to: usize) -> (parsed: Result<u8, ParseIntError>)
    requires
        from <= to <= text@.len(),
    ensures
        parsed == decimal_u8(text@.subrange(from as int, to as int)),
{
    let ghost part = text@.subrange(from as int, to as int);
    if from == to {
        return Err(ParseIntError::Empty);
    }
    let sign = text[from];
    if to - from == 1 && (sign == 0x2b || sign == 0x2d) {
        return Err(ParseIntError::InvalidDigit);
    }
    let mut at: usize = if sign == 0x2b {
        from + 1
    } else {
        from
    };
    let ghost digits = text@.subrange(at as int, to as int);
    assert(sign == 0x2b ==> digits =~= part.skip(1));
    let mut read: u8 = 0;
    while at < to
        invariant
            from <= at <= to <= text@.len(),
            decimal_u8(text@.subrange(from as int, to as int)) == decimal_from(0, digits),
            decimal_from(0, digits) == decimal_from(
                read as int,
                text@.subrange(at as int, to as int),
            ),
        decreases to - at,
    {
        let ghost left = text@.subrange(at as int, to as int);
        assert(left.skip(1) =~= text@.subrange(at + 1, to as int));
        let byte = text[at];
        if byte < 0x30 || byte > 0x39 {
            return Err(ParseIntError::InvalidDigit);
        }
        let digit: u8 = byte - 0x30;
        if read > 25 || (read == 25 && digit > 5) {
            return Err(ParseIntError::PosOverflow);
        }
        read = read * 10 + digit;
        at += 1;
    }
    Ok(read)
}

impl Rgb {
    /// Reads a colour from three decimal numbers with commas between them,
    /// such as `255,128,0`.
    pub fn from_triplet(text: &str) -> (parsed: Result<Rgb, ParseSrgbColorError>)
        ensures
            parsed == triplet_color(text.spec_bytes()),
    {
        let bytes = text.as_bytes();
        let ghost whole = bytes@;
        let len = bytes.len();
        assert(whole.skip(0) =~= whole);
        let first = find_comma(bytes, 0);
        if first >= len {
            return Err(ParseSrgbColorError::ThreeValuesRequired);
        }
        let ghost rest = whole.skip(first + 1);
        let second = find_comma(bytes, first + 1);
        if second >= len {
            return Err(ParseSrgbColorError::ThreeValuesRequired);
        }
        let ghost last = rest.skip(second - first);
        assert(last =~= whole.skip(second + 1));
        let third = find_comma(bytes, second + 1);
        if third < len {
            return Err(ParseSrgbColorError::ThreeValuesRequired);
        }
        proof {
            assert(rest.take(second - first - 1) =~= whole.subrange(first + 1, second as int));
        }
        let red = match parse_decimal(bytes, 0, first) {
            Ok(red) => red,
            Err(e) => {
                return Err(ParseSrgbColorError::ParseIntError(e));
            },
        };
        let green = match parse_decimal(bytes, first + 1, second) {
            Ok(green) => green,
            Err(e) => {
                return Err(ParseSrgbColorError::ParseIntError(e));
            },
        };
        let blue = match parse_decimal(bytes, second + 1, len) {
            Ok(blue) => blue,
            Err(e) => {
                return Err(ParseSrgbColorError::ParseIntError(e));
            },
        };
        Ok(Rgb { red, green, blue })
    }
}

impl ParseIntError {
    /// The error in words.
    pub open spec fn text(self) -> Seq<char> {
        match self {
            ParseIntError::Empty => "cannot parse integer from empty string"@,
            ParseIntError::InvalidDigit => "invalid digit found in string"@,
            ParseIntError::PosOverflow => "number too large to fit in target type"@,
        }
    }

    /// The error in words.
    pub fn message(self) -> (message: String)
        ensures
            message@ == self.text(),
    {
        match self {
            ParseIntError::Empty => "cannot parse integer from empty string".to_owned(),
            ParseIntError::InvalidDigit => "invalid digit found in string".to_owned(),
            ParseIntError::PosOverflow => "number too large to fit in target type".to_owned(),
        }
    }
}

impl ParseSrgbColorError {
    /// The error in words.
    pub open spec fn text(self) -> Seq<char> {
        match self {
            ParseSrgbColorError::MustBeSixHexDigits => "a color must consist of six hexadecimal digits"@,
            ParseSrgbColorError::ThreeValuesRequired => "exactly three values must be specified"@,
            ParseSrgbColorError::ParseIntError(e) => e.text(),
        }
    }

    /// The error in words.
    pub fn message(self) -> (message: String)
        ensures
            message@ == self.text(),
    {
        match self {
            ParseSrgbColorError::MustBeSixHexDigits => {
                "a color must consist of six hexadecimal digits".to_owned()
            },
            ParseSrgbColorError::ThreeValuesRequired => {
                "exactly three values must be specified".to_owned()
            },
            ParseSrgbColorError::ParseIntError(e) => e.message(),
        }
    }
}

} // verus!
