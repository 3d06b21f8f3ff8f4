//! Colors as the configuration writes them: a hexadecimal string with an
//! optional `#` decoration, read into four 8-bit channels.

use crate::scan;
use vstd::prelude::*;

verus! {

/// A color with 8-bit alpha, red, green and blue channels; 255 stands for a
/// channel value of one.
#[derive(Copy, Clone, Debug, PartialEq, Eq, Structural)]
pub struct Color {
    pub a: u8,
    pub r: u8,
    pub g: u8,
    pub b: u8,
}

#[derive(Copy, Clone, Debug, PartialEq, Eq, Structural)]
pub enum ParseError {
    /// A character is not a hexadecimal digit.
    InvalidDigit,
    /// The text holds more digits than the longest accepted form.
    Length(usize),
}

pub open spec fn is_hex_digit(c: char) -> bool {
    scan::is_digit(c) || (97 <= c as u32 && c as u32 <= 102) || (65 <= c as u32 && c as u32 <= 70)
}

pub open spec fn hex_val(c: char) -> int {
    if scan::is_digit(c) {
        c as u32 - 48
    } else if 97 <= c as u32 && c as u32 <= 102 {
        c as u32 - 87
    } else {
        c as u32 - 55
    }
}

/// The value of one or two hexadecimal digits, as `u8::from_str_radix` reads
/// them from the channel pieces of a color string.
pub open spec fn hex_byte(s: Seq<char>) -> Option<u8> {
    if s.len() == 1 && is_hex_digit(s[0]) {
        Some(hex_val(s[0]) as u8)
    } else if s.len() == 2 && is_hex_digit(s[0]) && is_hex_digit(s[1]) {
        Some((16 * hex_val(s[0]) + hex_val(s[1])) as u8)
    } else {
        None
    }
}

fn hex_digit(c: char) -> (r: Option<u8>)
    ensures
        match r {
            Some(v) => is_hex_digit(c) && v as int == hex_val(c),
            None => !is_hex_digit(c),
        },
{
    let u = c as u32;
    if 48 <= u && u <= 57 {
        Some((u - 48) as u8)
    } else if 97 <= u && u <= 102 {
        Some((u - 87) as u8)
    } else if 65 <= u && u <= 70 {
        Some((u - 55) as u8)
    } else {
        None
    }
}

/// Reads one channel: one or two hexadecimal digits.
fn parse_hex_byte(s: &str) -> (r: Option<u8>)
    ensures
        r == hex_byte(s@),
{
    let n = s.unicode_len();
    if n == 1 {
        hex_digit(s.get_char(0))
    } else if n == 2 {
        let hi = hex_digit(s.get_char(0));
        let lo = hex_digit(s.get_char(1));
        match (hi, lo) {
            (Some(h), Some(l)) => Some(16 * h + l),
            _ => None,
        }
    } else {
        None
    }
}

/// How a color string is read once the `#` decoration is stripped: nothing
/// gives the zero color; up to two digits give blue alone; up to four give
/// green and blue; up to six give red, green and blue with full alpha; up to
/// eight put the alpha channel first; more digits are rejected with their
/// count.
pub open spec fn parse_color_spec(s: Seq<char>) -> Result<Color, ParseError> {
    let t = scan::trim_char_spec(s, '#');
    if t.len() == 0 {
        Ok(Color { a: 0, r: 0, g: 0, b: 0 })
    } else if t.len() <= 2 {
        match hex_byte(t) {
            Some(b) => Ok(Color { a: 255, r: 0, g: 0, b }),
            None => Err(ParseError::InvalidDigit),
        }
    } else if t.len() <= 4 {
        let gp = t.subrange(0, t.len() - 2);
        let bp = t.subrange(t.len() - 2, t.len() as int);
        match (hex_byte(gp), hex_byte(bp)) {
            (Some(g), Some(b)) => Ok(Color { a: 255, r: 0, g, b }),
            _ => Err(ParseError::InvalidDigit),
        }
    } else if t.len() <= 6 {
        let rp = t.subrange(0, t.len() - 4);
        let gp = t.subrange(t.len() - 4, t.len() - 2);
        let bp = t.subrange(t.len() - 2, t.len() as int);
        match (hex_byte(rp), hex_byte(gp), hex_byte(bp)) {
            (Some(r), Some(g), Some(b)) => Ok(Color { a: 255, r, g, b }),
            _ => Err(ParseError::InvalidDigit),
        }
    } else if t.len() <= 8 {
        let ap = t.subrange(0, t.len() - 6);
        let rp = t.subrange(t.len() - 6, t.len() - 4);
        let gp = t.subrange(t.len() - 4, t.len() - 2);
        let bp = t.subrange(t.len() - 2, t.len() as int);
        match (hex_byte(ap), hex_byte(rp), hex_byte(gp), hex_byte(bp)) {
            (Some(a), Some(r), Some(g), Some(b)) => Ok(Color { a, r, g, b }),
            _ => Err(ParseError::InvalidDigit),
        }
    } else {
        Err(ParseError::Length(t.len() as usize))
    }
}

impl Color {
    pub fn white() -> (r: Color)
        ensures
            r == (Color { a: 255, r: 255, g: 255, b: 255 }),
    {
        Color { a: 255, r: 255, g: 255, b: 255 }
    }

    pub fn black() -> (r: Color)
        ensures
            r == (Color { a: 255, r: 0, g: 0, b: 0 }),
    {
        Color { a: 255, r: 0, g: 0, b: 0 }
    }

    pub fn red() -> (r: Color)
        ensures
            r == (Color { a: 255, r: 255, g: 0, b: 0 }),
    {
        Color { a: 255, r: 255, g: 0, b: 0 }
    }

    pub fn green() -> (r: Color)
        ensures
            r == (Color { a: 255, r: 0, g: 255, b: 0 }),
    {
        Color { a: 255, r: 0, g: 255, b: 0 }
    }

    pub fn blue() -> (r: Color)
        ensures
            r == (Color { a: 255, r: 0, g: 0, b: 255 }),
    {
        Color { a: 255, r: 0, g: 0, b: 255 }
    }

    /// Reads a color from its configuration text.
    pub fn from_str(color: &str) -> (res: Result<Color, ParseError>)
        ensures
            res == parse_color_spec(color@),
    {
        let t = scan::trim_char(color, '#');
        let n = t.unicode_len();
        if n == 0 {
            Ok(Color { a: 0, r: 0, g: 0, b: 0 })
        } else if n <= 2 {
            match parse_hex_byte(t) {
                Some(b) => Ok(Color { a: 255, r: 0, g: 0, b }),
                None => Err(ParseError::InvalidDigit),
            }
        } else if n <= 4 {
            let gp = parse_hex_byte(t.substring_char(0, n - 2));
            let bp = parse_hex_byte(t.substring_char(n - 2, n));
            match (gp, bp) {
                (Some(g), Some(b)) => Ok(Color { a: 255, r: 0, g, b }),
                _ => Err(ParseError::InvalidDigit),
            }
        } else if n <= 6 {
            let rp = parse_hex_byte(t.substring_char(0, n - 4));
            let gp = parse_hex_byte(t.substring_char(n - 4, n - 2));
            let bp = parse_hex_byte(t.substring_char(n - 2, n));
            match (rp, gp, bp) {
                (Some(r), Some(g), Some(b)) => Ok(Color { a: 255, r, g, b }),
                _ => Err(ParseError::InvalidDigit),
            }
        } else if n <= 8 {
            let ap = parse_hex_byte(t.substring_char(0, n - 6));
            let rp = parse_hex_byte(t.substring_char(n - 6, n - 4));
            let gp = parse_hex_byte(t.substring_char(n - 4, n - 2));
            let bp = parse_hex_byte(t.substring_char(n - 2, n));
            match (ap, rp, gp, bp) {
                (Some(a), Some(r), Some(g), Some(b)) => Ok(Color { a, r, g, b }),
                _ => Err(ParseError::InvalidDigit),
            }
        } else {
            Err(ParseError::Length(n))
        }
    }
}

} // verus!
