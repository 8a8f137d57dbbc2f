//! Colours of the map format, written `#AARRGGBB` or `#RRGGBB`.
use vstd::prelude::*;

use std::num::ParseIntError;
use vstd::string::StringExecFns;
use vstd::utf8::is_ascii_chars;

use crate::tme::error::Error;

verus! {

/// A colour with its alpha channel.
#[derive(Clone, Copy, Debug, PartialEq, Eq, Structural)]
pub struct Color {
    pub a: u8,
    pub r: u8,
    pub g: u8,
    pub b: u8,
}

/// The alpha of a colour written without one: fully opaque.
pub fn default_alpha() -> (r: u8)
    ensures
        r == 255,
{
    u8::MAX
}

/// The value of a hex digit, either case.
pub open spec fn hex_digit_value(c: char) -> Option<u8> {
    if '0' <= c && c <= '9' {
        Some((c as u32 - '0' as u32) as u8)
    } else if 'a' <= c && c <= 'f' {
        Some((c as u32 - 'a' as u32 + 10) as u8)
    } else if 'A' <= c && c <= 'F' {
        Some((c as u32 - 'A' as u32 + 10) as u8)
    } else {
        None
    }
}

/// A two-character colour component read in base 16: two hex digits, or a
/// `+` sign and one.
pub open spec fn component_value(s: Seq<char>) -> Option<u8> {
    if s.len() != 2 {
        None
    } else if s[0] == '+' {
        hex_digit_value(s[1])
    } else {
        match (hex_digit_value(s[0]), hex_digit_value(s[1])) {
            (Some(h), Some(l)) => Some((16 * h + l) as u8),
            _ => None,
        }
    }
}

/// `s` without its leading `#`, if it has one.
pub open spec fn strip_hash(s: Seq<char>) -> Seq<char> {
    if s.len() > 0 && s[0] == '#' {
        s.drop_first()
    } else {
        s
    }
}

/// The colour that the hex digits `t` give: `RRGGBB` is opaque, `AARRGGBB`
/// carries its alpha.
pub open spec fn color_of(t: Seq<char>) -> Option<Color> {
    if t.len() == 6 {
        match (
            component_value(t.subrange(0, 2)),
            component_value(t.subrange(2, 4)),
            component_value(t.subrange(4, 6)),
        ) {
            (Some(r), Some(g), Some(b)) => Some(Color { a: 255, r, g, b }),
            _ => None,
        }
    } else if t.len() == 8 {
        match (
            component_value(t.subrange(0, 2)),
            component_value(t.subrange(2, 4)),
            component_value(t.subrange(4, 6)),
            component_value(t.subrange(6, 8)),
        ) {
            (Some(a), Some(r), Some(g), Some(b)) => Some(Color { a, r, g, b }),
            _ => None,
        }
    } else {
        None
    }
}

/// The upper-case hex digit of `n`.
pub open spec fn hex_char(n: u8) -> char {
    seq!['0', '1', '2', '3', '4', '5', '6', '7', '8', '9', 'A', 'B', 'C', 'D', 'E', 'F'][n as int]
}

/// The two upper-case hex digits of `x`.
pub open spec fn hex_pair(x: u8) -> Seq<char> {
    seq![hex_char(x / 16), hex_char(x % 16)]
}

/// How a colour is written: `#AARRGGBB`, upper case.
pub open spec fn color_text(c: Color) -> Seq<char> {
    seq!['#'] + hex_pair(c.a) + hex_pair(c.r) + hex_pair(c.g) + hex_pair(c.b)
}

/// Relies on `u8::from_str_radix` in base 16: an optional `+`, then digits
/// of base 16 in either case; anything else is an error.
#[verifier::external_body]
fn parse_component(s: &str) -> (r: core::result::Result<u8, ParseIntError>)
    requires
        s@.len() == 2,
    ensures
        match r {
            Ok(v) => component_value(s@) == Some(v),
            Err(_) => component_value(s@) is None,
        },
{
    u8::from_str_radix(s, 16)
}

fn nibble_text(n: u8) -> (r: &'static str)
    requires
        n < 16,
    ensures
        r@ == seq![hex_char(n)],
{
    proof {
        reveal_strlit("0");
        reveal_strlit("1");
        reveal_strlit("2");
        reveal_strlit("3");
        reveal_strlit("4");
        reveal_strlit("5");
        reveal_strlit("6");
        reveal_strlit("7");
        reveal_strlit("8");
        reveal_strlit("9");
        reveal_strlit("A");
        reveal_strlit("B");
        reveal_strlit("C");
        reveal_strlit("D");
        reveal_strlit("E");
        reveal_strlit("F");
    }
    let r = match n {
        0 => "0",
        1 => "1",
        2 => "2",
        3 => "3",
        4 => "4",
        5 => "5",
        6 => "6",
        7 => "7",
        8 => "8",
        9 => "9",
        10 => "A",
        11 => "B",
        12 => "C",
        13 => "D",
        14 => "E",
        _ => "F",
    };
    assert(r@ =~= seq![hex_char(n)]);
    r
}

impl Color {
    /// An opaque colour.
    pub fn new(r: u8, g: u8, b: u8) -> (c: Self)
        ensures
            c == (Color { a: 255, r, g, b }),
    {
        Self { a: default_alpha(), r, g, b }
    }

    /// A colour with the given alpha.
    pub fn with_alpha(a: u8, r: u8, g: u8, b: u8) -> (c: Self)
        ensures
            c == (Color { a, r, g, b }),
    {
        Self { a, r, g, b }
    }

    /// Reads `#AARRGGBB`, `#RRGGBB`, or either without the `#`. A text of
    /// another length, or with a character outside ASCII, is no colour; a
    /// component that is not hex is refused with its cause.
    pub fn from_str(s: &str) -> (res: core::result::Result<Color, Error>)
        ensures
            ({
                let t = strip_hash(s@);
                let shaped = is_ascii_chars(t) && (t.len() == 6 || t.len() == 8);
                match res {
                    Ok(c) => shaped && color_of(t) == Some(c),
                    Err(Error::ParseColor(x)) => !shaped && x@ == t,
                    Err(Error::ParseColorComponent(_)) => shaped && color_of(t) is None,
                    Err(_) => false,
                }
            }),
    {
        let n = s.unicode_len();
        let t: &str = if n > 0 && s.get_char(0) == '#' {
            s.substring_char(1, n)
        } else {
            s
        };
        proof {
            if s@.len() > 0 && s@[0] == '#' {
                assert(t@ =~= s@.drop_first());
            }
        }
        let len = t.unicode_len();
        if !t.is_ascii() || (len != 6 && len != 8) {
            return Error::ParseColor(t.to_owned()).fail();
        }
        let (a, first) = if len == 8 {
            match parse_component(t.substring_ascii(0, 2)) {
                Ok(a) => (a, 2),
                Err(e) => {
                    return Err(Error::ParseColorComponent(e));
                },
            }
        } else {
            (default_alpha(), 0)
        };
        let r = match parse_component(t.substring_ascii(first, first + 2)) {
            Ok(v) => v,
            Err(e) => {
                return Err(Error::ParseColorComponent(e));
            },
        };
        let g = match parse_component(t.substring_ascii(first + 2, first + 4)) {
            Ok(v) => v,
            Err(e) => {
                return Err(Error::ParseColorComponent(e));
            },
        };
        let b = match parse_component(t.substring_ascii(first + 4, first + 6)) {
            Ok(v) => v,
            Err(e) => {
                return Err(Error::ParseColorComponent(e));
            },
        };
        Ok(Color::with_alpha(a, r, g, b))
    }

    /// The colour written as `#AARRGGBB`, upper case.
    pub fn to_string(&self) -> (s: String)
        ensures
            s@ == color_text(*self),
    {
        let mut s = "#".to_owned();
        proof {
            reveal_strlit("#");
        }
        s.append(nibble_text(self.a / 16));
        s.append(nibble_text(self.a % 16));
        s.append(nibble_text(self.r / 16));
        s.append(nibble_text(self.r % 16));
        s.append(nibble_text(self.g / 16));
        s.append(nibble_text(self.g % 16));
        s.append(nibble_text(self.b / 16));
        s.append(nibble_text(self.b % 16));
        assert(s@ =~= color_text(*self));
        s
    }
}

} // verus!
