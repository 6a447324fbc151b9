//! The pieces of theme parsing that are plain computation: style modifier
//! names and `#rrggbb` colour codes.  Reading theme files and building
//! drawable styles stay with the embedding application.

use vstd::prelude::*;
use vstd::string::StrSliceExecFns;

verus! {

/// A style modifier a theme may name.
#[derive(Clone, Copy, Debug, PartialEq, Eq, Structural)]
pub enum Modifier {
    BOLD,
    UNDERLINE,
    ITALIC,
}

pub open spec fn spec_parse_modifier(s: Seq<char>) -> Option<Modifier> {
    if s == "bold"@ {
        Some(Modifier::BOLD)
    } else if s == "italic"@ {
        Some(Modifier::ITALIC)
    } else if s == "underline"@ {
        Some(Modifier::UNDERLINE)
    } else {
        None
    }
}

/// The modifier a theme value names; anything unknown is `None`.
pub fn parse_modifier(value: &str) -> (r: Option<Modifier>)
    ensures
        r == spec_parse_modifier(value@),
{
    if crate::decode::str_eq(value, "bold") {
        Some(Modifier::BOLD)
    } else if crate::decode::str_eq(value, "italic") {
        Some(Modifier::ITALIC)
    } else if crate::decode::str_eq(value, "underline") {
        Some(Modifier::UNDERLINE)
    } else {
        None
    }
}

pub open spec fn spec_is_hex_digit(c: char) -> bool {
    ('0' <= c && c <= '9') || ('a' <= c && c <= 'f') || ('A' <= c && c <= 'F')
}

pub open spec fn spec_hex_val(c: char) -> u8 {
    if '0' <= c && c <= '9' {
        (c as u8 - 48) as u8
    } else if 'a' <= c && c <= 'f' {
        (c as u8 - 87) as u8
    } else {
        (c as u8 - 55) as u8
    }
}

/// The byte two hex digits denote.
pub open spec fn spec_hex_pair(hi: char, lo: char) -> u8 {
    (spec_hex_val(hi) * 16 + spec_hex_val(lo)) as u8
}

/// Whether a colour code is well-formed: a `#`, then six hex digits
/// (characters beyond the seventh are ignored, as the source format allows
/// trailing matter).
pub open spec fn spec_hex_color_ok(s: Seq<char>) -> bool {
    &&& s.len() >= 7
    &&& s[0] == '#'
    &&& forall|i: int| 1 <= i < 7 ==> spec_is_hex_digit(#[trigger] s[i])
}

pub open spec fn spec_hex_color(s: Seq<char>) -> (u8, u8, u8) {
    (spec_hex_pair(s[1], s[2]), spec_hex_pair(s[3], s[4]), spec_hex_pair(s[5], s[6]))
}

fn hex_val(c: char) -> (r: Option<u8>)
    ensures
        match r {
            Some(v) => spec_is_hex_digit(c) && v == spec_hex_val(c),
            None => !spec_is_hex_digit(c),
        },
{
    if '0' <= c && c <= '9' {
        Some(c as u8 - 48)
    } else if 'a' <= c && c <= 'f' {
        Some(c as u8 - 87)
    } else if 'A' <= c && c <= 'F' {
        Some(c as u8 - 55)
    } else {
        None
    }
}

/// Parses a `#rrggbb` colour code into its three channels; `None` exactly
/// when the code is malformed.
pub fn hex_string_to_rgb(s: &str) -> (r: Option<(u8, u8, u8)>)
    ensures
        match r {
            Some(rgb) => spec_hex_color_ok(s@) && rgb == spec_hex_color(s@),
            None => !spec_hex_color_ok(s@),
        },
{
    let n = s.unicode_len();
    if n < 7 {
        return None;
    }
    if s.get_char(0) != '#' {
        return None;
    }
    let d1 = hex_val(s.get_char(1));
    let d2 = hex_val(s.get_char(2));
    let d3 = hex_val(s.get_char(3));
    let d4 = hex_val(s.get_char(4));
    let d5 = hex_val(s.get_char(5));
    let d6 = hex_val(s.get_char(6));
    match (d1, d2, d3, d4, d5, d6) {
        (Some(a), Some(b), Some(c), Some(d), Some(e), Some(f)) => {
            proof {
                assert forall|i: int| 1 <= i < 7 implies spec_is_hex_digit(#[trigger] s@[i]) by {
                    if i == 1 {
                        assert(spec_is_hex_digit(s@[1]));
                    } else if i == 2 {
                        assert(spec_is_hex_digit(s@[2]));
                    } else if i == 3 {
                        assert(spec_is_hex_digit(s@[3]));
                    } else if i == 4 {
                        assert(spec_is_hex_digit(s@[4]));
                    } else if i == 5 {
                        assert(spec_is_hex_digit(s@[5]));
                    } else {
                        assert(spec_is_hex_digit(s@[6]));
                    }
                }
            }
            Some(((a * 16 + b), (c * 16 + d), (e * 16 + f)))
        },
        _ => None,
    }
}

} // verus!
