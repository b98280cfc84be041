//! `#rrggbb` colour values read as their three channels.
use vstd::prelude::*;
use crate::text::str_to_chars;

verus! {

/// The text after its leading `#` characters (`trim_start_matches('#')`).
pub open spec fn strip_hashes(s: Seq<char>) -> Seq<char>
    decreases s.len(),
{
    if s.len() > 0 && s[0] == '#' {
        strip_hashes(s.drop_first())
    } else {
        s
    }
}

/// The value of a hexadecimal digit in either case.
pub open spec fn hex_value(c: char) -> Option<u8> {
    if '0' <= c && c <= '9' {
        Some((c as u32 - '0' as u32) as u8)
    } else if 'a' <= c && c <= 'f' {
        Some((c as u32 - 'a' as u32 + 10) as u8)
    } else if 'A' <= c && c <= 'F' {
        Some((c as u32 - 'A' as u32 + 10) as u8)
    } else {
        None
    }
}

/// Two characters read as `u8::from_str_radix(.., 16)` reads them: two hex
/// digits, or `+` and one digit.
pub open spec fn hex_pair(a: char, b: char) -> Option<u8> {
    if a == '+' {
        hex_value(b)
    } else {
        match (hex_value(a), hex_value(b)) {
            (Some(x), Some(y)) => Some((16 * x + y) as u8),
            _ => None,
        }
    }
}

/// The channels of a `#rrggbb` colour: after the leading `#`s exactly six
/// characters, read in pairs.
pub open spec fn hex_rgb(s: Seq<char>) -> Option<(u8, u8, u8)> {
    let h = strip_hashes(s);
    if h.len() != 6 {
        None
    } else {
        match (hex_pair(h[0], h[1]), hex_pair(h[2], h[3]), hex_pair(h[4], h[5])) {
            (Some(r), Some(g), Some(b)) => Some((r, g, b)),
            _ => None,
        }
    }
}

fn hex_value_exec(c: char) -> (r: Option<u8>)
    ensures
        r == hex_value(c),
{
    if '0' <= c && c <= '9' {
        Some((c as u32 - '0' as u32) as u8)
    } else if 'a' <= c && c <= 'f' {
        Some((c as u32 - 'a' as u32 + 10) as u8)
    } else if 'A' <= c && c <= 'F' {
        Some((c as u32 - 'A' as u32 + 10) as u8)
    } else {
        None
    }
}

fn hex_pair_exec(a: char, b: char) -> (r: Option<u8>)
    ensures
        r == hex_pair(a, b),
{
    if a == '+' {
        hex_value_exec(b)
    } else {
        match (hex_value_exec(a), hex_value_exec(b)) {
            (Some(x), Some(y)) => {
                assert(x < 16 && y < 16);
                Some(16 * x + y)
            },
            _ => None,
        }
    }
}

/// The red, green and blue channels of a `#rrggbb` colour, or `None` when
/// the text (after its leading `#`s) is not six hex characters.
pub fn parse_hex_rgb(value: &str) -> (r: Option<(u8, u8, u8)>)
    ensures
        r == hex_rgb(value@),
{
    let s = str_to_chars(value);
    let mut i: usize = 0;
    assert(s@.subrange(0, s@.len() as int) =~= s@);
    while i < s.len() && s[i] == '#'
        invariant
            i <= s@.len(),
            strip_hashes(s@.subrange(i as int, s@.len() as int)) == strip_hashes(value@),
            s@ == value@,
        decreases s@.len() - i,
    {
        assert(s@.subrange(i as int, s@.len() as int).drop_first() =~= s@.subrange(
            i + 1,
            s@.len() as int,
        ));
        i += 1;
    }
    let ghost h = s@.subrange(i as int, s@.len() as int);
    assert(strip_hashes(h) == h);
    if s.len() - i != 6 {
        return None;
    }
    assert(h[0] == s@[i as int] && h[5] == s@[i + 5]);
    assert(h[1] == s@[i + 1] && h[2] == s@[i + 2] && h[3] == s@[i + 3] && h[4] == s@[i + 4]);
    match (
        hex_pair_exec(s[i], s[i + 1]),
        hex_pair_exec(s[i + 2], s[i + 3]),
        hex_pair_exec(s[i + 4], s[i + 5]),
    ) {
        (Some(r), Some(g), Some(b)) => Some((r, g, b)),
        _ => None,
    }
}

} // verus!
