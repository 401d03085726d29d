//! Decoding of declaration values: lengths and colors.
use vstd::prelude::*;
use crate::canvas::Color;
use crate::text::{chars_of, is_ascii_digit};

verus! {

/// The largest length a declaration can give; longer numbers are capped.
pub const LENGTH_CAP: u64 = 4294967295;

pub open spec fn digit_value(c: char) -> u64 {
    (c as u32 - '0' as u32) as u64
}

pub open spec fn capped(x: int) -> u64 {
    if x > LENGTH_CAP {
        LENGTH_CAP
    } else {
        x as u64
    }
}

/// The decimal value of the digits from `i` on, added to `acc`.
pub open spec fn dec_prefix(v: Seq<char>, i: int, acc: u64) -> u64
    decreases v.len() - i,
{
    if i < 0 || i >= v.len() || !is_ascii_digit(v[i]) {
        acc
    } else {
        dec_prefix(v, i + 1, capped(acc * 10 + digit_value(v[i])))
    }
}

/// The whole number a value starts with, if it starts with a digit
/// (`"12px"` gives 12, `"0.5em"` gives 0, `"auto"` gives none).
pub open spec fn number_prefix(v: Seq<char>) -> Option<u64> {
    if v.len() > 0 && is_ascii_digit(v[0]) {
        Some(dec_prefix(v, 0, 0))
    } else {
        None
    }
}

/// Reads the whole number at the start of a value, as `number_prefix`.
pub fn leading_number(v: &str) -> (r: Option<u64>)
    ensures
        r == number_prefix(v@),
{
    let cs = chars_of(v);
    let n = cs.len();
    if n == 0 || !('0' <= cs[0] && cs[0] <= '9') {
        return None;
    }
    let mut acc: u64 = 0;
    let mut i: usize = 0;
    while i < n && '0' <= cs[i] && cs[i] <= '9'
        invariant
            n == cs@.len(),
            cs@ == v@,
            i <= n,
            acc <= LENGTH_CAP,
            dec_prefix(cs@, i as int, acc) == dec_prefix(cs@, 0, 0),
        decreases n - i,
    {
        let d = (cs[i] as u32 - '0' as u32) as u64;
        let x = acc * 10 + d;
        acc = if x > LENGTH_CAP { LENGTH_CAP } else { x };
        i = i + 1;
    }
    Some(acc)
}

pub open spec fn hex_value(c: char) -> Option<u8> {
    if '0' <= c && c <= '9' {
        Some((c as u32 - '0' as u32) as u8)
    } else if 'a' <= c && c <= 'f' {
        Some((c as u32 - 'a' as u32 + 10) as u8)
    } else if 'A' <= c && c <= 'F' {
        Some((c as u32 - 'A' as u32 + 10) as u8)
    } else {
        None
    }
}

pub open spec fn all_hex(v: Seq<char>) -> bool {
    forall|i: int| 1 <= i < v.len() ==> (#[trigger] hex_value(v[i])) is Some
}

pub open spec fn hex_at(v: Seq<char>, i: int) -> u8 {
    hex_value(v[i])->0
}

/// The color a `#rrggbb` or `#rgb` value names; other values name none.
pub open spec fn parse_color(v: Seq<char>) -> Option<Color> {
    if v.len() == 7 && v[0] == '#' && all_hex(v) {
        Some(
            Color {
                r: (hex_at(v, 1) * 16 + hex_at(v, 2)) as u8,
                g: (hex_at(v, 3) * 16 + hex_at(v, 4)) as u8,
                b: (hex_at(v, 5) * 16 + hex_at(v, 6)) as u8,
            },
        )
    } else if v.len() == 4 && v[0] == '#' && all_hex(v) {
        Some(
            Color {
                r: (hex_at(v, 1) * 17) as u8,
                g: (hex_at(v, 2) * 17) as u8,
                b: (hex_at(v, 3) * 17) as u8,
            },
        )
    } else {
        None
    }
}

fn hex_digit(c: char) -> (r: Option<u8>)
    ensures
        r == hex_value(c),
{
    if '0' <= c && c <= '9' {
        Some((c as u32 - '0' as u32) as u8)
    } else if 'a' <= c && c <= 'f' {
        Some((c as u32 - 'a' as u32 + 10) as u8)
    } else if 'A' <= c && c <= 'F' {
        Some((c as u32 - 'A' as u32 + 10) as u8)
    } else {
        None
    }
}

/// Decodes a `#rrggbb` or `#rgb` color.
pub fn color_from(v: &str) -> (r: Option<Color>)
    ensures
        r == parse_color(v@),
{
    let cs = chars_of(v);
    let n = cs.len();
    if !(n == 7 || n == 4) || cs[0] != '#' {
        return None;
    }
    let mut hs: Vec<u8> = Vec::new();
    let mut i: usize = 1;
    while i < n
        invariant
            n == cs@.len(),
            cs@ == v@,
            n == 7 || n == 4,
            1 <= i <= n,
            hs@.len() == i - 1,
            forall|k: int| 1 <= k < i ==> (#[trigger] hex_value(cs@[k])) is Some && hs@[k - 1]
                == hex_value(cs@[k])->0,
        decreases n - i,
    {
        match hex_digit(cs[i]) {
            Some(h) => {
                hs.push(h);
            },
            None => {
                return None;
            },
        }
        i = i + 1;
    }
    assert(hs@[0] == hex_at(v@, 1));
    assert(hs@[1] == hex_at(v@, 2));
    assert(hs@[2] == hex_at(v@, 3));
    if n == 7 {
        assert(hs@[3] == hex_at(v@, 4));
        assert(hs@[4] == hex_at(v@, 5));
        assert(hs@[5] == hex_at(v@, 6));
        Some(Color { r: hs[0] * 16 + hs[1], g: hs[2] * 16 + hs[3], b: hs[4] * 16 + hs[5] })
    } else {
        Some(Color { r: hs[0] * 17, g: hs[1] * 17, b: hs[2] * 17 })
    }
}

} // verus!
