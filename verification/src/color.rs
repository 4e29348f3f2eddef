//! Colours as the colour picker reads and writes them: `#rgb`, `#rgba`,
//! `#rrggbb` and `#rrggbbaa` in, `#rrggbb` or `#rrggbbaa` out.
use vstd::prelude::*;
use vstd::string::StrSliceExecFns;
use vstd::utf8::{encode_utf8, is_ascii_chars, is_ascii_chars_encode_utf8};
use crate::text::{chars_of, is_white_space, is_whitespace, push_all};

verus! {

/// A colour with 8-bit channels. The opacity is kept as its byte: `alpha`
/// stands for the fraction `alpha / 255`, so 255 is fully opaque.
#[derive(Debug, Clone, Copy, PartialEq, Eq, Structural)]
pub struct RgbColor {
    pub r: u8,
    pub g: u8,
    pub b: u8,
    pub alpha: u8,
}

/// The blue the picker falls back to for text it cannot read.
pub open spec fn fallback_color() -> RgbColor {
    RgbColor { r: 59, g: 130, b: 246, alpha: 255 }
}

/// The value of one hexadecimal digit byte, either case.
pub open spec fn hex_value(c: u8) -> Option<u8> {
    if 48 <= c && c <= 57 {
        Some((c - 48) as u8)
    } else if 97 <= c && c <= 102 {
        Some((c - 97 + 10) as u8)
    } else if 65 <= c && c <= 70 {
        Some((c - 65 + 10) as u8)
    } else {
        None
    }
}

/// Reads one hexadecimal digit byte.
pub fn parse_hex_component(c: u8) -> (r: Option<u8>)
    ensures
        r == hex_value(c),
        r matches Some(v) ==> v < 16,
{
    if 48 <= c && c <= 57 {
        Some(c - 48)
    } else if 97 <= c && c <= 102 {
        Some(c - 97 + 10)
    } else if 65 <= c && c <= 70 {
        Some(c - 65 + 10)
    } else {
        None
    }
}

pub open spec fn nibble_or(c: u8, default: u8) -> u8 {
    match hex_value(c) {
        Some(v) => v,
        None => default,
    }
}

/// The colour spelt by the bytes after `#`: three or four digits (each
/// doubled), or six or more (read in pairs, the fourth pair being the
/// opacity); anything else is the fallback. Unreadable digits count as 0,
/// or as `f` in the opacity.
pub open spec fn parse_hex_bytes(b: Seq<u8>) -> RgbColor {
    if b.len() == 3 || b.len() == 4 {
        RgbColor {
            r: (nibble_or(b[0], 0) * 17) as u8,
            g: (nibble_or(b[1], 0) * 17) as u8,
            b: (nibble_or(b[2], 0) * 17) as u8,
            alpha: if b.len() == 4 {
                (nibble_or(b[3], 15) * 17) as u8
            } else {
                255
            },
        }
    } else if b.len() >= 6 {
        RgbColor {
            r: (nibble_or(b[0], 0) * 16 + nibble_or(b[1], 0)) as u8,
            g: (nibble_or(b[2], 0) * 16 + nibble_or(b[3], 0)) as u8,
            b: (nibble_or(b[4], 0) * 16 + nibble_or(b[5], 0)) as u8,
            alpha: if b.len() >= 8 {
                (nibble_or(b[6], 15) * 16 + nibble_or(b[7], 15)) as u8
            } else {
                255
            },
        }
    } else {
        fallback_color()
    }
}

/// `s` without leading white space.
pub open spec fn strip_front(s: Seq<char>) -> Seq<char>
    decreases s.len(),
{
    if s.len() > 0 && is_white_space(s[0]) {
        strip_front(s.drop_first())
    } else {
        s
    }
}

/// `s` without trailing white space.
pub open spec fn strip_back(s: Seq<char>) -> Seq<char>
    decreases s.len(),
{
    if s.len() > 0 && is_white_space(s.last()) {
        strip_back(s.drop_last())
    } else {
        s
    }
}

/// `s` without white space at either end, as `str::trim` leaves it.
pub open spec fn trimmed(s: Seq<char>) -> Seq<char> {
    strip_back(strip_front(s))
}

/// What the picker makes of a colour text: after trimming, a `#` and the
/// UTF-8 bytes after it; anything else is the fallback blue.
pub open spec fn parse_color_spec(s: Seq<char>) -> RgbColor {
    let t = trimmed(s);
    if t.len() > 0 && t[0] == '#' {
        parse_hex_bytes(encode_utf8(t.drop_first()))
    } else {
        fallback_color()
    }
}

fn nibble(c: u8, default: u8) -> (v: u8)
    requires
        default <= 15,
    ensures
        v == nibble_or(c, default),
        v <= 15,
{
    match parse_hex_component(c) {
        Some(x) => x,
        None => default,
    }
}

/// Where the text of `v` starts and ends once white space is trimmed from
/// both ends.
pub(crate) fn trim_bounds(v: &Vec<char>) -> (r: (usize, usize))
    ensures
        r.0 <= r.1 <= v@.len(),
        trimmed(v@) == v@.subrange(r.0 as int, r.1 as int),
{
    let n = v.len();
    let mut start: usize = 0;
    assert(v@.subrange(0, n as int) =~= v@);
    while start < n && is_whitespace(v[start])
        invariant
            start <= n,
            n == v@.len(),
            strip_front(v@) == strip_front(v@.subrange(start as int, n as int)),
        decreases n - start,
    {
        assert(v@.subrange(start as int, n as int).drop_first() =~= v@.subrange(
            start + 1,
            n as int,
        ));
        start = start + 1;
    }
    assert(strip_front(v@) == v@.subrange(start as int, n as int));
    let mut end: usize = n;
    while end > start && is_whitespace(v[end - 1])
        invariant
            start <= end <= n,
            n == v@.len(),
            strip_back(v@.subrange(start as int, n as int)) == strip_back(
                v@.subrange(start as int, end as int),
            ),
        decreases end - start,
    {
        assert(v@.subrange(start as int, end as int).drop_last() =~= v@.subrange(
            start as int,
            end - 1,
        ));
        end = end - 1;
    }
    (start, end)
}

/// Reads a colour text as the picker does.
pub fn parse_color(input: &str) -> (c: RgbColor)
    ensures
        c == parse_color_spec(input@),
{
    let v = chars_of(input);
    let (start, end) = trim_bounds(&v);
    let ghost t = v@.subrange(start as int, end as int);
    assert(trimmed(input@) == t);
    if start < end && v[start] == '#' {
        let hex = input.substring_char(start + 1, end);
        assert(hex@ =~= t.drop_first());
        let bytes = hex.as_bytes();
        assert(bytes@ == encode_utf8(t.drop_first()));
        let len = bytes.len();
        if len == 3 || len == 4 {
            let r = nibble(bytes[0], 0);
            let g = nibble(bytes[1], 0);
            let b = nibble(bytes[2], 0);
            let alpha = if len == 4 {
                let a = nibble(bytes[3], 15);
                a * 17
            } else {
                255
            };
            return RgbColor { r: r * 17, g: g * 17, b: b * 17, alpha };
        } else if len >= 6 {
            let r = nibble(bytes[0], 0) * 16
                + nibble(bytes[1], 0);
            let g = nibble(bytes[2], 0) * 16
                + nibble(bytes[3], 0);
            let b = nibble(bytes[4], 0) * 16
                + nibble(bytes[5], 0);
            let alpha = if len >= 8 {
                nibble(bytes[6], 15) * 16
                    + nibble(bytes[7], 15)
            } else {
                255
            };
            return RgbColor { r, g, b, alpha };
        }
    }
    RgbColor { r: 59, g: 130, b: 246, alpha: 255 }
}

/// The lower-case hexadecimal digit for `v < 16`.
pub open spec fn hex_digit(v: u8) -> char {
    if v < 10 {
        (48 + v) as char
    } else {
        (87 + v) as char
    }
}

/// A byte as two lower-case hexadecimal digits, as `{:02x}` writes it.
pub open spec fn hex_pair(v: u8) -> Seq<char> {
    seq![hex_digit(v / 16), hex_digit(v % 16)]
}

/// `#rrggbb` for an opaque colour, `#rrggbbaa` otherwise.
pub open spec fn hex_text(c: RgbColor) -> Seq<char> {
    let base = seq!['#'] + hex_pair(c.r) + hex_pair(c.g) + hex_pair(c.b);
    if c.alpha == 255 {
        base
    } else {
        base + hex_pair(c.alpha)
    }
}

fn hex_digit_of(v: u8) -> (c: char)
    requires
        v < 16,
    ensures
        c == hex_digit(v),
{
    if v < 10 {
        (48 + v) as char
    } else {
        (87 + v) as char
    }
}

fn push_hex_pair(out: &mut Vec<char>, v: u8)
    ensures
        final(out)@ == old(out)@ + hex_pair(v),
{
    out.push(hex_digit_of(v / 16));
    out.push(hex_digit_of(v % 16));
    assert(final(out)@ =~= old(out)@ + hex_pair(v));
}

/// Writes a colour as the picker hands it on.
pub fn rgb_to_hex(rgb: RgbColor) -> (s: String)
    ensures
        s@ == hex_text(rgb),
{
    let mut v: Vec<char> = Vec::new();
    v.push('#');
    push_hex_pair(&mut v, rgb.r);
    push_hex_pair(&mut v, rgb.g);
    push_hex_pair(&mut v, rgb.b);
    if rgb.alpha != 255 {
        push_hex_pair(&mut v, rgb.alpha);
    }
    let mut s = String::new();
    push_all(&mut s, &v);
    assert(s@ =~= hex_text(rgb));
    s
}

/// Writing a colour and reading the text back gives the same colour.
pub proof fn law_hex_round_trip(c: RgbColor)
    ensures
        parse_color_spec(hex_text(c)) == c,
{
    let s = hex_text(c);
    assert(forall|v: u8| v < 16 ==> !is_white_space(#[trigger] hex_digit(v)));
    assert(s[0] == '#');
    assert(!is_white_space(s[0]));
    assert(strip_front(s) == s);
    assert(s.last() == hex_digit(
        (if c.alpha == 255 {
            c.b
        } else {
            c.alpha
        }) % 16,
    ));
    assert(strip_back(s) == s);
    let body = s.drop_first();
    assert(is_ascii_chars(body));
    is_ascii_chars_encode_utf8(body);
    let b = encode_utf8(body);
    assert forall|v: u8| v < 16 implies hex_value(#[trigger] hex_digit(v) as u8) == Some(v) by {
        if v < 10 {
            assert(hex_digit(v) as u8 == 48 + v);
        } else {
            assert(hex_digit(v) as u8 == 87 + v);
        }
    }
    assert forall|v: u8| #[trigger] ((v / 16) * 16 + v % 16) == v by {}
    assert(b[0] == hex_digit(c.r / 16) as u8);
    assert(b[1] == hex_digit(c.r % 16) as u8);
    assert(b[2] == hex_digit(c.g / 16) as u8);
    assert(b[3] == hex_digit(c.g % 16) as u8);
    assert(b[4] == hex_digit(c.b / 16) as u8);
    assert(b[5] == hex_digit(c.b % 16) as u8);
    if c.alpha != 255 {
        assert(b[6] == hex_digit(c.alpha / 16) as u8);
        assert(b[7] == hex_digit(c.alpha % 16) as u8);
    }
}

/// An upper-case hex letter as its lower-case twin; every other byte as it is.
pub open spec fn lower_hex_byte(c: u8) -> u8 {
    if 65 <= c && c <= 70 {
        (c + 32) as u8
    } else {
        c
    }
}

/// Hex digits read the same in either case: `a`..`f` and `A`..`F` are ten
/// to fifteen, `0`..`9` are their own value, and no other byte is a digit.
pub proof fn law_hex_digits_either_case(c: u8)
    ensures
        97 <= c && c <= 102 ==> hex_value(c) == Some((c - 87) as u8) && hex_value((c - 32) as u8) == hex_value(c),
        48 <= c && c <= 57 ==> hex_value(c) == Some((c - 48) as u8),
        hex_value(c) is Some <==> (48 <= c && c <= 57) || (65 <= c && c <= 70) || (97 <= c && c <= 102),
        hex_value(lower_hex_byte(c)) == hex_value(c),
{
}

/// The colour a hex text spells does not depend on the case of its letters:
/// lower-casing its `A`..`F` gives the same colour.
pub proof fn law_hex_case_does_not_matter(b: Seq<u8>)
    ensures
        parse_hex_bytes(b.map_values(|c: u8| lower_hex_byte(c))) == parse_hex_bytes(b),
{
    let l = b.map_values(|c: u8| lower_hex_byte(c));
    assert forall|i: int, d: u8| 0 <= i < b.len() implies #[trigger] nibble_or(l[i], d) == nibble_or(b[i], d) by {
        law_hex_digits_either_case(b[i]);
    }
    if b.len() >= 3 {
        assert(nibble_or(l[0], 0) == nibble_or(b[0], 0));
        assert(nibble_or(l[1], 0) == nibble_or(b[1], 0));
        assert(nibble_or(l[2], 0) == nibble_or(b[2], 0));
    }
    if b.len() >= 4 {
        assert(nibble_or(l[3], 15) == nibble_or(b[3], 15));
    }
    if b.len() >= 6 {
        assert(nibble_or(l[3], 0) == nibble_or(b[3], 0));
        assert(nibble_or(l[4], 0) == nibble_or(b[4], 0));
        assert(nibble_or(l[5], 0) == nibble_or(b[5], 0));
    }
    if b.len() >= 8 {
        assert(nibble_or(l[6], 15) == nibble_or(b[6], 15));
        assert(nibble_or(l[7], 15) == nibble_or(b[7], 15));
    }
}

} // verus!
