//! Background colours as they are written on the command line.
use vstd::prelude::*;
use vstd::utf8::{encode_utf8, is_continuation_byte};

use crate::raster::Rgba;

verus! {

/// Whether `c` is white space, as Unicode has it.
pub open spec fn white_space(c: char) -> bool {
    let u = c as u32;
    ||| 0x9 <= u <= 0xd
    ||| u == 0x20
    ||| u == 0x85
    ||| u == 0xa0
    ||| u == 0x1680
    ||| 0x2000 <= u <= 0x200a
    ||| u == 0x2028
    ||| u == 0x2029
    ||| u == 0x202f
    ||| u == 0x205f
    ||| u == 0x3000
}

/// Tells whether `c` is white space, as Unicode has it.
pub fn is_white_space(c: char) -> (yes: bool)
    ensures
        yes == white_space(c),
{
    let u: u32 = c as u32;
    0x9 <= u && u <= 0xd || u == 0x20 || u == 0x85 || u == 0xa0 || u == 0x1680 || 0x2000 <= u && u
        <= 0x200a || u == 0x2028 || u == 0x2029 || u == 0x202f || u == 0x205f || u == 0x3000
}

/// `s` without the white space in front.
pub open spec fn trimmed_front(s: Seq<char>) -> Seq<char>
    decreases s.len(),
{
    if s.len() > 0 && white_space(s[0]) {
        trimmed_front(s.drop_first())
    } else {
        s
    }
}

/// `s` without the white space at the end.
pub open spec fn trimmed_back(s: Seq<char>) -> Seq<char>
    decreases s.len(),
{
    if s.len() > 0 && white_space(s.last()) {
        trimmed_back(s.drop_last())
    } else {
        s
    }
}

/// `s` without the white space around it.
pub open spec fn trimmed(s: Seq<char>) -> Seq<char> {
    trimmed_back(trimmed_front(s))
}

/// Takes the white space around `s` away.
pub fn trim(s: &str) -> (res: &str)
    ensures
        res@ == trimmed(s@),
{
    let len: usize = s.unicode_len();
    let mut start: usize = 0;
    assert(s@.skip(0) =~= s@);
    while start < len && is_white_space(s.get_char(start))
        invariant
            len == s@.len(),
            start <= len,
            trimmed_front(s@) == trimmed_front(s@.skip(start as int)),
        decreases len - start,
    {
        assert(s@.skip(start as int).drop_first() =~= s@.skip(start + 1));
        start = start + 1;
    }
    let ghost front = s@.skip(start as int);
    assert(trimmed_front(s@) == front);
    let mut end: usize = len;
    assert(s@.subrange(start as int, end as int) =~= front);
    while start < end && is_white_space(s.get_char(end - 1))
        invariant
            len == s@.len(),
            start <= end <= len,
            trimmed_back(front) == trimmed_back(s@.subrange(start as int, end as int)),
        decreases end,
    {
        let ghost rest = s@.subrange(start as int, end as int);
        assert(rest.last() == s@[end - 1]);
        assert(rest.drop_last() =~= s@.subrange(start as int, end - 1));
        end = end - 1;
    }
    s.substring_char(start, end)
}

/// `c` with an ASCII capital made small.
pub open spec fn ascii_small(c: char) -> char {
    if 'A' <= c <= 'Z' {
        (c as u32 + 32) as char
    } else {
        c
    }
}

/// Whether `a` and `b` are the same but for ASCII capitals.
pub open spec fn same_but_case(a: Seq<char>, b: Seq<char>) -> bool {
    &&& a.len() == b.len()
    &&& forall|i: int| 0 <= i < a.len() ==> ascii_small(#[trigger] a[i]) == ascii_small(b[i])
}

/// The code of `c` with an ASCII capital made small.
fn small_code(c: char) -> (u: u32)
    ensures
        u == ascii_small(c) as u32,
{
    let u: u32 = c as u32;
    if 0x41 <= u && u <= 0x5a {
        u + 32
    } else {
        u
    }
}

/// Tells whether `a` and `b` are the same but for ASCII capitals.
pub fn equal_but_case(a: &str, b: &str) -> (yes: bool)
    ensures
        yes == same_but_case(a@, b@),
{
    let len: usize = a.unicode_len();
    if len != b.unicode_len() {
        return false;
    }
    let mut i: usize = 0;
    while i < len
        invariant
            len == a@.len(),
            len == b@.len(),
            i <= len,
            forall|j: int| 0 <= j < i ==> ascii_small(#[trigger] a@[j]) == ascii_small(b@[j]),
        decreases len - i,
    {
        if small_code(a.get_char(i)) != small_code(b.get_char(i)) {
            assert(ascii_small(a@[i as int]) != ascii_small(b@[i as int]));
            return false;
        }
        i = i + 1;
    }
    true
}

/// The value of a byte as a hexadecimal digit.
pub open spec fn hex_value(b: u8) -> Option<u8> {
    if 0x30 <= b <= 0x39 {
        Some((b - 0x30) as u8)
    } else if 0x61 <= b <= 0x66 {
        Some((b - 0x61 + 10) as u8)
    } else if 0x41 <= b <= 0x46 {
        Some((b - 0x41 + 10) as u8)
    } else {
        None
    }
}

/// The value of a byte as a hexadecimal digit.
fn hex_digit(b: u8) -> (value: Option<u8>)
    ensures
        value == hex_value(b),
        value matches Some(v) ==> v < 16,
{
    if 0x30 <= b && b <= 0x39 {
        Some(b - 0x30)
    } else if 0x61 <= b && b <= 0x66 {
        Some(b - 0x61 + 10)
    } else if 0x41 <= b && b <= 0x46 {
        Some(b - 0x41 + 10)
    } else {
        None
    }
}

/// The number that two bytes write in base sixteen: two digits, or a plus sign and a digit. Other
/// bytes count as 0.
pub open spec fn channel_value(high: u8, low: u8) -> u8 {
    match (hex_value(high), hex_value(low)) {
        (Some(h), Some(l)) => (16 * h + l) as u8,
        (None, Some(l)) => if high == 0x2b {
            l
        } else {
            0
        },
        _ => 0,
    }
}

/// Reads a colour channel from two bytes: two hexadecimal digits, or a plus sign and a digit.
/// Other bytes count as 0.
pub fn read_channel(high: u8, low: u8) -> (value: u8)
    ensures
        value == channel_value(high, low),
{
    match (hex_digit(high), hex_digit(low)) {
        (Some(h), Some(l)) => 16 * h + l,
        (None, Some(l)) => if high == 0x2b {
            l
        } else {
            0
        },
        _ => 0,
    }
}

/// A background colour, and whether it was written in a form that is understood.
#[derive(Clone, Copy, Debug, PartialEq, Eq)]
pub struct ParsedColor {
    /// The colour: transparent black where the form was not understood.
    pub color: Rgba,
    /// Whether the form was understood.
    pub recognized: bool,
}

/// Whether `t` asks for a transparent background.
pub open spec fn asks_for_transparent(t: Seq<char>) -> bool {
    same_but_case(t, "transparent"@) || t.len() == 0
}

/// `t` without one `#` in front.
pub open spec fn without_hash(t: Seq<char>) -> Seq<char> {
    if t.len() > 0 && t[0] == '#' {
        t.drop_first()
    } else {
        t
    }
}

/// The UTF-8 bytes in which the digits of a colour are looked for.
pub open spec fn digit_bytes(s: Seq<char>) -> Seq<u8> {
    encode_utf8(without_hash(trimmed(s)))
}

/// The colour that `s` stands for.
pub open spec fn color_of(s: Seq<char>) -> ParsedColor {
    let b = digit_bytes(s);
    if asks_for_transparent(trimmed(s)) {
        ParsedColor { color: (0, 0, 0, 0), recognized: true }
    } else if b.len() == 6 {
        ParsedColor {
            color: (
                channel_value(b[0], b[1]),
                channel_value(b[2], b[3]),
                channel_value(b[4], b[5]),
                255,
            ),
            recognized: true,
        }
    } else {
        ParsedColor { color: (0, 0, 0, 0), recognized: false }
    }
}

/// Whether six bytes of digits can be cut into three pairs without cutting a character in two.
pub open spec fn splits_into_pairs(s: Seq<char>) -> bool {
    let b = digit_bytes(s);
    !asks_for_transparent(trimmed(s)) && b.len() == 6 ==> !is_continuation_byte(b[2])
        && !is_continuation_byte(b[4])
}

/// Takes one `#` in front of `t` away.
fn strip_hash(t: &str) -> (res: &str)
    ensures
        res@ == without_hash(t@),
{
    let len: usize = t.unicode_len();
    if len > 0 && t.get_char(0) == '#' {
        assert(t@.subrange(1, len as int) =~= t@.drop_first());
        t.substring_char(1, len)
    } else {
        t
    }
}

/// Tells whether [`parse_color`] can be called.
pub fn can_parse_color(s: &str) -> (yes: bool)
    ensures
        yes == splits_into_pairs(s@),
{
    let t = trim(s);
    if equal_but_case(t, "transparent") || t.is_empty() {
        return true;
    }
    let b = strip_hash(t).as_bytes();
    b.len() != 6 || !(0x80 <= b[2] && b[2] <= 0xbf) && !(0x80 <= b[4] && b[4] <= 0xbf)
}

/// Parses a colour. Accepts "transparent", an empty string, or a 6-digit hex code, with or without
/// a `#`, and white space around each.
pub fn parse_color(s: &str) -> (parsed: ParsedColor)
    requires
        splits_into_pairs(s@),
    ensures
        parsed == color_of(s@),
{
    let t = trim(s);
    if equal_but_case(t, "transparent") || t.is_empty() {
        return ParsedColor { color: (0, 0, 0, 0), recognized: true };
    }
    let b = strip_hash(t).as_bytes();
    if b.len() == 6 {
        let red: u8 = read_channel(b[0], b[1]);
        let green: u8 = read_channel(b[2], b[3]);
        let blue: u8 = read_channel(b[4], b[5]);
        ParsedColor { color: (red, green, blue, 255), recognized: true }
    } else {
        ParsedColor { color: (0, 0, 0, 0), recognized: false }
    }
}

} // verus!
