//! What the texts that are read and written mean: colours, numbers and paths.
use vstd::prelude::*;
use vstd::utf8::{
    encode_scalar, encode_utf8, encode_utf8_first_scalar, is_ascii_chars,
    is_ascii_chars_encode_utf8, is_continuation_byte,
};

use crate::color::{
    channel_value, color_of, digit_bytes, same_but_case, splits_into_pairs,
    trimmed, trimmed_back, trimmed_front, white_space, without_hash,
};
use crate::decimal::decimal;
use crate::encode::OutputFormat;
use crate::laws::{hex_char, lemma_trimmed_back_of_space, lemma_trimmed_front_of_space};
use crate::plan::path_of;

verus! {

/// The number that a row of decimal digits stands for, read from left to right.
pub open spec fn number_read(digits: Seq<char>) -> int
    decreases digits.len(),
{
    if digits.len() == 0 {
        0
    } else {
        10 * number_read(digits.drop_last()) + (digits.last() as int - '0' as int)
    }
}

/// Whether a text is a number in decimal, without leading zeros.
pub open spec fn is_number(text: Seq<char>) -> bool {
    &&& text.len() > 0
    &&& forall|i: int| 0 <= i < text.len() ==> '0' <= #[trigger] text[i] <= '9'
    &&& text.len() > 1 ==> text[0] != '0'
}

/// The decimal text of a number is read back as that number.
pub proof fn law_decimal_text_is_read_back(n: nat)
    ensures
        is_number(decimal(n)),
        number_read(decimal(n)) == n,
    decreases n,
{
    if n >= 10 {
        let front = decimal(n / 10);
        law_decimal_text_is_read_back(n / 10);
        assert(decimal(n).drop_last() =~= front);
        assert(decimal(n)[0] == front[0]);
        assert forall|i: int| 0 <= i < decimal(n).len() implies '0' <= #[trigger] decimal(n)[i]
            <= '9' by {
            if i < front.len() {
                assert(decimal(n)[i] == front[i]);
            }
        }
        if n / 10 < 10 {
            assert(front[0] != '0');
        } else {
            law_decimal_text_is_read_back(n / 10 / 10);
            assert(front.len() > 1);
        }
    } else {
        assert(decimal(n).drop_last() =~= Seq::empty());
        assert(number_read(Seq::empty()) == 0);
    }
}

/// A tile is found under its zoom level, column and row: the directories read as the level and the
/// column, what stands before the first `.` of the file name reads as the row, and what stands behind
/// it names the format. The place of the `.` is returned.
pub proof fn law_paths_are_read_back(zoom: u32, x: u32, y: u32, format: OutputFormat) -> (dot: int)
    ensures
        is_number(path_of(zoom, x, y, format).0),
        number_read(path_of(zoom, x, y, format).0) == zoom,
        is_number(path_of(zoom, x, y, format).1),
        number_read(path_of(zoom, x, y, format).1) == x,
        0 <= dot < path_of(zoom, x, y, format).2.len(),
        path_of(zoom, x, y, format).2[dot] == '.',
        forall|i: int| 0 <= i < dot ==> #[trigger] path_of(zoom, x, y, format).2[i] != '.',
        is_number(path_of(zoom, x, y, format).2.take(dot)),
        number_read(path_of(zoom, x, y, format).2.take(dot)) == y,
        path_of(zoom, x, y, format).2.skip(dot + 1) == match format {
            OutputFormat::Webp => "webp"@,
            OutputFormat::Jpg => "jpg"@,
            OutputFormat::Avif => "avif"@,
        },
{
    law_decimal_text_is_read_back(zoom as nat);
    law_decimal_text_is_read_back(x as nat);
    law_decimal_text_is_read_back(y as nat);
    let name = path_of(zoom, x, y, format).2;
    let row = decimal(y as nat);
    let dot = row.len() as int;
    assert(name.take(dot) =~= row);
    assert forall|i: int| 0 <= i < dot implies #[trigger] name[i] != '.' by {
        assert(name[i] == row[i]);
    }
    assert(name.skip(dot + 1) =~= match format {
        OutputFormat::Webp => "webp"@,
        OutputFormat::Jpg => "jpg"@,
        OutputFormat::Avif => "avif"@,
    });
    dot
}

/// Texts are the same but for capitals where each character is the same, or the two are one letter
/// from `a` to `z` in its two forms.
pub proof fn law_same_but_case_is_about_ascii_letters(a: Seq<char>, b: Seq<char>)
    ensures
        same_but_case(a, b) <==> a.len() == b.len() && forall|i: int|
            0 <= i < a.len() ==> (#[trigger] a[i] == b[i] || 'A' <= a[i] <= 'Z' && b[i] as u32
                == a[i] as u32 + 32 || 'A' <= b[i] <= 'Z' && a[i] as u32 == b[i] as u32 + 32),
{
}

/// Trimming takes all white space around a text away, and nothing else.
pub proof fn law_trimming_takes_white_space_away(
    before: Seq<char>,
    core: Seq<char>,
    after: Seq<char>,
)
    requires
        forall|i: int| 0 <= i < before.len() ==> white_space(#[trigger] before[i]),
        forall|i: int| 0 <= i < after.len() ==> white_space(#[trigger] after[i]),
        core.len() > 0 ==> !white_space(core[0]) && !white_space(core.last()),
    ensures
        trimmed(before + core + after) == core,
{
    assert(before + core + after =~= before + (core + after));
    lemma_trimmed_front_of_space(before, core + after);
    if core.len() > 0 {
        lemma_trimmed_back_of_space(core, after);
    } else {
        assert(core + after =~= after);
        assert(after + Seq::<char>::empty() =~= after);
        lemma_trimmed_front_of_space(after, Seq::empty());
        assert(trimmed(before + core + after) =~= core);
    }
}

/// Whether a byte is the character of a hexadecimal digit.
pub open spec fn is_hex_digit(b: u8) -> bool {
    exists|d: int, capitals: bool| 0 <= d < 16 && b == #[trigger] hex_char(d, capitals) as u8
}

/// Two hexadecimal digits, in capitals or not, stand for a channel.
pub proof fn law_two_digits_are_a_channel(high: int, low: int, capitals1: bool, capitals2: bool)
    requires
        0 <= high < 16,
        0 <= low < 16,
    ensures
        channel_value(hex_char(high, capitals1) as u8, hex_char(low, capitals2) as u8) == 16 * high
            + low,
{
}

/// A plus sign and a digit stand for the digit, and all other bytes that are not two digits for 0.
pub proof fn law_other_bytes_are_no_channel(high: u8, low: u8)
    ensures
        !is_hex_digit(low) ==> channel_value(high, low) == 0,
        !is_hex_digit(high) && high != 0x2b ==> channel_value(high, low) == 0,
        high == 0x2b ==> forall|d: int, capitals: bool|
            0 <= d < 16 && low == #[trigger] hex_char(d, capitals) as u8 ==> channel_value(high, low)
                == d,
{
    lemma_hex_digits(low);
    lemma_hex_digits(high);
}

proof fn lemma_hex_digits(b: u8)
    ensures
        0x30 <= b <= 0x39 || 0x41 <= b <= 0x46 || 0x61 <= b <= 0x66 ==> is_hex_digit(b),
{
    if 0x30 <= b <= 0x39 {
        assert(b == hex_char(b - 0x30, false) as u8);
    } else if 0x41 <= b <= 0x46 {
        assert(b == hex_char(b - 0x41 + 10, true) as u8);
    } else if 0x61 <= b <= 0x66 {
        assert(b == hex_char(b - 0x61 + 10, false) as u8);
    }
}

/// What a text between white space means: nothing and "transparent", in capitals or not, ask for a
/// transparent background; six bytes, one `#` in front not counted, are the channels of an opaque
/// colour; all else is not understood.
pub proof fn law_what_a_text_means(before: Seq<char>, core: Seq<char>, after: Seq<char>)
    requires
        forall|i: int| 0 <= i < before.len() ==> white_space(#[trigger] before[i]),
        forall|i: int| 0 <= i < after.len() ==> white_space(#[trigger] after[i]),
        core.len() > 0 ==> !white_space(core[0]) && !white_space(core.last()),
    ensures
        ({
            let parsed = color_of(before + core + after);
            let b = encode_utf8(
                if core.len() > 0 && core[0] == '#' {
                    core.skip(1)
                } else {
                    core
                },
            );
            if core.len() == 0 || same_but_case(core, "transparent"@) {
                parsed.color == (0u8, 0u8, 0u8, 0u8) && parsed.recognized
            } else if b.len() == 6 {
                &&& parsed.color.0 == channel_value(b[0], b[1])
                &&& parsed.color.1 == channel_value(b[2], b[3])
                &&& parsed.color.2 == channel_value(b[4], b[5])
                &&& parsed.color.3 == 255
                &&& parsed.recognized
            } else {
                parsed.color == (0u8, 0u8, 0u8, 0u8) && !parsed.recognized
            }
        }),
{
    law_trimming_takes_white_space_away(before, core, after);
    lemma_hash_is_skipped(core);
}

proof fn lemma_hash_is_skipped(core: Seq<char>)
    ensures
        without_hash(core) == if core.len() > 0 && core[0] == '#' {
            core.skip(1)
        } else {
            core
        },
{
    if core.len() > 0 {
        assert(core.drop_first() =~= core.skip(1));
    }
}

/// Every text of ASCII characters can be parsed.
pub proof fn law_ascii_texts_can_be_parsed(s: Seq<char>)
    requires
        is_ascii_chars(s),
    ensures
        splits_into_pairs(s),
{
    lemma_trimmed_is_part(s);
    let t = without_hash(trimmed(s));
    assert forall|i: int| 0 <= i < t.len() implies '\0' <= #[trigger] t[i] <= '\u{7f}' by {
        if t.len() < trimmed(s).len() {
            assert(t[i] == trimmed(s)[i + 1]);
        }
        assert(trimmed(s).contains(t[i]));
        assert(s.contains(t[i]));
        let j = choose|j: int| 0 <= j < s.len() && s[j] == t[i];
        assert('\0' <= s[j] <= '\u{7f}');
    }
    assert(is_ascii_chars(t));
    is_ascii_chars_encode_utf8(t);
    if t.len() == 6 {
        assert(t[2] as u8 == digit_bytes(s)[2] && t[4] as u8 == digit_bytes(s)[4]);
    }
}

/// Trimming leaves characters of the text only.
proof fn lemma_trimmed_is_part(s: Seq<char>)
    ensures
        forall|i: int| 0 <= i < trimmed(s).len() ==> s.contains(#[trigger] trimmed(s)[i]),
{
    lemma_front_is_part(s);
    lemma_back_is_part(trimmed_front(s));
    assert forall|i: int| 0 <= i < trimmed(s).len() implies s.contains(#[trigger] trimmed(s)[i]) by {
        let c = trimmed(s)[i];
        assert(trimmed_front(s).contains(c));
        let j = choose|j: int| 0 <= j < trimmed_front(s).len() && trimmed_front(s)[j] == c;
        assert(s.contains(trimmed_front(s)[j]));
    }
}

proof fn lemma_front_is_part(s: Seq<char>)
    ensures
        forall|i: int| 0 <= i < trimmed_front(s).len() ==> s.contains(#[trigger] trimmed_front(s)[i]),
    decreases s.len(),
{
    if s.len() > 0 && white_space(s[0]) {
        let p = s.drop_first();
        lemma_front_is_part(p);
        assert forall|i: int| 0 <= i < trimmed_front(s).len() implies s.contains(
            #[trigger] trimmed_front(s)[i],
        ) by {
            let c = trimmed_front(p)[i];
            assert(p.contains(c));
            let j = choose|j: int| 0 <= j < p.len() && p[j] == c;
            assert(s[j + 1] == c);
        }
    }
}

proof fn lemma_back_is_part(s: Seq<char>)
    ensures
        forall|i: int| 0 <= i < trimmed_back(s).len() ==> s.contains(#[trigger] trimmed_back(s)[i]),
    decreases s.len(),
{
    if s.len() > 0 && white_space(s.last()) {
        let p = s.drop_last();
        lemma_back_is_part(p);
        assert forall|i: int| 0 <= i < trimmed_back(s).len() implies s.contains(
            #[trigger] trimmed_back(s)[i],
        ) by {
            let c = trimmed_back(p)[i];
            assert(p.contains(c));
            let j = choose|j: int| 0 <= j < p.len() && p[j] == c;
            assert(s[j] == c);
        }
    }
}

/// A text between white space can be parsed where it asks for a transparent background, where it
/// does not have the six bytes of a colour, and where its characters are three pairs of bytes.
pub proof fn law_texts_of_three_pairs_can_be_parsed(
    before: Seq<char>,
    core: Seq<char>,
    after: Seq<char>,
    a: Seq<char>,
    b: Seq<char>,
    c: Seq<char>,
)
    requires
        forall|i: int| 0 <= i < before.len() ==> white_space(#[trigger] before[i]),
        forall|i: int| 0 <= i < after.len() ==> white_space(#[trigger] after[i]),
        core.len() > 0 ==> !white_space(core[0]) && !white_space(core.last()),
        ({
            let t = if core.len() > 0 && core[0] == '#' {
                core.skip(1)
            } else {
                core
            };
            ||| core.len() == 0
            ||| same_but_case(core, "transparent"@)
            ||| encode_utf8(t).len() != 6
            ||| t == a + b + c && encode_utf8(a).len() == 2 && encode_utf8(b).len() == 2
                && encode_utf8(c).len() == 2
        }),
    ensures
        splits_into_pairs(before + core + after),
{
    law_trimming_takes_white_space_away(before, core, after);
    lemma_hash_is_skipped(core);
    let t = without_hash(core);
    if t == a + b + c && encode_utf8(a).len() == 2 && encode_utf8(b).len() == 2 && encode_utf8(
        c,
    ).len() == 2 {
        lemma_bytes_of_joined_texts(a + b, c);
        lemma_bytes_of_joined_texts(a, b);
        lemma_first_byte(b);
        lemma_first_byte(c);
        let e = encode_utf8(t);
        assert(e[2] == encode_utf8(b)[0]);
        assert(e[4] == encode_utf8(c)[0]);
    }
}

/// Six bytes of digits cannot be parsed where a character lies across the end of the first or of the
/// second pair.
pub proof fn law_characters_across_pairs_cannot_be_parsed(
    before: Seq<char>,
    core: Seq<char>,
    after: Seq<char>,
    front: Seq<char>,
    c: char,
    back: Seq<char>,
    cut: int,
)
    requires
        forall|i: int| 0 <= i < before.len() ==> white_space(#[trigger] before[i]),
        forall|i: int| 0 <= i < after.len() ==> white_space(#[trigger] after[i]),
        core.len() > 0,
        !white_space(core[0]),
        !white_space(core.last()),
        !same_but_case(core, "transparent"@),
        front + seq![c] + back == if core[0] == '#' {
            core.skip(1)
        } else {
            core
        },
        encode_utf8(front + seq![c] + back).len() == 6,
        cut == 2 || cut == 4,
        encode_utf8(front).len() < cut < encode_utf8(front).len() + encode_utf8(seq![c]).len(),
    ensures
        !splits_into_pairs(before + core + after),
{
    law_trimming_takes_white_space_away(before, core, after);
    lemma_hash_is_skipped(core);
    lemma_bytes_of_joined_texts(front + seq![c], back);
    lemma_bytes_of_joined_texts(front, seq![c]);
    encode_utf8_first_scalar(seq![c]);
    let one = encode_utf8(seq![c]);
    assert(encode_utf8(seq![c].drop_first()).len() == 0);
    assert(seq![c][0] == c);
    assert(one =~= encode_scalar(c as u32));
    let i = cut - encode_utf8(front).len();
    assert(is_continuation_byte(one[i]));
    assert(digit_bytes(before + core + after)[cut] == one[i]);
}

/// The bytes of two texts put together are those of the one, then those of the other.
proof fn lemma_bytes_of_joined_texts(a: Seq<char>, b: Seq<char>)
    ensures
        encode_utf8(a + b) == encode_utf8(a) + encode_utf8(b),
    decreases a.len(),
{
    if a.len() == 0 {
        assert(a + b =~= b);
        assert(encode_utf8(a) + encode_utf8(b) =~= encode_utf8(b));
    } else {
        assert((a + b).drop_first() =~= a.drop_first() + b);
        lemma_bytes_of_joined_texts(a.drop_first(), b);
        assert(encode_utf8(a + b) =~= encode_utf8(a) + encode_utf8(b));
    }
}

/// The first byte of a text begins a character.
proof fn lemma_first_byte(s: Seq<char>)
    requires
        encode_utf8(s).len() > 0,
    ensures
        !(0x80 <= encode_utf8(s)[0] <= 0xbf),
{
    assert(s.len() > 0);
    encode_utf8_first_scalar(s);
}

/// The six digits of a colour, each in capitals or not.
pub open spec fn six_digits(r: u8, g: u8, b: u8, capitals: spec_fn(int) -> bool) -> Seq<char> {
    seq![
        hex_char(r as int / 16, capitals(0)),
        hex_char(r as int % 16, capitals(1)),
        hex_char(g as int / 16, capitals(2)),
        hex_char(g as int % 16, capitals(3)),
        hex_char(b as int / 16, capitals(4)),
        hex_char(b as int % 16, capitals(5)),
    ]
}

/// A hex code of six digits, each in capitals or not, with or without a `#` in front and with white
/// space around it, can be parsed and is read as its colour.
pub proof fn law_hex_codes_can_be_parsed(
    before: Seq<char>,
    hash: bool,
    r: u8,
    g: u8,
    b: u8,
    capitals: spec_fn(int) -> bool,
    after: Seq<char>,
)
    requires
        forall|i: int| 0 <= i < before.len() ==> white_space(#[trigger] before[i]),
        forall|i: int| 0 <= i < after.len() ==> white_space(#[trigger] after[i]),
    ensures
        ({
            let digits = six_digits(r, g, b, capitals);
            let core = if hash {
                seq!['#'] + digits
            } else {
                digits
            };
            let s = before + core + after;
            &&& splits_into_pairs(s)
            &&& color_of(s).color == (r, g, b, 255u8)
            &&& color_of(s).recognized
        }),
{
    let digits = six_digits(r, g, b, capitals);
    let core = if hash {
        seq!['#'] + digits
    } else {
        digits
    };
    reveal_strlit("transparent");
    assert("transparent"@.len() == 11);
    assert(is_ascii_chars(digits));
    is_ascii_chars_encode_utf8(digits);
    let e = encode_utf8(digits);
    assert(forall|i: int| 0 <= i < 6 ==> e[i] == #[trigger] digits[i] as u8);
    if hash {
        assert(core.skip(1) =~= digits);
    }
    law_what_a_text_means(before, core, after);
    law_trimming_takes_white_space_away(before, core, after);
    lemma_hash_is_skipped(core);
    assert(digit_bytes(before + core + after) == e);
    assert(digits[2] as u8 == e[2] && digits[4] as u8 == e[4]);
    law_two_digits_are_a_channel(r as int / 16, r as int % 16, capitals(0), capitals(1));
    law_two_digits_are_a_channel(g as int / 16, g as int % 16, capitals(2), capitals(3));
    law_two_digits_are_a_channel(b as int / 16, b as int % 16, capitals(4), capitals(5));
    assert(e[0] == digits[0] as u8 && e[1] == digits[1] as u8 && e[3] == digits[3] as u8 && e[5]
        == digits[5] as u8);
}

} // verus!
