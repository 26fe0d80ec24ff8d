use tilegen::color::{
    can_parse_color, equal_but_case, is_white_space, parse_color, read_channel, trim, ParsedColor,
};

fn known(color: (u8, u8, u8, u8)) -> ParsedColor {
    ParsedColor { color, recognized: true }
}

#[test]
fn transparent_and_empty_are_clear() {
    assert_eq!(parse_color("transparent"), known((0, 0, 0, 0)));
    assert_eq!(parse_color("TransParent"), known((0, 0, 0, 0)));
    assert_eq!(parse_color("  transparent\n"), known((0, 0, 0, 0)));
    assert_eq!(parse_color(""), known((0, 0, 0, 0)));
    assert_eq!(parse_color(" \t\u{3000} "), known((0, 0, 0, 0)));
}

#[test]
fn hex_codes_are_opaque() {
    assert_eq!(parse_color("ff00ff"), known((255, 0, 255, 255)));
    assert_eq!(parse_color("#ff00ff"), known((255, 0, 255, 255)));
    assert_eq!(parse_color(" #1A2b3C "), known((0x1a, 0x2b, 0x3c, 255)));
    assert_eq!(parse_color("000000"), known((0, 0, 0, 255)));
}

#[test]
fn other_lengths_are_not_recognized() {
    let unknown = ParsedColor { color: (0, 0, 0, 0), recognized: false };
    assert_eq!(parse_color("fff"), unknown);
    assert_eq!(parse_color("#"), unknown);
    assert_eq!(parse_color("##ff00ff"), unknown);
    assert_eq!(parse_color("ff00ff00"), unknown);
    assert_eq!(parse_color("#transparent"), unknown);
    assert_eq!(parse_color("\u{e9}"), unknown);
}

#[test]
fn pairs_that_are_no_numbers_count_as_zero() {
    assert_eq!(parse_color("zz10zz"), known((0, 16, 0, 255)));
    assert_eq!(parse_color("+f-f+g"), known((15, 0, 0, 255)));
    assert_eq!(parse_color("\u{e9}\u{e9}10"), known((0, 0, 16, 255)));
}

#[test]
fn codes_that_cut_a_character_are_refused() {
    assert!(!can_parse_color("a\u{e9}123"));
    assert!(!can_parse_color("#abc\u{e9}1"));
    assert!(!can_parse_color("\u{20ac}abc"));
    assert!(can_parse_color("\u{e9}\u{e9}\u{e9}"));
    assert!(can_parse_color("ab\u{e9}12"));
    assert!(can_parse_color("ff00ff"));
    assert!(can_parse_color("\u{20ac}"));
    assert!(can_parse_color("transparent"));
    assert!(can_parse_color(""));
}

#[test]
fn white_space_is_that_of_the_standard_library() {
    for u in 0..=0x10ffffu32 {
        if let Some(c) = char::from_u32(u) {
            assert_eq!(is_white_space(c), c.is_whitespace(), "{:x}", u);
        }
    }
}

#[test]
fn channels_are_those_of_the_standard_library() {
    for high in 0..=127u8 {
        for low in 0..=127u8 {
            let pair = [high, low];
            let text = std::str::from_utf8(&pair).unwrap();
            assert_eq!(read_channel(high, low), u8::from_str_radix(text, 16).unwrap_or(0));
        }
    }
}

#[test]
fn trim_and_case_are_those_of_the_standard_library() {
    for s in ["", " ", "a", " a ", "\u{a0}a b\u{2028}", "\u{200b}a", "  \n\t  ", "a\u{85}"] {
        assert_eq!(trim(s), s.trim());
    }
    for s in ["transparent", "TRANSPARENT", "transparen", "tr\u{e4}nsparent", "", "TrAnSpArEnT "] {
        assert_eq!(equal_but_case(s, "transparent"), s.eq_ignore_ascii_case("transparent"));
    }
}

#[test]
fn space_hash_and_capitals_do_not_matter() {
    let plain = parse_color("0abcde");
    assert_eq!(plain, known((0x0a, 0xbc, 0xde, 255)));
    assert_eq!(parse_color("\t 0abcde \u{2003}"), plain);
    assert_eq!(parse_color("#0abcde"), plain);
    assert_eq!(parse_color("0ABCDE"), plain);
}

#[test]
fn hex_codes_are_read_back() {
    for v in 0..=255u8 {
        let code = format!("{:02x}{:02X}{:02x}", v, 255 - v, v / 2);
        assert_eq!(parse_color(&code), known((v, 255 - v, v / 2, 255)));
    }
}

#[test]
fn a_hash_does_not_change_the_colour() {
    for s in ["", "transparent", "TRANSPARENT ", "fff", "0abcde", "zz10zz", "   ", " abc", "#ab"] {
        let with_hash = format!("#{s}");
        assert_eq!(parse_color(&with_hash).color, parse_color(s).color);
    }
    // With white space or another `#` in between, one form only has six bytes.
    for s in [" ff00ff", "#ff00ff", " 12345", "#12345"] {
        let with_hash = format!("#{s}");
        assert_ne!(parse_color(&with_hash).color, parse_color(s).color);
    }
}

#[test]
fn capitals_do_not_matter() {
    let texts = ["", "Transparent", "fAcAdE", "#ABCDEF", "zZ10Gg", "+F-f+g", " \u{c9}\u{e9}aF\n", "ABC"];
    for s in texts {
        assert_eq!(parse_color(&s.to_ascii_uppercase()), parse_color(s));
        assert_eq!(parse_color(&s.to_ascii_lowercase()), parse_color(s));
    }
    assert_eq!(can_parse_color("A\u{e9}123"), can_parse_color("a\u{e9}123"));
}
