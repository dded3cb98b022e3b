use vm_translator::text::{chars_of, decimal, joined, parse_numeral, same_text, space};

#[test]
fn decimal_writes_base_ten() {
    assert_eq!(decimal(0), "0");
    assert_eq!(decimal(7), "7");
    assert_eq!(decimal(10), "10");
    assert_eq!(decimal(256), "256");
    assert_eq!(decimal(65535), "65535");
    assert_eq!(decimal(u64::MAX), "18446744073709551615");
}

#[test]
fn decimal_agrees_with_the_standard_library() {
    for n in [0u64, 1, 9, 10, 99, 100, 101, 4095, 32767, 32768, 1_000_000, 123_456_789_012] {
        assert_eq!(decimal(n), n.to_string());
    }
}

#[test]
fn numeral_is_read() {
    assert_eq!(parse_numeral("0", u16::MAX), Some(0));
    assert_eq!(parse_numeral("7", u16::MAX), Some(7));
    assert_eq!(parse_numeral("007", u16::MAX), Some(7));
    assert_eq!(parse_numeral("65535", u16::MAX), Some(65535));
    assert_eq!(parse_numeral("255", 255), Some(255));
}

#[test]
fn numeral_with_a_plus_is_read() {
    assert_eq!(parse_numeral("+17", 255), Some(17));
    assert_eq!(parse_numeral("+0", 255), Some(0));
}

#[test]
fn numeral_too_large_is_refused() {
    assert_eq!(parse_numeral("65536", u16::MAX), None);
    assert_eq!(parse_numeral("256", 255), None);
    assert_eq!(parse_numeral("99999999999999999999999999", u16::MAX), None);
}

#[test]
fn what_is_no_numeral_is_refused() {
    assert_eq!(parse_numeral("", u16::MAX), None);
    assert_eq!(parse_numeral("+", u16::MAX), None);
    assert_eq!(parse_numeral("-1", u16::MAX), None);
    assert_eq!(parse_numeral("1x", u16::MAX), None);
    assert_eq!(parse_numeral("x1", u16::MAX), None);
    assert_eq!(parse_numeral("++1", u16::MAX), None);
    assert_eq!(parse_numeral("1+", u16::MAX), None);
    assert_eq!(parse_numeral("١٢", u16::MAX), None);
}

#[test]
fn numeral_agrees_with_the_standard_library() {
    for word in ["0", "12", "+12", "0012", "65535", "65536", "", "+", "-0", "a", "1 ", " 1"] {
        assert_eq!(parse_numeral(word, u16::MAX), word.parse::<u16>().ok(), "{:?}", word);
    }
}

#[test]
fn same_text_compares_characters() {
    assert!(same_text("push", "push"));
    assert!(same_text("", ""));
    assert!(!same_text("push", "pop"));
    assert!(!same_text("push", "pusH"));
    assert!(!same_text("push", "pushh"));
    assert!(!same_text("if-goto", "if_goto"));
}

#[test]
fn space_agrees_with_the_standard_library() {
    for code in 0u32..0x3100 {
        if let Some(c) = char::from_u32(code) {
            assert_eq!(space(c), c.is_whitespace(), "U+{:04X}", code);
        }
    }
    assert!(!space('\u{feff}'));
}

#[test]
fn chars_of_keeps_every_character() {
    assert_eq!(chars_of("a/é "), vec!['a', '/', 'é', ' ']);
    assert_eq!(chars_of(""), Vec::<char>::new());
}

#[test]
fn joined_puts_one_after_the_other() {
    assert_eq!(joined("fn:", "Main.f"), "fn:Main.f");
    assert_eq!(joined("", ""), "");
}

#[test]
fn what_is_written_is_read_back() {
    for n in [0u16, 1, 9, 10, 255, 256, 1000, 32767, 65535] {
        assert_eq!(parse_numeral(&decimal(n as u64), u16::MAX), Some(n));
    }
}
