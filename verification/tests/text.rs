use sei_bot::text::{decimal_string, join, join_ids, trim};

#[test]
fn decimal_writes_numbers() {
    assert_eq!(decimal_string(0), "0");
    assert_eq!(decimal_string(7), "7");
    assert_eq!(decimal_string(10), "10");
    assert_eq!(decimal_string(793533219865755648), "793533219865755648");
    assert_eq!(decimal_string(u64::MAX), "18446744073709551615");
}

#[test]
fn join_puts_separator_between_neighbours() {
    assert_eq!(join(&vec![], " "), "");
    assert_eq!(join(&vec!["a".to_string()], " "), "a");
    assert_eq!(join(&vec!["a".to_string(), "b".to_string(), "c".to_string()], "\n"), "a\nb\nc");
    assert_eq!(join_ids(&vec![1, 22, 333], " "), "1 22 333");
}

#[test]
fn trim_drops_surrounding_white_space() {
    assert_eq!(trim("  a b  "), "a b");
    assert_eq!(trim(""), "");
    assert_eq!(trim("\u{3000}x\u{00a0}"), "x");
    assert_eq!(trim("\u{85}\u{2029}y\u{200b}"), "y\u{200b}");
}

#[test]
fn trim_agrees_with_std_on_every_character() {
    for code in 0u32..=0x10FFFF {
        if let Some(c) = char::from_u32(code) {
            let s = c.to_string();
            assert_eq!(trim(&s).is_empty(), c.is_whitespace(), "code point {:x}", code);
        }
    }
}
