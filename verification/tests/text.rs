use file_reservations::arith::{saturating_difference, saturating_micros, seconds_since};
use file_reservations::text::{
    before, byte_len, clip, has_char, has_prefix, has_text, join, lines_of, signed_text, trim,
    unsigned_text,
};

#[test]
fn trimming_takes_white_space_from_both_ends() {
    for text in [
        "",
        " ",
        "a",
        " a b\t\n",
        "\u{85}\u{a0}x\u{3000}",
        "\u{200b}x",
        "\u{2028}\u{1680}",
        "\u{c}\u{b}y\u{1c}",
    ] {
        assert_eq!(trim(text), text.trim(), "{text:?}");
    }
}

#[test]
fn texts_are_ordered_as_strings_are() {
    let texts = ["", "a", "ab", "b", "A", "\u{e9}", "\u{1f600}", "\u{ffff}", "a\0"];
    for left in texts {
        for right in texts {
            assert_eq!(before(left, right), left < right, "{left:?} {right:?}");
        }
    }
}

#[test]
fn numbers_are_written_in_decimal() {
    for n in [0, 7, 10, -1, 1_000, i64::MAX, i64::MIN] {
        assert_eq!(signed_text(n), format!("{n}"));
    }
    assert_eq!(unsigned_text(u64::MAX), format!("{}", u64::MAX));
}

#[test]
fn lines_are_split_as_std_does() {
    for text in ["", "a", "a\n", "a\r\nb\r", "\n\n", "\r\n\r", "a\rb\nc\r\r\n"] {
        let expected: Vec<&str> = text.lines().collect();
        assert_eq!(lines_of(text), expected, "{text:?}");
    }
}

#[test]
fn clipping_stops_at_a_character() {
    assert_eq!(clip("abc", 3), "abc");
    assert_eq!(clip("abc", 2), "ab");
    assert_eq!(clip("a\u{20ac}b", 3), "a");
    assert_eq!(clip("a\u{20ac}b", 4), "a\u{20ac}");
    assert_eq!(clip("\u{1f600}", 3), "");
    assert_eq!(clip("", 0), "");
    assert_eq!(clip("abc", usize::MAX), "abc");
}

#[test]
fn parts_are_found_and_joined() {
    assert!(has_prefix("abc", "ab"));
    assert!(has_prefix("abc", ""));
    assert!(!has_prefix("ab", "abc"));
    assert!(has_text("xaab", "ab"));
    assert!(has_text("", ""));
    assert!(!has_text("aa", "ab"));
    assert!(has_char("a\0", '\0'));
    assert!(!has_char("", 'a'));
    assert_eq!(byte_len("a\u{20ac}"), 4);
    let parts: Vec<String> = vec!["a".to_string(), String::new(), "b".to_string()];
    assert_eq!(join(&parts, ", "), "a, , b");
    assert_eq!(join(&Vec::new(), ", "), "");
}

#[test]
fn times_saturate_and_round_towards_zero() {
    assert_eq!(saturating_difference(i64::MIN, 1), i64::MIN);
    assert_eq!(saturating_difference(5, i64::MIN), i64::MAX);
    assert_eq!(saturating_difference(5, 7), -2);
    assert_eq!(saturating_micros(3), 3_000_000);
    assert_eq!(saturating_micros(i64::MAX), i64::MAX);
    assert_eq!(saturating_micros(i64::MIN), i64::MIN);
    assert_eq!(seconds_since(2_999_999, 0), 2);
    assert_eq!(seconds_since(0, 2_999_999), -2);
    assert_eq!(seconds_since(i64::MIN, 0), i64::MIN / 1_000_000);
}
