use csv_transpose::split::join;
use csv_transpose::whitespace::{char_is_whitespace, trim};

fn strings(items: &[&str]) -> Vec<String> {
    items.iter().map(|s| s.to_string()).collect()
}

#[test]
fn whitespace_is_what_the_standard_library_calls_whitespace() {
    let mut n: u32 = 0;
    while n <= 0x10FFFF {
        if let Some(c) = char::from_u32(n) {
            assert_eq!(char_is_whitespace(c), c.is_whitespace(), "U+{:04X}", n);
        }
        n += 1;
    }
}

#[test]
fn whitespace_holds_the_usual_blanks() {
    for c in [' ', '\t', '\n', '\r', '\u{0B}', '\u{0C}', '\u{85}', '\u{A0}', '\u{3000}'] {
        assert!(char_is_whitespace(c));
    }
    for c in ['a', ',', '0', '\u{0}', '\u{200B}', '\u{FEFF}', '_'] {
        assert!(!char_is_whitespace(c));
    }
}

#[test]
fn trim_takes_away_both_ends() {
    assert_eq!(trim("  a  "), "a");
    assert_eq!(trim("\t b"), "b");
    assert_eq!(trim("c \r"), "c");
    assert_eq!(trim("plain"), "plain");
}

#[test]
fn trim_keeps_inner_whitespace() {
    assert_eq!(trim("  first  second\tthird "), "first  second\tthird");
    assert_eq!(trim(" a b "), "a b");
}

#[test]
fn trim_of_blank_text_is_empty() {
    assert_eq!(trim(""), "");
    assert_eq!(trim(" "), "");
    assert_eq!(trim(" \t\r\n "), "");
}

#[test]
fn trim_knows_wide_characters() {
    assert_eq!(trim("\u{3000}日本語 テキスト\u{A0}"), "日本語 テキスト");
    assert_eq!(trim("\u{2003}é\u{2028}"), "é");
    assert_eq!(trim("\u{200B}x\u{200B}"), "\u{200B}x\u{200B}");
}

#[test]
fn trim_agrees_with_the_standard_library() {
    for s in ["", " ", "a", " a", "a ", "  a b  ", "\u{85}x y\u{1680}", "\n\n", " , "] {
        assert_eq!(trim(s), s.trim());
    }
}

#[test]
fn join_puts_a_separator_between_neighbours() {
    assert_eq!(join(&strings(&["a", "b", "c"]), ','), "a,b,c");
    assert_eq!(join(&strings(&["a", "b"]), ';'), "a;b");
}

#[test]
fn join_of_one_piece_is_the_piece() {
    assert_eq!(join(&strings(&["only"]), ','), "only");
    assert_eq!(join(&strings(&[""]), ','), "");
}

#[test]
fn join_of_nothing_is_empty() {
    assert_eq!(join(&Vec::new(), ','), "");
}

#[test]
fn join_keeps_empty_pieces() {
    assert_eq!(join(&strings(&["", "", ""]), ','), ",,");
    assert_eq!(join(&strings(&["a", "", "b"]), ','), "a,,b");
}
