use rsh::decimal::to_decimal;
use rsh::text::{
    chars_of, is_whitespace, position_of, same_text, spells, split, split_words, trim,
};

#[test]
fn whitespace_is_the_unicode_property() {
    for c in [' ', '\t', '\n', '\r', '\u{0b}', '\u{0c}', '\u{85}', '\u{a0}', '\u{1680}', '\u{2003}', '\u{2028}', '\u{2029}', '\u{202f}', '\u{205f}', '\u{3000}'] {
        assert!(is_whitespace(c), "{:?}", c);
    }
    for c in ['a', '$', '&', '|', '=', '0', '\u{200b}', '\u{feff}', '\u{1f}', '\u{e}'] {
        assert!(!is_whitespace(c), "{:?}", c);
    }
}

#[test]
fn whitespace_agrees_with_std_on_every_char() {
    let mut n: u32 = 0;
    while n <= 0x10ffff {
        if let Some(c) = char::from_u32(n) {
            assert_eq!(is_whitespace(c), c.is_whitespace(), "{:x}", n);
        }
        n += 1;
    }
}

#[test]
fn chars_of_keeps_every_char() {
    assert_eq!(chars_of("a$ é"), vec!['a', '$', ' ', 'é']);
    assert_eq!(chars_of(""), Vec::<char>::new());
}

#[test]
fn same_text_compares_whole_texts() {
    assert!(same_text("exit", "exit"));
    assert!(!same_text("exit", "exi"));
    assert!(!same_text("exi", "exit"));
    assert!(!same_text("exit", "exif"));
    assert!(same_text("", ""));
}

#[test]
fn trim_drops_whitespace_on_both_sides() {
    assert_eq!(trim("  ls -l \t\n"), "ls -l");
    assert_eq!(trim("ls"), "ls");
    assert_eq!(trim(" \t "), "");
    assert_eq!(trim(""), "");
    assert_eq!(trim("\u{3000}é x\u{a0}"), "é x");
}

#[test]
fn split_cuts_at_each_separator() {
    assert_eq!(split("a | b | c", " | "), vec!["a", "b", "c"]);
    assert_eq!(split("ls -l", " | "), vec!["ls -l"]);
    assert_eq!(split("", " | "), vec![""]);
    assert_eq!(split("ls |  | wc", " | "), vec!["ls", "", "wc"]);
    assert_eq!(split("a | | b", " | "), vec!["a", "| b"]);
    assert_eq!(split(" | a", " | "), vec!["", "a"]);
    assert_eq!(split("a | ", " | "), vec!["a", ""]);
    assert_eq!(split("a|b", " | "), vec!["a|b"]);
    assert_eq!(split("é | ü", " | "), vec!["é", "ü"]);
}

#[test]
fn split_agrees_with_std() {
    for text in ["", "x", " | ", " |  | ", "a | b", "| | |", " | | | ", "a  |  b", "ab | cd | ef | "] {
        let expected: Vec<&str> = text.split(" | ").collect();
        assert_eq!(split(text, " | "), expected, "{:?}", text);
        let by_equals: Vec<&str> = text.split('=').collect();
        assert_eq!(split(text, "="), by_equals, "{:?}", text);
    }
}

#[test]
fn split_words_gives_the_runs_between_whitespace() {
    assert_eq!(split_words("  echo   hello\tworld "), vec!["echo", "hello", "world"]);
    assert_eq!(split_words("ls"), vec!["ls"]);
    assert_eq!(split_words(""), Vec::<&str>::new());
    assert_eq!(split_words(" \t\n"), Vec::<&str>::new());
    assert_eq!(split_words("é\u{2003}ü"), vec!["é", "ü"]);
}

#[test]
fn split_words_agrees_with_std() {
    for text in ["", " ", "a", " a", "a ", "a b", "  a  b  ", "\ta\nb\rc", "x$y z=1 &"] {
        let expected: Vec<&str> = text.split_whitespace().collect();
        assert_eq!(split_words(text), expected, "{:?}", text);
    }
}

#[test]
fn decimal_notation() {
    assert_eq!(to_decimal(0), "0");
    assert_eq!(to_decimal(7), "7");
    assert_eq!(to_decimal(10), "10");
    assert_eq!(to_decimal(1234), "1234");
    assert_eq!(to_decimal(4294967295), "4294967295");
    assert_eq!(to_decimal(u64::MAX), "18446744073709551615");
}

#[test]
fn decimal_agrees_with_std() {
    let mut n: u64 = 0;
    while n < 2000 {
        assert_eq!(to_decimal(n), n.to_string());
        n += 1;
    }
}

#[test]
fn spells_compares_chars_with_text() {
    assert!(spells(&vec!['c', 'd'], "cd"));
    assert!(!spells(&vec!['c', 'd'], "c"));
    assert!(!spells(&vec!['c'], "cd"));
    assert!(!spells(&vec!['c', 'd'], "ce"));
    assert!(spells(&Vec::new(), ""));
    assert!(!spells(&Vec::new(), "x"));
    assert!(spells(&vec!['é'], "é"));
}

#[test]
fn position_of_finds_the_first_occurrence() {
    let text = chars_of("a | b | c");
    let pipe = chars_of(" | ");
    assert_eq!(position_of(&text, &pipe, 0), 1);
    assert_eq!(position_of(&text, &pipe, 1), 1);
    assert_eq!(position_of(&text, &pipe, 2), 5);
    assert_eq!(position_of(&text, &pipe, 6), 9);
    assert_eq!(position_of(&text, &pipe, 9), 9);
    assert_eq!(position_of(&chars_of("ab"), &pipe, 0), 2);
    assert_eq!(position_of(&chars_of(""), &pipe, 0), 0);
    assert_eq!(position_of(&chars_of("x=y=z"), &chars_of("="), 0), 1);
}
