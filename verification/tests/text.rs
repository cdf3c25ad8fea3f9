use blog::text::{all_equal, chars_of, find, is_whitespace, trim_range};

#[test]
fn white_space_is_what_std_calls_white_space() {
    let mut count = 0;
    for n in 0..=0x10FFFFu32 {
        if let Some(c) = char::from_u32(n) {
            assert_eq!(is_whitespace(c), c.is_whitespace(), "U+{:04X}", n);
            if is_whitespace(c) {
                count += 1;
            }
        }
    }
    assert_eq!(count, 25);
}

#[test]
fn chars_of_keeps_every_character() {
    assert_eq!(chars_of(""), Vec::<char>::new());
    assert_eq!(chars_of("a\u{e9}\u{1f600}z"), vec!['a', '\u{e9}', '\u{1f600}', 'z']);
}

#[test]
fn trim_range_matches_str_trim() {
    for text in ["", " ", "a", "  a b  ", "\t\r\n x:y \u{a0}", "\u{3000}\u{2000}", "no-space"] {
        let chars = chars_of(text);
        let (from, to) = trim_range(&chars, 0, chars.len());
        let trimmed: String = chars[from..to].iter().collect();
        assert_eq!(trimmed, text.trim(), "{:?}", text);
    }
    let chars = chars_of("ab  cd  ef");
    assert_eq!(trim_range(&chars, 2, 8), (4, 6));
    assert_eq!(trim_range(&chars, 2, 4), (4, 4));
    assert_eq!(trim_range(&chars, 3, 3), (3, 3));
}

#[test]
fn find_gives_the_first_occurrence() {
    let chars = chars_of("a:b:c");
    assert_eq!(find(&chars, 0, 5, ':'), 1);
    assert_eq!(find(&chars, 2, 5, ':'), 3);
    assert_eq!(find(&chars, 4, 5, ':'), 5);
    assert_eq!(find(&chars, 0, 1, ':'), 1);
    assert_eq!(find(&chars, 2, 2, ':'), 2);
}

#[test]
fn all_equal_checks_every_character() {
    let chars = chars_of("---x--");
    assert!(all_equal(&chars, 0, 3, '-'));
    assert!(!all_equal(&chars, 0, 4, '-'));
    assert!(all_equal(&chars, 4, 6, '-'));
    assert!(all_equal(&chars, 2, 2, 'x'));
}
