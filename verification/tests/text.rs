use alcom_rs::text::{
    chars_of, is_whitespace_char, push_range, push_spaces, trim_end_at, trim_start_at,
};

#[test]
fn white_space_is_what_the_standard_library_calls_white_space() {
    let mut n: u32 = 0;
    let mut count = 0;
    while n <= 0x10FFFF {
        if let Some(c) = char::from_u32(n) {
            assert_eq!(is_whitespace_char(c), c.is_whitespace(), "U+{:04X}", n);
            if is_whitespace_char(c) {
                count += 1;
            }
        }
        n += 1;
    }
    assert_eq!(count, 25);
}

#[test]
fn white_space_examples() {
    for c in [' ', '\t', '\n', '\r', '\u{b}', '\u{c}', '\u{85}', '\u{a0}', '\u{3000}'] {
        assert!(is_whitespace_char(c));
    }
    for c in ['a', ';', '\'', '"', '\u{0}', '\u{8}', '\u{e}', '\u{1f}', '\u{200b}', '\u{feff}'] {
        assert!(!is_whitespace_char(c));
    }
}

#[test]
fn chars_of_gives_the_characters_in_order() {
    assert_eq!(chars_of(""), Vec::<char>::new());
    assert_eq!(chars_of("a;b"), vec!['a', ';', 'b']);
    assert_eq!(chars_of("\u{e9}x\u{1f600}"), vec!['\u{e9}', 'x', '\u{1f600}']);
}

#[test]
fn push_spaces_appends_that_many_spaces() {
    let mut s = String::from("ab");
    push_spaces(&mut s, 3);
    assert_eq!(s, "ab   ");
    push_spaces(&mut s, 0);
    assert_eq!(s, "ab   ");
}

#[test]
fn push_range_appends_the_characters_between() {
    let v = chars_of("h\u{e9}llo");
    let mut s = String::from(">");
    push_range(&mut s, &v, 1, 4);
    assert_eq!(s, ">\u{e9}ll");
    push_range(&mut s, &v, 2, 2);
    assert_eq!(s, ">\u{e9}ll");
    push_range(&mut s, &v, 0, 5);
    assert_eq!(s, ">\u{e9}llh\u{e9}llo");
}

#[test]
fn trim_end_at_stops_behind_the_last_character_that_is_not_white_space() {
    let v = chars_of("  ab \t ");
    assert_eq!(trim_end_at(&v, 0, 7), 4);
    assert_eq!(trim_end_at(&v, 0, 4), 4);
    assert_eq!(trim_end_at(&v, 0, 2), 0);
    assert_eq!(trim_end_at(&v, 1, 2), 1);
    assert_eq!(trim_end_at(&v, 4, 7), 4);
    assert_eq!(trim_end_at(&v, 3, 3), 3);
}

#[test]
fn trim_start_at_stops_at_the_first_character_that_is_not_white_space() {
    let v = chars_of("  ab \t ");
    assert_eq!(trim_start_at(&v, 0, 7), 2);
    assert_eq!(trim_start_at(&v, 2, 7), 2);
    assert_eq!(trim_start_at(&v, 4, 7), 7);
    assert_eq!(trim_start_at(&v, 0, 1), 1);
    assert_eq!(trim_start_at(&v, 5, 5), 5);
}

#[test]
fn trimming_agrees_with_the_standard_library() {
    let samples = [
        "",
        " ",
        "a",
        "  a b  ",
        "\u{3000}x\u{a0}",
        "\t\r\n",
        "x\u{200b} ",
        "\u{2003}\u{e9} \u{e9}\u{2028}",
    ];
    for s in samples {
        let v = chars_of(s);
        let n = v.len();
        let end = trim_end_at(&v, 0, n);
        let mut out = String::new();
        push_range(&mut out, &v, 0, end);
        assert_eq!(out, s.trim_end());
        let start = trim_start_at(&v, 0, n);
        let end = trim_end_at(&v, start, n);
        let mut out = String::new();
        push_range(&mut out, &v, start, end);
        assert_eq!(out, s.trim());
    }
}
