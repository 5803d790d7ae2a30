use alcom_rs::line::Line;

fn line(code: &str, comment: &str) -> Line {
    Line::new(code.to_string(), comment.to_string())
}

#[test]
fn test_parse() {
    let empty_line = "".to_string();
    let parsed = Line::parse(&empty_line, ';');
    assert!(parsed.is_some());
    assert_eq!(Line::default(), parsed.unwrap());

    let tabs_and_spaces = "                ".to_string();
    let parsed = Line::parse(&tabs_and_spaces, ';');
    assert!(parsed.is_some());
    assert_eq!(Line::default(), parsed.unwrap());

    let code_only = "  mov ax, dx ".to_string();
    let parsed = Line::parse(&code_only, ';');
    assert!(parsed.is_some());
    assert_eq!(
        Line::new("  mov ax, dx".into(), String::default()),
        parsed.unwrap()
    );

    let comment_only = "    ; comment    ";
    let parsed = Line::parse(&comment_only, ';');
    assert!(parsed.is_some());
    assert_eq!(
        Line::new(String::default(), "comment".into()),
        parsed.unwrap()
    );

    let comment_with_code = "  mov ax, dx ;  comment".to_string();
    let parsed = Line::parse(&comment_with_code, ';');
    assert!(parsed.is_some());
    assert_eq!(
        Line::new("  mov ax, dx".into(), "comment".into()),
        parsed.unwrap()
    );

    let unclosed_quotes = "mov ' ax, dx; comment".to_string();
    assert!(Line::parse(&unclosed_quotes, ';').is_none());

    let separator_in_closed_quotes = "mov ';' ax, dx ; comment".to_string();
    let parsed = Line::parse(&separator_in_closed_quotes, ';');
    assert!(parsed.is_some());
    assert_eq!(
        Line::parse(&separator_in_closed_quotes, ';').unwrap(),
        Line::new("mov ';' ax, dx".into(), "comment".into())
    );
}

#[test]
fn new_keeps_code_and_comment() {
    let l = line("  nop", "idle");
    assert_eq!(l.code(), "  nop");
    assert_eq!(l.comment(), "idle");
    assert!(l.has_code());
    assert!(l.has_comment());
}

#[test]
fn default_line_has_nothing() {
    let l = Line::default();
    assert_eq!(l.code(), "");
    assert_eq!(l.comment(), "");
    assert!(!l.has_code());
    assert!(!l.has_comment());
}

#[test]
fn has_code_and_has_comment_tell_the_four_shapes() {
    assert_eq!((line("a", "b").has_code(), line("a", "b").has_comment()), (true, true));
    assert_eq!((line("a", "").has_code(), line("a", "").has_comment()), (true, false));
    assert_eq!((line("", "b").has_code(), line("", "b").has_comment()), (false, true));
    assert_eq!((line("", "").has_code(), line("", "").has_comment()), (false, false));
}

#[test]
fn unclosed_quotes_of_balanced_lines_are_none() {
    assert_eq!(Line::unclosed_quotes(""), Vec::<usize>::new());
    assert_eq!(Line::unclosed_quotes("mov ax, dx"), Vec::<usize>::new());
    assert_eq!(Line::unclosed_quotes("db 'a', \"b\""), Vec::<usize>::new());
    assert_eq!(Line::unclosed_quotes("db '\"\"'"), Vec::<usize>::new());
}

#[test]
fn unclosed_quotes_gives_the_positions_left_open() {
    assert_eq!(Line::unclosed_quotes("mov ' ax, dx; comment"), vec![4]);
    assert_eq!(Line::unclosed_quotes("'a' \"b"), vec![4]);
    assert_eq!(Line::unclosed_quotes("\"'\""), vec![0, 1, 2]);
    assert_eq!(Line::unclosed_quotes("'\"'\""), vec![0, 1, 2, 3]);
    assert_eq!(Line::unclosed_quotes("'''"), vec![2]);
}

#[test]
fn a_quote_does_not_close_the_other_kind() {
    assert_eq!(Line::unclosed_quotes("'\""), vec![0, 1]);
    assert_eq!(Line::unclosed_quotes("\"'"), vec![0, 1]);
}

#[test]
fn unclosed_quotes_counts_characters_not_bytes() {
    assert_eq!(Line::unclosed_quotes("\u{e9}\u{e9}'"), vec![2]);
}

#[test]
fn find_separator_gives_the_first_outside_quotes() {
    assert_eq!(Line::find_separator("a;b;c", ';'), Some(1));
    assert_eq!(Line::find_separator(";", ';'), Some(0));
    assert_eq!(Line::find_separator("mov ';' ax, dx ; comment", ';'), Some(15));
    assert_eq!(Line::find_separator("db \"a;b\" # x", '#'), Some(9));
}

#[test]
fn find_separator_gives_none_without_a_separator_outside_quotes() {
    assert_eq!(Line::find_separator("", ';'), None);
    assert_eq!(Line::find_separator("mov ax, dx", ';'), None);
    assert_eq!(Line::find_separator("db ';'", ';'), None);
}

#[test]
fn find_separator_gives_none_where_a_quote_stands_alone_inside_others() {
    assert_eq!(Line::find_separator("db \";';\" # x", '#'), None);
}

#[test]
fn find_separator_gives_none_for_unbalanced_quotes() {
    assert_eq!(Line::find_separator("mov ' ax, dx; comment", ';'), None);
    assert_eq!(Line::find_separator("a ; b '", ';'), None);
}

#[test]
fn find_separator_counts_characters_not_bytes() {
    assert_eq!(Line::find_separator("\u{e9}\u{e9};x", ';'), Some(2));
}

#[test]
fn find_separator_with_a_quote_as_separator() {
    assert_eq!(Line::find_separator("a'b'c", '\''), Some(1));
    assert_eq!(Line::find_separator("\"''\"", '\''), None);
}

#[test]
fn parse_splits_lines_that_are_not_ascii() {
    assert_eq!(
        Line::parse("  \u{e9}t\u{e9} ; gr\u{fc}\u{df}e ", ';'),
        Some(line("  \u{e9}t\u{e9}", "gr\u{fc}\u{df}e"))
    );
}

#[test]
fn parse_trims_every_kind_of_white_space() {
    assert_eq!(
        Line::parse("a\u{3000}\t;\u{a0}\u{2003}b\u{2028}\u{85}", ';'),
        Some(line("a", "b"))
    );
    assert_eq!(Line::parse("\u{1680}\u{202f}\u{205f}\u{2029}\u{b}\u{c}\r\n", ';'), Some(line("", "")));
}

#[test]
fn parse_keeps_characters_that_only_look_like_white_space() {
    assert_eq!(
        Line::parse("a\u{200b};\u{feff}b\u{1c}", ';'),
        Some(line("a\u{200b}", "\u{feff}b\u{1c}"))
    );
}

#[test]
fn parse_keeps_white_space_at_the_start_of_code() {
    assert_eq!(Line::parse("\t  x  ", ';'), Some(line("\t  x", "")));
}

#[test]
fn parse_keeps_later_separators_in_the_comment() {
    assert_eq!(Line::parse("a ; b ; c", ';'), Some(line("a", "b ; c")));
    assert_eq!(Line::parse("a ; b ';' c", ';'), Some(line("a", "b ';' c")));
}

#[test]
fn parse_with_nothing_after_the_separator() {
    assert_eq!(Line::parse("  nop ;  ", ';'), Some(line("  nop", "")));
    assert_eq!(Line::parse(";", ';'), Some(line("", "")));
}

#[test]
fn parse_blank_lines_with_any_separator() {
    assert_eq!(Line::parse("   ", ';'), Some(line("", "")));
    assert_eq!(Line::parse("   ", ' '), Some(line("", "")));
    assert_eq!(Line::parse(" \t ", '\t'), Some(line("", "")));
}

#[test]
fn parse_drops_lines_with_an_odd_number_of_a_quote() {
    assert_eq!(Line::parse("mov ' ax, dx; comment", ';'), None);
    assert_eq!(Line::parse("db \"abc ; text", ';'), None);
    assert_eq!(Line::parse("'a' ; it's", ';'), None);
    assert_eq!(Line::parse("'''", ';'), None);
}

#[test]
fn parse_drops_crossed_quotes() {
    assert_eq!(Line::parse("'\"'\" ; x", ';'), None);
}

#[test]
fn parse_takes_a_quoted_separator_as_code() {
    assert_eq!(
        Line::parse("mov ';' ax, dx ; comment", ';'),
        Some(line("mov ';' ax, dx", "comment"))
    );
    assert_eq!(Line::parse("db \"a;b\"", ';'), Some(line("db \"a;b\"", "")));
    assert_eq!(Line::parse("db ';'   ", ';'), Some(line("db ';'", "")));
}

#[test]
fn parse_with_a_space_as_separator() {
    assert_eq!(Line::parse("a b", ' '), Some(line("a", "b")));
    assert_eq!(Line::parse("  a b", ' '), Some(line("", "a b")));
}

#[test]
fn lines_are_ordered_by_the_length_of_their_code() {
    assert!(line("ab", "zzzz") < line("abc", ""));
    assert!(line("abc", "") > line("ab", "zzzz"));
    assert!(line("ab", "x") <= line("cd", "y"));
    assert!(line("ab", "x") >= line("cd", "y"));
    assert!(!(line("ab", "x") < line("cd", "y")));
    assert_eq!(
        line("\u{e9}\u{e9}", "").partial_cmp(&line("abc", "")),
        Some(std::cmp::Ordering::Less)
    );
    assert_eq!(
        line("ab", "x").partial_cmp(&line("cd", "y")),
        Some(std::cmp::Ordering::Equal)
    );
}
