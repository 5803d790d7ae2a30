use alcom_rs::accessor::{expand_tabs, FileAccessor};
use alcom_rs::line::Line;

fn classified(code: &str, comment: &str) -> Line {
    Line::new(code.to_string(), comment.to_string())
}

#[test]
fn expand_tabs_puts_four_spaces_for_each_tab() {
    assert_eq!(expand_tabs("a\tb"), "a    b");
    assert_eq!(expand_tabs("\t\t"), "        ");
    assert_eq!(expand_tabs("abc\tx"), "abc    x");
    assert_eq!(expand_tabs("\t"), "    ");
}

#[test]
fn expand_tabs_leaves_other_text_alone() {
    assert_eq!(expand_tabs(""), "");
    assert_eq!(expand_tabs("mov ax, dx ; x"), "mov ax, dx ; x");
    assert_eq!(expand_tabs("\u{e9}\r\n\u{3000}"), "\u{e9}\r\n\u{3000}");
}

#[test]
fn expand_tabs_of_a_long_line() {
    let mut line = String::new();
    let mut expected = String::new();
    for i in 0..1000 {
        if i % 300 == 299 {
            line.push('\t');
            expected.push_str("    ");
        } else {
            line.push('x');
            expected.push('x');
        }
    }
    assert_eq!(expand_tabs(&line), expected);
}

#[test]
fn expand_tabs_at_the_edges_of_a_piece() {
    for n in [254usize, 255, 256, 257, 509, 510, 511] {
        let line = format!("{}\t{}\t", "a".repeat(n), "\u{e9}".repeat(n));
        let expected = format!("{}    {}    ", "a".repeat(n), "\u{e9}".repeat(n));
        assert_eq!(expand_tabs(&line), expected);
    }
}

#[test]
fn read_classifies_every_line() {
    let raw = vec![
        "  mov ax, dx ; move".to_string(),
        "  nop".to_string(),
        "".to_string(),
        "  ; standalone".to_string(),
    ];
    assert_eq!(
        FileAccessor::read(&raw, ';'),
        vec![
            classified("  mov ax, dx", "move"),
            classified("  nop", ""),
            classified("", ""),
            classified("", "standalone"),
        ]
    );
}

#[test]
fn read_expands_tabs_first() {
    let raw = vec!["\tmov\tax ;\tx\ty".to_string()];
    assert_eq!(
        FileAccessor::read(&raw, ';'),
        vec![classified("    mov    ax", "x    y")]
    );
}

#[test]
fn read_never_finds_a_tab_as_separator() {
    let raw = vec!["a\tb".to_string()];
    assert_eq!(FileAccessor::read(&raw, '\t'), vec![classified("a    b", "")]);
}

#[test]
fn read_leaves_out_lines_with_open_quotes() {
    let raw = vec![
        "a ; x".to_string(),
        "mov ' ax, dx; comment".to_string(),
        "b ; y".to_string(),
    ];
    assert_eq!(
        FileAccessor::read(&raw, ';'),
        vec![classified("a", "x"), classified("b", "y")]
    );
}

#[test]
fn read_of_nothing_is_nothing() {
    assert_eq!(FileAccessor::read(&Vec::new(), ';'), Vec::new());
}
