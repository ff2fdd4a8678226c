use figfont::text::{
    chars_of, is_space, join_rows, parse_isize, parse_usize, split_lines, split_tokens,
};

fn cs(s: &str) -> Vec<char> {
    s.chars().collect()
}

fn rows(parts: &[&str]) -> Vec<Vec<char>> {
    parts.iter().map(|p| cs(p)).collect()
}

#[test]
fn chars_of_keeps_every_character() {
    assert_eq!(chars_of(""), cs(""));
    assert_eq!(chars_of("a\u{e9}\u{1F600}z"), vec!['a', '\u{e9}', '\u{1F600}', 'z']);
}

#[test]
fn ascii_whitespace() {
    for c in [' ', '\t', '\n', '\x0C', '\r'] {
        assert!(is_space(c));
    }
    for c in ['a', '\x0B', '\u{a0}', '\u{2003}', '0'] {
        assert!(!is_space(c));
    }
}

#[test]
fn tokens_are_runs_without_whitespace() {
    assert_eq!(split_tokens(&cs("")), rows(&[]));
    assert_eq!(split_tokens(&cs(" \t\r\n")), rows(&[]));
    assert_eq!(split_tokens(&cs("one")), rows(&["one"]));
    assert_eq!(split_tokens(&cs("  one\ttwo  three\n")), rows(&["one", "two", "three"]));
    assert_eq!(split_tokens(&cs("a\u{a0}b c")), rows(&["a\u{a0}b", "c"]));
    let text = " flf2a$ 8  8\x0C20 -1 6 ";
    let expected: Vec<Vec<char>> = text.split_ascii_whitespace().map(cs).collect();
    assert_eq!(split_tokens(&cs(text)), expected);
}

#[test]
fn lines_end_at_line_feeds() {
    assert_eq!(split_lines(&cs("")), rows(&[]));
    assert_eq!(split_lines(&cs("a")), rows(&["a"]));
    assert_eq!(split_lines(&cs("a\n")), rows(&["a"]));
    assert_eq!(split_lines(&cs("\n")), rows(&[""]));
    assert_eq!(split_lines(&cs("a\r\nb\n\nc")), rows(&["a", "b", "", "c"]));
    assert_eq!(split_lines(&cs("a\r")), rows(&["a\r"]));
    assert_eq!(split_lines(&cs("a\r\r\nb\rc\n")), rows(&["a\r", "b\rc"]));
    for text in ["x\n\ny\r\n", "\r\n\r\n", "one\ntwo", "\n\n\n", "a\rb"] {
        let expected: Vec<Vec<char>> = text.lines().map(cs).collect();
        assert_eq!(split_lines(&cs(text)), expected);
    }
}

#[test]
fn rows_joined_by_line_feeds() {
    let all = rows(&["ab", "", "c", "d"]);
    assert_eq!(join_rows(&all, 0, 4), cs("ab\n\nc\nd"));
    assert_eq!(join_rows(&all, 1, 3), cs("\nc"));
    assert_eq!(join_rows(&all, 2, 3), cs("c"));
    assert_eq!(join_rows(&all, 2, 2), cs(""));
}

#[test]
fn unsigned_numbers() {
    assert_eq!(parse_usize(&cs("0")), Some(0));
    assert_eq!(parse_usize(&cs("007")), Some(7));
    assert_eq!(parse_usize(&cs("+42")), Some(42));
    assert_eq!(parse_usize(&cs("24463")), Some(24463));
    assert_eq!(parse_usize(&cs(&usize::MAX.to_string())), Some(usize::MAX));
    assert_eq!(parse_usize(&cs("18446744073709551616")), None);
    assert_eq!(parse_usize(&cs("99999999999999999999999999")), None);
    assert_eq!(parse_usize(&cs("")), None);
    assert_eq!(parse_usize(&cs("+")), None);
    assert_eq!(parse_usize(&cs("-")), None);
    assert_eq!(parse_usize(&cs("-1")), None);
    assert_eq!(parse_usize(&cs("++1")), None);
    assert_eq!(parse_usize(&cs("1+")), None);
    assert_eq!(parse_usize(&cs("12a")), None);
    assert_eq!(parse_usize(&cs("1 2")), None);
    assert_eq!(parse_usize(&cs("\u{661}")), None);
    for text in ["0", "+0", "12", "-0", "1e3", "0x10", "9", ":", "/"] {
        assert_eq!(parse_usize(&cs(text)), text.parse::<usize>().ok());
    }
}

#[test]
fn signed_numbers() {
    assert_eq!(parse_isize(&cs("0")), Some(0));
    assert_eq!(parse_isize(&cs("-0")), Some(0));
    assert_eq!(parse_isize(&cs("-1")), Some(-1));
    assert_eq!(parse_isize(&cs("+15")), Some(15));
    assert_eq!(parse_isize(&cs("24463")), Some(24463));
    assert_eq!(parse_isize(&cs(&isize::MAX.to_string())), Some(isize::MAX));
    assert_eq!(parse_isize(&cs(&isize::MIN.to_string())), Some(isize::MIN));
    assert_eq!(parse_isize(&cs("9223372036854775808")), None);
    assert_eq!(parse_isize(&cs("-9223372036854775809")), None);
    assert_eq!(parse_isize(&cs("-99999999999999999999999999")), None);
    assert_eq!(parse_isize(&cs("")), None);
    assert_eq!(parse_isize(&cs("-")), None);
    assert_eq!(parse_isize(&cs("+")), None);
    assert_eq!(parse_isize(&cs("--1")), None);
    assert_eq!(parse_isize(&cs("-+1")), None);
    assert_eq!(parse_isize(&cs("+-1")), None);
    assert_eq!(parse_isize(&cs("-1x")), None);
    for text in ["-12", "+12", "12", "- 1", "1-", "", "-00012"] {
        assert_eq!(parse_isize(&cs(text)), text.parse::<isize>().ok());
    }
}
