//! Tokenizer behavior over both element domains: token kinds, decoded
//! values, positions, and lexical errors.

use ssv::bytes::LineBreak;
use ssv::bytes::ReadError;

type Item = (String, String, usize, usize);

fn t(kind: &str, value: &str, line: usize, col: usize) -> Item {
    (kind.to_string(), value.to_string(), line, col)
}

fn break_name(b: LineBreak) -> String {
    match b {
        LineBreak::Lf => "lf".to_string(),
        LineBreak::CrLf => "crlf".to_string(),
    }
}

fn err_item(e: ReadError) -> Item {
    match e {
        ReadError::UnpairedQuote(p) => t("unpaired", "", p.line_number, p.column_number),
        ReadError::UnclosedQuotedValue(p) => t("unclosed", "", p.line_number, p.column_number),
        ReadError::IoError => panic!("unexpected io error"),
    }
}

fn toks_bytes(input: &str) -> Vec<Item> {
    let mut tk = ssv::bytes::Tokenizer::new(input.bytes().collect());
    let mut out: Vec<Item> = Vec::new();
    loop {
        match tk.next() {
            None => break,
            Some(Ok(wp)) => {
                let l = wp.position.line_number;
                let c = wp.position.column_number;
                let item = match wp.value {
                    ssv::bytes::Token::UnquotedValue(v) => {
                        t("u", &String::from_utf8(v.0).unwrap(), l, c)
                    }
                    ssv::bytes::Token::QuotedValue(v) => {
                        t("q", &String::from_utf8(v.0).unwrap(), l, c)
                    }
                    ssv::bytes::Token::Spacing(v) => {
                        t("s", &String::from_utf8(v.0).unwrap(), l, c)
                    }
                    ssv::bytes::Token::LineBreak(b) => t("b", &break_name(b), l, c),
                    ssv::bytes::Token::Comment(v) => {
                        t("c", &String::from_utf8(v.0).unwrap(), l, c)
                    }
                };
                out.push(item);
            }
            Some(Err(e)) => out.push(err_item(e)),
        }
    }
    assert!(tk.next().is_none());
    out
}

fn toks_chars(input: &str) -> Vec<Item> {
    let mut tk = ssv::chars::Tokenizer::new(input.chars().collect());
    let mut out: Vec<Item> = Vec::new();
    loop {
        match tk.next() {
            None => break,
            Some(Ok(wp)) => {
                let l = wp.position.line_number;
                let c = wp.position.column_number;
                let item = match wp.value {
                    ssv::chars::Token::UnquotedValue(v) => {
                        t("u", &v.0.into_iter().collect::<String>(), l, c)
                    }
                    ssv::chars::Token::QuotedValue(v) => {
                        t("q", &v.0.into_iter().collect::<String>(), l, c)
                    }
                    ssv::chars::Token::Spacing(v) => {
                        t("s", &v.0.into_iter().collect::<String>(), l, c)
                    }
                    ssv::chars::Token::LineBreak(b) => t("b", &break_name(b), l, c),
                    ssv::chars::Token::Comment(v) => {
                        t("c", &v.0.into_iter().collect::<String>(), l, c)
                    }
                };
                out.push(item);
            }
            Some(Err(e)) => out.push(err_item(e)),
        }
    }
    assert!(tk.next().is_none());
    out
}

fn assert_toks(input: &str, expected: Vec<Item>) {
    assert_eq!(toks_bytes(input), expected);
    assert_eq!(toks_chars(input), expected);
}

#[test]
fn tokenizer_empty_input() {
    assert_toks("", vec![]);
}

#[test]
fn unquoted_value() {
    assert_toks("abc", vec![t("u", "abc", 1, 1)]);
}

#[test]
fn unquoted_value_containing_quote() {
    assert_toks("abc\"\"def", vec![t("u", "abc\"def", 1, 1)]);
}

#[test]
fn unquoted_value_containing_cr() {
    assert_toks("abc\rdef", vec![t("u", "abc\rdef", 1, 1)]);
}

#[test]
fn unquoted_value_starting_with_quotes() {
    assert_toks("\"\"abc", vec![t("u", "\"abc", 1, 1)]);
}

#[test]
fn unquoted_value_followed_by_spacing() {
    assert_toks("abc \t ", vec![t("u", "abc", 1, 1), t("s", " \t ", 1, 4)]);
}

#[test]
fn unquoted_value_followed_by_line_break() {
    assert_toks("abc\n", vec![t("u", "abc", 1, 1), t("b", "lf", 1, 4)]);
    assert_toks("abc\r\n", vec![t("u", "abc", 1, 1), t("b", "crlf", 1, 4)]);
}

#[test]
fn unquoted_value_with_unpaired_quote() {
    assert_toks("abc\"", vec![t("unpaired", "", 1, 4)]);
    assert_toks("abc\"def", vec![t("unpaired", "", 1, 4)]);
}

#[test]
fn quoted_value() {
    assert_toks("\"abc\"", vec![t("q", "abc", 1, 1)]);
}

#[test]
fn quoted_value_containing_quote() {
    assert_toks("\"abc\"\"def\"", vec![t("q", "abc\"def", 1, 1)]);
}

#[test]
fn quoted_value_containing_only_quotes() {
    assert_toks("\"\"\"\"\"\"", vec![t("q", "\"\"", 1, 1)]);
}

#[test]
fn quoted_value_containing_spacing() {
    assert_toks("\"abc def\"", vec![t("q", "abc def", 1, 1)]);
}

#[test]
fn quoted_value_containing_line_break() {
    assert_toks("\"abc\ndef\"", vec![t("q", "abc\ndef", 1, 1)]);
    assert_toks("\"abc\r\ndef\"", vec![t("q", "abc\r\ndef", 1, 1)]);
}

#[test]
fn quoted_value_starting_with_quotes() {
    assert_toks("\"\"\"abc\"", vec![t("q", "\"abc", 1, 1)]);
}

#[test]
fn quoted_value_starting_with_quotes_and_spacing() {
    assert_toks("\"\"\" \t abc\"", vec![t("q", "\" \t abc", 1, 1)]);
}

#[test]
fn quoted_value_starting_with_quotes_and_line_break() {
    assert_toks("\"\"\"\nabc\"", vec![t("q", "\"\nabc", 1, 1)]);
    assert_toks("\"\"\"\r\nabc\"", vec![t("q", "\"\r\nabc", 1, 1)]);
}

#[test]
fn quoted_value_followed_by_spacing() {
    assert_toks("\"abc\" \t ", vec![t("q", "abc", 1, 1), t("s", " \t ", 1, 6)]);
}

#[test]
fn quoted_value_followed_by_line_break() {
    assert_toks("\"abc\"\n", vec![t("q", "abc", 1, 1), t("b", "lf", 1, 6)]);
    assert_toks("\"abc\"\r\n", vec![t("q", "abc", 1, 1), t("b", "crlf", 1, 6)]);
}

#[test]
fn quoted_value_containing_only_quotes_followed_by_spacing() {
    assert_toks("\"\"\"\" \t ", vec![t("q", "\"", 1, 1), t("s", " \t ", 1, 5)]);
}

#[test]
fn quoted_value_containing_only_quotes_followed_by_line_break() {
    assert_toks("\"\"\"\"\n", vec![t("q", "\"", 1, 1), t("b", "lf", 1, 5)]);
    assert_toks("\"\"\"\"\r\n", vec![t("q", "\"", 1, 1), t("b", "crlf", 1, 5)]);
}

#[test]
fn unclosed_quoted_value() {
    assert_toks("\"abc", vec![t("unclosed", "", 1, 5)]);
    assert_toks("\"\"\"", vec![t("unclosed", "", 1, 4)]);
}

#[test]
fn quoted_value_with_unpaired_quote() {
    assert_toks("\"abc\"def", vec![t("unpaired", "", 1, 5)]);
}

#[test]
fn spacing() {
    assert_toks(" \t ", vec![t("s", " \t ", 1, 1)]);
}

#[test]
fn spacing_followed_by_unquoted_value() {
    assert_toks(" \t abc", vec![t("s", " \t ", 1, 1), t("u", "abc", 1, 4)]);
}

#[test]
fn spacing_followed_by_quoted_value() {
    assert_toks(" \t \"abc\"", vec![t("s", " \t ", 1, 1), t("q", "abc", 1, 4)]);
}

#[test]
fn tokenizer_spacing_followed_by_line_break() {
    assert_toks(" \t \n", vec![t("s", " \t ", 1, 1), t("b", "lf", 1, 4)]);
    assert_toks(" \t \r\n", vec![t("s", " \t ", 1, 1), t("b", "crlf", 1, 4)]);
}

#[test]
fn line_break() {
    assert_toks("\n", vec![t("b", "lf", 1, 1)]);
    assert_toks("\r\n", vec![t("b", "crlf", 1, 1)]);
}

#[test]
fn line_break_followed_by_unquoted_value() {
    assert_toks("\nabc", vec![t("b", "lf", 1, 1), t("u", "abc", 2, 1)]);
    assert_toks("\r\nabc", vec![t("b", "crlf", 1, 1), t("u", "abc", 2, 1)]);
}

#[test]
fn lf_line_break_following_a_value_and_followed_by_unquoted_value() {
    assert_toks(
        "abc\ndef",
        vec![t("u", "abc", 1, 1), t("b", "lf", 1, 4), t("u", "def", 2, 1)],
    );
}

#[test]
fn lf_line_break_following_a_value_and_followed_by_quoted_value() {
    assert_toks(
        "abc\n\"def\"",
        vec![t("u", "abc", 1, 1), t("b", "lf", 1, 4), t("q", "def", 2, 1)],
    );
}

#[test]
fn lf_line_break_following_a_value_and_followed_by_spacing() {
    assert_toks(
        "abc\n \t ",
        vec![t("u", "abc", 1, 1), t("b", "lf", 1, 4), t("s", " \t ", 2, 1)],
    );
}

#[test]
fn lf_line_break_following_a_value_and_followed_by_line_break() {
    assert_toks(
        "abc\n\n",
        vec![t("u", "abc", 1, 1), t("b", "lf", 1, 4), t("b", "lf", 2, 1)],
    );
    assert_toks(
        "abc\n\r\n",
        vec![t("u", "abc", 1, 1), t("b", "lf", 1, 4), t("b", "crlf", 2, 1)],
    );
}

#[test]
fn comment() {
    assert_toks("#comment", vec![t("c", "comment", 1, 1)]);
}

#[test]
fn comment_containing_quote() {
    assert_toks("#com\"ment", vec![t("c", "com\"ment", 1, 1)]);
}

#[test]
fn comment_containing_spacing() {
    assert_toks("#com ment", vec![t("c", "com ment", 1, 1)]);
}

#[test]
fn tokenizer_comment_followed_by_line_break() {
    assert_toks("#comment\n", vec![t("c", "comment", 1, 1), t("b", "lf", 1, 9)]);
    assert_toks("#comment\r\n", vec![t("c", "comment", 1, 1), t("b", "crlf", 1, 9)]);
}

#[test]
fn comment_following_line_break_following_a_value() {
    assert_toks(
        "abc\n#comment",
        vec![t("u", "abc", 1, 1), t("b", "lf", 1, 4), t("c", "comment", 2, 1)],
    );
    assert_toks(
        "abc\r\n#comment",
        vec![t("u", "abc", 1, 1), t("b", "crlf", 1, 4), t("c", "comment", 2, 1)],
    );
}

#[test]
fn hash_after_spacing_is_not_comment() {
    assert_toks(
        " \t #not-a-comment",
        vec![t("s", " \t ", 1, 1), t("u", "#not-a-comment", 1, 4)],
    );
}
