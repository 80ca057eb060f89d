//! Reader behavior over both element domains: rows of decoded values,
//! comment skipping, blank lines, and error propagation.

fn rows_bytes(input: &[u8]) -> (Vec<Vec<String>>, Option<String>) {
    let mut rd = ssv::bytes::Reader::new(input.to_vec());
    let mut rows: Vec<Vec<String>> = Vec::new();
    let mut err: Option<String> = None;
    loop {
        match rd.next() {
            None => break,
            Some(Ok(row)) => {
                rows.push(
                    row.into_iter().map(|v| String::from_utf8(v).unwrap()).collect(),
                );
            }
            Some(Err(e)) => {
                err = Some(format!("{:?}", e));
            }
        }
    }
    assert!(rd.next().is_none());
    (rows, err)
}

fn rows_chars(input: &str) -> (Vec<Vec<String>>, Option<String>) {
    let mut rd = ssv::chars::Reader::new(input.chars().collect());
    let mut rows: Vec<Vec<String>> = Vec::new();
    let mut err: Option<String> = None;
    loop {
        match rd.next() {
            None => break,
            Some(Ok(row)) => {
                rows.push(row.into_iter().map(|v| v.into_iter().collect()).collect());
            }
            Some(Err(e)) => {
                err = Some(format!("{:?}", e));
            }
        }
    }
    assert!(rd.next().is_none());
    (rows, err)
}

fn assert_rows(input: &str, expected: Vec<Vec<&str>>) {
    let expected: Vec<Vec<String>> = expected
        .into_iter()
        .map(|r| r.into_iter().map(|v| v.to_string()).collect())
        .collect();
    let (rows, err) = rows_bytes(input.as_bytes());
    assert_eq!(rows, expected);
    assert_eq!(err, None);
    let (rows, err) = rows_chars(input);
    assert_eq!(rows, expected);
    assert_eq!(err, None);
}

#[test]
fn reader_empty_input() {
    assert_rows("", vec![]);
}

#[test]
fn some_input() {
    assert_rows(
        "abc \"def\"\n# comment\n  \"123 456\"\n",
        vec![vec!["abc", "def"], vec!["123 456"]],
    );
    assert_rows(
        "abc \"def\"\r\n# comment\r\n  \"123 456\"\r\n",
        vec![vec!["abc", "def"], vec!["123 456"]],
    );
}

#[test]
fn empty_line() {
    assert_rows("\nabc\n", vec![vec![], vec!["abc"]]);
    assert_rows("\r\nabc\r\n", vec![vec![], vec!["abc"]]);
}

#[test]
fn last_line_without_line_break() {
    assert_rows("abc\ndef", vec![vec!["abc"], vec!["def"]]);
    assert_rows("abc\r\ndef", vec![vec!["abc"], vec!["def"]]);
}

#[test]
fn last_line_is_comment_without_line_break() {
    assert_rows("abc\n# comment", vec![vec!["abc"]]);
    assert_rows("abc\r\n# comment", vec![vec!["abc"]]);
}

#[test]
fn error_ends_iteration_and_drops_partial_row() {
    // The value "abc" is already accumulated when the unclosed quote is
    // found; the partial row is lost and only the error comes out.
    let (rows, err) = rows_bytes(b"abc \"");
    assert_eq!(rows, Vec::<Vec<String>>::new());
    assert_eq!(err, Some("UnclosedQuotedValue(Position { line_number: 1, column_number: 6 })".to_string()));
    let (rows, err) = rows_chars("abc \"");
    assert_eq!(rows, Vec::<Vec<String>>::new());
    assert_eq!(err, Some("UnclosedQuotedValue(Position { line_number: 1, column_number: 6 })".to_string()));

    // Complete rows before the error still come out first.
    let (rows, err) = rows_bytes(b"abc\ndef\"x");
    assert_eq!(rows, vec![vec!["abc".to_string()]]);
    assert_eq!(err, Some("UnpairedQuote(Position { line_number: 2, column_number: 4 })".to_string()));
}

#[test]
fn error() {
    // In the bytes domain arbitrary bytes are ordinary value elements,
    // so this input simply parses.
    let input: &[u8] = b"a\nb\xFF cdef";
    let mut rd = ssv::bytes::Reader::new(input.to_vec());
    let row = rd.next().unwrap().unwrap();
    assert_eq!(row, vec![b"a".to_vec()]);
    let row = rd.next().unwrap().unwrap();
    assert_eq!(row, vec![b"b\xFF".to_vec(), b"cdef".to_vec()]);
    assert!(rd.next().is_none());
}
