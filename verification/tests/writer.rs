//! Row-oriented writer behavior over both element domains.

use ssv::bytes::LineBreak;

fn bv(s: &str) -> Vec<u8> {
    s.bytes().collect()
}

fn cv(s: &str) -> Vec<char> {
    s.chars().collect()
}

fn bs(v: Vec<u8>) -> String {
    String::from_utf8(v).unwrap()
}

fn cs(v: Vec<char>) -> String {
    v.into_iter().collect()
}

fn brows(rows: Vec<Vec<&str>>) -> Vec<Vec<Vec<u8>>> {
    rows.into_iter().map(|r| r.into_iter().map(bv).collect()).collect()
}

fn crows(rows: Vec<Vec<&str>>) -> Vec<Vec<Vec<char>>> {
    rows.into_iter().map(|r| r.into_iter().map(cv).collect()).collect()
}

#[test]
fn write_rows() {
    let rows = vec![vec!["abc", "def ghi"], vec!["#not-a-comment", "123 456", "789"]];
    let expected = "abc \"def ghi\"\n\"#not-a-comment\" \"123 456\" 789\n";

    let mut w = ssv::bytes::Writer::new(Vec::new());
    w.write_rows(&brows(rows.clone())).unwrap();
    assert_eq!(bs(w.finish().unwrap()), expected);

    let mut w = ssv::chars::Writer::new(Vec::new());
    w.write_rows(&crows(rows)).unwrap();
    assert_eq!(cs(w.finish().unwrap()), expected);
}

#[test]
fn write_row_and_write_comment_line() {
    let expected =
        "abc \"def ghi\"\n#this is a comment\n\"#not-a-comment\" \"123 456\" 789\n";

    let mut w = ssv::bytes::Writer::new(Vec::new());
    w.write_row(&brows(vec![vec!["abc", "def ghi"]]).remove(0)).unwrap();
    w.write_comment_line(&bv("this is a comment")).unwrap();
    w.write_row(&brows(vec![vec!["#not-a-comment", "123 456", "789"]]).remove(0)).unwrap();
    assert_eq!(bs(w.finish().unwrap()), expected);

    let mut w = ssv::chars::Writer::new(Vec::new());
    w.write_row(&crows(vec![vec!["abc", "def ghi"]]).remove(0)).unwrap();
    w.write_comment_line(&cv("this is a comment")).unwrap();
    w.write_row(&crows(vec![vec!["#not-a-comment", "123 456", "789"]]).remove(0)).unwrap();
    assert_eq!(cs(w.finish().unwrap()), expected);
}

#[test]
fn row_writer_write_values() {
    let expected = "abc \"def ghi\"\n\"#not-a-comment\" \"123 456\" 789\n";

    let w = ssv::bytes::Writer::new(Vec::new());
    let mut row = w.new_row();
    row.write_values(&brows(vec![vec!["abc", "def ghi"]]).remove(0)).unwrap();
    let w = row.finish().unwrap();
    let mut row = w.new_row();
    row.write_values(&brows(vec![vec!["#not-a-comment", "123 456"]]).remove(0)).unwrap();
    row.write_values(&brows(vec![vec!["789"]]).remove(0)).unwrap();
    let w = row.finish().unwrap();
    assert_eq!(bs(w.finish().unwrap()), expected);

    let w = ssv::chars::Writer::new(Vec::new());
    let mut row = w.new_row();
    row.write_values(&crows(vec![vec!["abc", "def ghi"]]).remove(0)).unwrap();
    let w = row.finish().unwrap();
    let mut row = w.new_row();
    row.write_values(&crows(vec![vec!["#not-a-comment", "123 456"]]).remove(0)).unwrap();
    row.write_values(&crows(vec![vec!["789"]]).remove(0)).unwrap();
    let w = row.finish().unwrap();
    assert_eq!(cs(w.finish().unwrap()), expected);
}

#[test]
fn row_writer_write_value() {
    let expected = "abc \"def ghi\"\n\"#not-a-comment\" \"123 456\" 789\n";

    let w = ssv::bytes::Writer::new(Vec::new());
    let mut row = w.new_row();
    row.write_value(&bv("abc")).unwrap();
    row.write_value(&bv("def ghi")).unwrap();
    let w = row.finish().unwrap();
    let mut row = w.new_row();
    row.write_value(&bv("#not-a-comment")).unwrap();
    row.write_value(&bv("123 456")).unwrap();
    row.write_value(&bv("789")).unwrap();
    let w = row.finish().unwrap();
    assert_eq!(bs(w.finish().unwrap()), expected);

    let w = ssv::chars::Writer::new(Vec::new());
    let mut row = w.new_row();
    row.write_value(&cv("abc")).unwrap();
    row.write_value(&cv("def ghi")).unwrap();
    let w = row.finish().unwrap();
    let mut row = w.new_row();
    row.write_value(&cv("#not-a-comment")).unwrap();
    row.write_value(&cv("123 456")).unwrap();
    row.write_value(&cv("789")).unwrap();
    let w = row.finish().unwrap();
    assert_eq!(cs(w.finish().unwrap()), expected);
}

#[test]
fn row_writer_write_spacing() {
    let expected = "abc \t \"def ghi\"\n   #not-a-comment \"123 456\" 789\t \t\n";

    let w = ssv::bytes::Writer::new(Vec::new());
    let mut row = w.new_row();
    row.write_value(&bv("abc")).unwrap();
    row.write_spacing(&bv(" \t ")).unwrap();
    row.write_value(&bv("def ghi")).unwrap();
    let w = row.finish().unwrap();
    let mut row = w.new_row();
    row.write_spacing(&bv("   ")).unwrap();
    row.write_value(&bv("#not-a-comment")).unwrap();
    row.write_value(&bv("123 456")).unwrap();
    row.write_value(&bv("789")).unwrap();
    row.write_spacing(&bv("\t \t")).unwrap();
    let w = row.finish().unwrap();
    assert_eq!(bs(w.finish().unwrap()), expected);

    let w = ssv::chars::Writer::new(Vec::new());
    let mut row = w.new_row();
    row.write_value(&cv("abc")).unwrap();
    row.write_spacing(&cv(" \t ")).unwrap();
    row.write_value(&cv("def ghi")).unwrap();
    let w = row.finish().unwrap();
    let mut row = w.new_row();
    row.write_spacing(&cv("   ")).unwrap();
    row.write_value(&cv("#not-a-comment")).unwrap();
    row.write_value(&cv("123 456")).unwrap();
    row.write_value(&cv("789")).unwrap();
    row.write_spacing(&cv("\t \t")).unwrap();
    let w = row.finish().unwrap();
    assert_eq!(cs(w.finish().unwrap()), expected);
}

#[test]
fn writer_default_spacing() {
    let rows = vec![vec!["abc", "def ghi"], vec!["#not-a-comment", "123 456", "789"]];
    let expected = "abc \t \"def ghi\"\n\"#not-a-comment\" \t \"123 456\" \t 789\n";

    let mut w = ssv::bytes::Writer::new(Vec::new());
    w.options_mut().set_default_spacing(bv(" \t ")).unwrap();
    w.write_rows(&brows(rows.clone())).unwrap();
    assert_eq!(bs(w.finish().unwrap()), expected);

    let mut w = ssv::chars::Writer::new(Vec::new());
    w.options_mut().set_default_spacing(cv(" \t ")).unwrap();
    w.write_rows(&crows(rows)).unwrap();
    assert_eq!(cs(w.finish().unwrap()), expected);
}

#[test]
fn writer_default_line_break() {
    let rows = vec![vec!["abc", "def ghi"], vec!["#not-a-comment", "123 456", "789"]];
    let expected = "abc \"def ghi\"\r\n\"#not-a-comment\" \"123 456\" 789\r\n";

    let mut w = ssv::bytes::Writer::new(Vec::new());
    w.options_mut().set_default_line_break(LineBreak::CrLf);
    w.write_rows(&brows(rows.clone())).unwrap();
    assert_eq!(bs(w.finish().unwrap()), expected);

    let mut w = ssv::chars::Writer::new(Vec::new());
    w.options_mut().set_default_line_break(LineBreak::CrLf);
    w.write_rows(&crows(rows)).unwrap();
    assert_eq!(cs(w.finish().unwrap()), expected);
}

#[test]
fn writer_always_quoted() {
    let rows = vec![vec!["abc", "def ghi"], vec!["#not-a-comment", "123 456", "789"]];
    let expected = "\"abc\" \"def ghi\"\n\"#not-a-comment\" \"123 456\" \"789\"\n";

    let mut w = ssv::bytes::Writer::new(Vec::new());
    w.options_mut().set_always_quoted(true);
    w.write_rows(&brows(rows.clone())).unwrap();
    assert_eq!(bs(w.finish().unwrap()), expected);

    let mut w = ssv::chars::Writer::new(Vec::new());
    w.options_mut().set_always_quoted(true);
    w.write_rows(&crows(rows)).unwrap();
    assert_eq!(cs(w.finish().unwrap()), expected);
}
