//! The top-level read and write helpers of both domain modules.

fn bv(s: &str) -> Vec<u8> {
    s.bytes().collect()
}

fn cv(s: &str) -> Vec<char> {
    s.chars().collect()
}

#[test]
fn tests_read() {
    let mut reader = ssv::bytes::read(bv("abc def\n123 456\n"));
    let row = reader.next().unwrap().unwrap();
    assert_eq!(row, vec![bv("abc"), bv("def")]);
    let row = reader.next().unwrap().unwrap();
    assert_eq!(row, vec![bv("123"), bv("456")]);
    assert!(reader.next().is_none());

    let mut reader = ssv::chars::read(cv("abc def\n123 456\n"));
    let row = reader.next().unwrap().unwrap();
    assert_eq!(row, vec![cv("abc"), cv("def")]);
    let row = reader.next().unwrap().unwrap();
    assert_eq!(row, vec![cv("123"), cv("456")]);
    assert!(reader.next().is_none());
}

#[test]
fn tests_write() {
    let rows = vec![vec![bv("abc"), bv("def")], vec![bv("123"), bv("456")]];
    let out = ssv::bytes::write(Vec::new(), &rows).unwrap();
    assert_eq!(out, bv("abc def\n123 456\n"));

    let rows = vec![vec![cv("abc"), cv("def")], vec![cv("123"), cv("456")]];
    let out = ssv::chars::write(Vec::new(), &rows).unwrap();
    assert_eq!(out, cv("abc def\n123 456\n"));
}
