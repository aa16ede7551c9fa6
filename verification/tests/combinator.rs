use specker::lexer::Contents;
use specker::FilePosition;

fn trim(text: &[u8]) -> Vec<u8> {
    let c = Contents::new(text, FilePosition::new(), FilePosition::new().advanced(text.len()));
    c.trimmed().slice.to_vec()
}

fn trim_pos(text: &[u8]) -> Contents<'_> {
    let c = Contents::new(text, FilePosition::new(), FilePosition::new().advanced(text.len()));
    c.trimmed()
}

#[test]
fn test_trim() {
    assert_eq!(trim(b""), b"");
    assert_eq!(trim(b" "), b"");
    assert_eq!(trim(b"\t"), b"");
    assert_eq!(trim(b"a"), b"a");
    assert_eq!(trim(b" a"), b"a");
    assert_eq!(trim(b"a "), b"a");
    assert_eq!(trim(b" a "), b"a");
}

#[test]
fn test_trim_position() {
    let trimmed = trim_pos(b" d ");
    assert_eq!(trimmed.slice, b"d");
    assert_eq!(trimmed.lo.byte, 1);
    assert_eq!(trimmed.hi.byte, 2);
}
