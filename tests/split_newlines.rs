use ingest::framing::split_newlines;

fn lines(v: &[&str]) -> Vec<Vec<u8>> {
    v.iter().map(|s| s.as_bytes().to_vec()).collect()
}

#[test]
fn split_newlines_no_newline() {
    let split = split_newlines("ab\rc".as_bytes());

    assert_eq!(split, lines(&["ab\rc"]));
}

#[test]
fn split_newlines_nls() {
    let split = split_newlines("a\nb\nc".as_bytes());

    assert_eq!(split, lines(&["a", "b", "c"]));
}

#[test]
fn split_newlines_crnls() {
    let split = split_newlines("a\r\nb\r\nc".as_bytes());

    assert_eq!(split, lines(&["a", "b", "c"]));
}

#[test]
fn split_newlines_several_nls() {
    let split = split_newlines("a\n\n\nb\n\n\nc".as_bytes());

    assert_eq!(split, lines(&["a", "b", "c"]));
}

#[test]
fn split_newlines_several_cr_nls() {
    let split = split_newlines("a\r\n\r\n\nb\r\n\r\n\r\nc".as_bytes());

    assert_eq!(split, lines(&["a", "b", "c"]));
}

#[test]
fn split_newlines_trailing_newline() {
    let split = split_newlines("abc\n".as_bytes());

    assert_eq!(split, lines(&["abc"]));
}

#[test]
fn split_newlines_trailing_crnl() {
    let split = split_newlines("abc\r\n".as_bytes());

    assert_eq!(split, lines(&["abc"]));
}

#[test]
fn split_newlines_trailing_newlines() {
    let split = split_newlines("abc\n\n".as_bytes());

    assert_eq!(split, lines(&["abc"]));
}

#[test]
fn split_newlines_trailing_crnls() {
    let split = split_newlines("abc\r\n\r\n".as_bytes());

    assert_eq!(split, lines(&["abc"]));
}

#[test]
fn split_newlines_extra_carriage_return() {
    let split = split_newlines("a\r\r\nb\r\r\nc\r\r\n".as_bytes());

    assert_eq!(split, lines(&["a\r", "b\r", "c\r"]));
}

#[test]
fn split_newlines_empty() {
    let split = split_newlines("".as_bytes());

    assert_eq!(split.len(), 0);
}

#[test]
fn split_newlines_only_newlines() {
    let split = split_newlines("\n\n".as_bytes());

    assert_eq!(split.len(), 0);
}

#[test]
fn test_no_newline() {
    let split = split_newlines("ab\rc".as_bytes());

    assert_eq!(split, lines(&["ab\rc"]));
}

#[test]
fn test_nls() {
    let split = split_newlines("a\nb\nc".as_bytes());

    assert_eq!(split, lines(&["a", "b", "c"]));
}

#[test]
fn test_crnls() {
    let split = split_newlines("a\r\nb\r\nc".as_bytes());

    assert_eq!(split, lines(&["a", "b", "c"]));
}

#[test]
fn test_several_nls() {
    let split = split_newlines("a\n\n\nb\n\n\nc".as_bytes());

    assert_eq!(split, lines(&["a", "b", "c"]));
}

#[test]
fn test_several_cr_nls() {
    let split = split_newlines("a\r\n\r\n\nb\r\n\r\n\r\nc".as_bytes());

    assert_eq!(split, lines(&["a", "b", "c"]));
}

#[test]
fn test_trailing_newline() {
    let split = split_newlines("abc\n".as_bytes());

    assert_eq!(split, lines(&["abc"]));
}

#[test]
fn test_trailing_crnl() {
    let split = split_newlines("abc\r\n".as_bytes());

    assert_eq!(split, lines(&["abc"]));
}

#[test]
fn test_trailing_newlines() {
    let split = split_newlines("abc\n\n".as_bytes());

    assert_eq!(split, lines(&["abc"]));
}

#[test]
fn test_trailing_crnls() {
    let split = split_newlines("abc\r\n\r\n".as_bytes());

    assert_eq!(split, lines(&["abc"]));
}

#[test]
fn test_extra_carriage_return() {
    let split = split_newlines("a\r\r\nb\r\r\nc\r\r\n".as_bytes());

    assert_eq!(split, lines(&["a\r", "b\r", "c\r"]));
}

#[test]
fn test_empty() {
    let split = split_newlines("".as_bytes());

    assert_eq!(split.len(), 0);
}

#[test]
fn test_only_newlines() {
    let split = split_newlines("\n\n".as_bytes());

    assert_eq!(split.len(), 0);
}
