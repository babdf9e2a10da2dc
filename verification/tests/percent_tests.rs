use paper_store::percent::urlencoding_decode;

#[test]
fn decodes_space_escape() {
    assert_eq!(urlencoding_decode(b"fig%201.png"), b"fig 1.png".to_vec());
}

#[test]
fn invalid_escape_passes_through() {
    assert_eq!(urlencoding_decode(b"fig%zz.png"), b"fig%zz.png".to_vec());
}

#[test]
fn decodes_uppercase_and_lowercase_digits() {
    assert_eq!(urlencoding_decode(b"%41%6a%4A"), b"AjJ".to_vec());
}

#[test]
fn truncated_escape_passes_through() {
    assert_eq!(urlencoding_decode(b"x%2"), b"x%2".to_vec());
    assert_eq!(urlencoding_decode(b"x%"), b"x%".to_vec());
}

#[test]
fn escape_at_end_is_decoded() {
    assert_eq!(urlencoding_decode(b"a%20"), b"a ".to_vec());
}

#[test]
fn plain_text_is_unchanged() {
    assert_eq!(urlencoding_decode(b"images/fig1.png"), b"images/fig1.png".to_vec());
    assert_eq!(urlencoding_decode(b""), b"".to_vec());
}

#[test]
fn decodes_literal_percent() {
    assert_eq!(urlencoding_decode(b"100%25"), b"100%".to_vec());
}

#[test]
fn consecutive_escapes_decode() {
    assert_eq!(urlencoding_decode(b"%68%65%6c%6c%6f"), b"hello".to_vec());
}
