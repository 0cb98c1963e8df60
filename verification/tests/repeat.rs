use parcom_streams::repeat::{matches_at, repeat_atom};

#[test]
fn repeat_reads_copies_back_to_back() {
    let input = "texttexttextaaaa";
    let (count, len) = repeat_atom(input.as_bytes(), b"text");
    assert_eq!(count, 3);
    assert_eq!(len, 12);
    assert_eq!(&input[len..], "aaaa");
}

#[test]
fn repeat_of_nothing_matching() {
    assert_eq!(repeat_atom(b"aaaa", b"text"), (0, 0));
    assert_eq!(repeat_atom(b"", b"text"), (0, 0));
    assert_eq!(repeat_atom(b"tex", b"text"), (0, 0));
    assert_eq!(repeat_atom(b"abab", b"ab"), (2, 4));
}

#[test]
fn matches_at_positions() {
    assert!(matches_at(b"xxtext", 2, b"text"));
    assert!(!matches_at(b"xxtext", 1, b"text"));
    assert!(!matches_at(b"xxtex", 2, b"text"));
    assert!(matches_at(b"abc", 3, b""));
}
