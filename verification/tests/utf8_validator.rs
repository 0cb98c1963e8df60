use parcom_streams::iterator_source::IteratorSource;
use parcom_streams::stream_control::{Response, VecControl};
use parcom_streams::utf8_validator::{Utf8ValidationError, Utf8Validator};

#[test]
fn test_valid() {
    // "a": 1 byte, "Α": 2 bytes, "あ": 3 bytes, "😀": 4 bytes; every pair of
    // neighbouring widths occurs in the text.
    let text = "aaΑaあa😀ΑΑあΑ😀ああ😀😀a";
    let bin = text.as_bytes();

    for i in 0..bin.len() {
        let (l, r) = bin.split_at(i);
        let src = IteratorSource::new(vec![l.to_vec(), r.to_vec()]);
        let mut src = Utf8Validator::new(src);
        let mut buf = Vec::new();

        loop {
            let control = VecControl::new(buf);

            let res = src.next::<()>(control, 0);

            match res {
                Response::Advance(v) => {
                    buf = v;
                    let r = std::str::from_utf8(&buf).unwrap();
                    assert!(text.starts_with(r));
                }
                Response::Finish(v) => {
                    buf = v;
                    let r = std::str::from_utf8(&buf).unwrap();
                    assert!(text.starts_with(r));
                    assert_eq!(r, text);
                    break;
                }
                _ => unreachable!(),
            }
        }
    }
}

#[test]
fn invalid_sequence_cancels_the_load() {
    let src = IteratorSource::new(vec![vec![b'a', 0xff, 0xfe, 0xfd, 0xfc]]);
    let mut src = Utf8Validator::new(src);
    match src.next::<()>(VecControl::new(Vec::new()), 0) {
        Response::Cancel(buf, Utf8ValidationError::InvalidSequence) => assert!(buf.is_empty()),
        _ => panic!("the bytes are not UTF-8"),
    }
}

#[test]
fn incomplete_character_is_held_back() {
    let bytes = "あ".as_bytes().to_vec();
    let src = IteratorSource::new(vec![bytes[..2].to_vec(), bytes[2..].to_vec()]);
    let mut src = Utf8Validator::new(src);
    let buf = match src.next::<()>(VecControl::new(Vec::new()), 0) {
        Response::Advance(v) => v,
        _ => panic!("advance"),
    };
    assert!(buf.is_empty());
    let buf = match src.next::<()>(VecControl::new(buf), 0) {
        Response::Advance(v) => v,
        _ => panic!("advance"),
    };
    assert_eq!(buf, bytes);
}
