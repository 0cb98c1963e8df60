use parcom_streams::error::{EitherBoth, Fatal, Miss, ParseError};
use parcom_streams::load_info::LoadInfo;
use parcom_streams::slice::{Nodes, SliceStream};
use parcom_streams::str_stream::StrStream;

#[test]
fn slice_stream_advances_and_rewinds() {
    let data = [1, 2, 3, 4, 5];
    let s = SliceStream::new(&data[..]);
    let anchor = s.anchor();
    let s = s.advance(2);
    let mut segs = s.segments();
    assert_eq!(segs.next(), Some(&[3, 4, 5][..]));
    assert_eq!(segs.next(), None);
    let s = s.advance(3);
    assert_eq!(s.segments().next(), Some(&[][..]));
    let s = s.rewind(anchor);
    assert_eq!(s.segments().next(), Some(&data[..]));
}

#[test]
fn str_stream_skips_its_prefix_on_advance() {
    let s = StrStream::new("héllo");
    let anchor = s.anchor();
    let t = s.advance(3);
    assert_eq!(t.segments().next(), Some("llo"));
    let t = t.advance(2);
    assert_eq!(t.segments().next(), Some("o"));
    let t = t.advance(100);
    assert_eq!(t.segments().next(), Some(""));
    let t = t.rewind(anchor);
    assert_eq!(t.segments().next(), Some("héllo"));
    assert_eq!(StrStream::new("hello").advance(2).segments().next(), Some("llo"));
}

#[test]
fn nodes_hand_out_one_segment() {
    let mut n = Nodes::new("abc");
    assert_eq!(n.next(), Some("abc"));
    assert_eq!(n.next(), None);
}

#[test]
fn parse_errors_tell_whether_to_stop() {
    assert!(Fatal(1).should_terminate());
    assert!(!Miss(1).should_terminate());
    let f: Fatal<u8> = 3.into();
    assert_eq!(f.0, 3);
    let m: Miss<u8> = 4.into();
    assert_eq!(m.0, 4);
    assert!(EitherBoth::<Fatal<()>, Miss<()>>::First(Fatal(())).should_terminate());
    assert!(!EitherBoth::<Fatal<()>, Miss<()>>::Last(Miss(())).should_terminate());
    assert!(EitherBoth::<Miss<()>, Fatal<()>>::Both(Miss(()), Fatal(())).should_terminate());
    assert!(!EitherBoth::<Miss<()>, Miss<()>>::Both(Miss(()), Miss(())).should_terminate());
}

#[test]
fn load_info_reports_its_parts() {
    let info = LoadInfo::new(1, 2, 3);
    assert_eq!(info.committed(), 1);
    assert_eq!(info.uncommitted(), 2);
    assert_eq!(info.buffer_capacity(), 3);
}
