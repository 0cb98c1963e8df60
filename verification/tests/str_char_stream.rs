use parcom_streams::str_char_stream::{StrAdvance, StrCharStream, StrNodes};

fn nodes_of(texts: &[&str], ended: bool) -> StrNodes {
    let mut nodes = StrNodes::new();
    for t in texts {
        nodes.push(Some(t.to_string()));
    }
    if ended {
        nodes.push(None);
    }
    nodes
}

#[test]
fn segments_follow_the_nodes() {
    let nodes = nodes_of(&["hello", "wörld"], false);
    let s = StrCharStream::new();
    assert_eq!(s.segment(&nodes, 0), Some("hello"));
    assert_eq!(s.segment(&nodes, 1), Some("wörld"));
    assert_eq!(s.segment(&nodes, 2), None);
    assert_eq!(nodes.len(), 2);
    assert!(!nodes.is_ended());
}

#[test]
fn advance_counts_node_by_node() {
    let nodes = nodes_of(&["hello", "world!"], false);
    let s = StrCharStream::new();
    match s.advance(&nodes, 7) {
        StrAdvance::Done(t) => {
            assert_eq!(t.segment(&nodes, 0), Some("rld!"));
            assert_eq!(t.segment(&nodes, 1), None);
            match t.advance(&nodes, 1) {
                StrAdvance::Done(u) => assert_eq!(u.segment(&nodes, 0), Some("ld!")),
                StrAdvance::NeedMore => panic!("the texts reach far enough"),
            }
        }
        StrAdvance::NeedMore => panic!("the texts reach far enough"),
    }
    match s.advance(&nodes, 5) {
        StrAdvance::Done(t) => {
            assert_eq!(t.segment(&nodes, 0), Some(""));
            assert_eq!(t.segment(&nodes, 1), Some("world!"));
        }
        StrAdvance::NeedMore => panic!("the texts reach far enough"),
    }
    assert_eq!(s.advance(&nodes, 12), StrAdvance::NeedMore);
}

#[test]
fn advance_skips_exactly_the_count() {
    let nodes = nodes_of(&["abcdef"], false);
    match StrCharStream::new().advance(&nodes, 2) {
        StrAdvance::Done(t) => {
            assert_eq!(t.segment(&nodes, 0), Some("cdef"));
            assert!(t.readable(&nodes));
        }
        StrAdvance::NeedMore => panic!("the text reaches far enough"),
    }
}

#[test]
fn readable_only_on_a_character_boundary() {
    let nodes = nodes_of(&["wörld"], false);
    match StrCharStream::new().advance(&nodes, 2) {
        StrAdvance::Done(t) => assert!(!t.readable(&nodes)),
        StrAdvance::NeedMore => panic!("the text reaches far enough"),
    }
    match StrCharStream::new().advance(&nodes, 3) {
        StrAdvance::Done(t) => {
            assert!(t.readable(&nodes));
            assert_eq!(t.segment(&nodes, 0), Some("rld"));
        }
        StrAdvance::NeedMore => panic!("the text reaches far enough"),
    }
}

#[test]
fn advance_past_an_ended_source() {
    let nodes = nodes_of(&["ab", "cd"], true);
    let s = StrCharStream::new();
    match s.advance(&nodes, 10) {
        StrAdvance::Done(t) => assert_eq!(t.segment(&nodes, 0), None),
        StrAdvance::NeedMore => panic!("the source ended"),
    }
}
