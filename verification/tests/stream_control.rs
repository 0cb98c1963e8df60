use parcom_streams::buffer_writer::VecBufferWriter;
use parcom_streams::iterator_source::IteratorSource;
use parcom_streams::stream_control::{Response, VecControl, VecDequeControl};
use parcom_streams::vecdeque_buffer_writer::VecDequeBufferWriter;
use std::collections::VecDeque;

#[test]
fn vec_buffer_writer_appends_and_cancels() {
    let w = VecBufferWriter::new(vec![1u8, 2]);
    let mut req = w.request_buffer(3);
    assert_eq!(req.buffer().len(), 3);
    req.buffer()[0] = 7;
    req.set(1, 8);
    assert_eq!(req.region(), &[7, 8, 0]);
    assert_eq!(req.advance(2), vec![1, 2, 7, 8]);

    let w = VecBufferWriter::new(vec![1u8, 2]);
    let mut req = w.request_buffer(4);
    req.set(0, 9);
    assert_eq!(req.cancel(), vec![1, 2]);

    assert_eq!(VecBufferWriter::new(vec![5u8]).finish(), vec![5]);
}

#[test]
fn vecdeque_buffer_writer_appends_contiguously() {
    let mut deque: VecDeque<u8> = VecDeque::with_capacity(4);
    deque.push_back(1);
    deque.push_back(2);
    deque.pop_front();
    deque.push_back(3);
    let w = VecDequeBufferWriter::new(deque);
    let mut req = w.request_buffer(3);
    {
        let b = req.buffer();
        assert_eq!(b.len(), 3);
        b[0] = 4;
        b[1] = 5;
    }
    let out = req.advance(2);
    assert_eq!(out.iter().cloned().collect::<Vec<_>>(), vec![2, 3, 4, 5]);

    let w = VecDequeBufferWriter::new(VecDeque::from(vec![1u8]));
    let req = w.request_buffer(2);
    assert_eq!(req.cancel(), VecDeque::from(vec![1u8]));
    assert_eq!(VecDequeBufferWriter::new(VecDeque::from(vec![6u8])).finish(), VecDeque::from(vec![6u8]));
}

#[test]
fn vec_control_responses() {
    let c: VecControl<u8, &str> = VecControl::new(vec![1]);
    let mut req = c.request_buffer(2);
    req.set(0, 2);
    match req.advance(1) {
        Response::Advance(v) => assert_eq!(v, vec![1, 2]),
        _ => panic!("advance"),
    }
    let c: VecControl<u8, &str> = VecControl::new(vec![1]);
    match c.cancel("bad") {
        Response::Cancel(v, e) => {
            assert_eq!(v, vec![1]);
            assert_eq!(e, "bad");
        }
        _ => panic!("cancel"),
    }
    let c: VecControl<u8, &str> = VecControl::new(vec![3]);
    match c.finish() {
        Response::Finish(v) => assert_eq!(v, vec![3]),
        _ => panic!("finish"),
    }
    let c: VecControl<u8, &str> = VecControl::new(vec![1]);
    let mut req = c.request_buffer(2);
    req.buffer()[1] = 9;
    match req.cancel("stop") {
        Response::Cancel(v, e) => {
            assert_eq!(v, vec![1]);
            assert_eq!(e, "stop");
        }
        _ => panic!("cancel"),
    }
}

#[test]
fn vecdeque_control_responses() {
    let c: VecDequeControl<u8, ()> = VecDequeControl::new(VecDeque::from(vec![1u8]));
    let mut req = c.request_buffer(2);
    req.buffer()[0] = 2;
    match req.advance(1) {
        Response::Advance(v) => assert_eq!(v, VecDeque::from(vec![1u8, 2])),
        _ => panic!("advance"),
    }
    let c: VecDequeControl<u8, ()> = VecDequeControl::new(VecDeque::from(vec![1u8]));
    match c.finish() {
        Response::Finish(v) => assert_eq!(v, VecDeque::from(vec![1u8])),
        _ => panic!("finish"),
    }
}

#[test]
fn iterator_source_hands_out_segments_then_finishes() {
    let mut src = IteratorSource::new(vec![vec![1u8, 2], vec![], vec![3]]);
    let mut buf = Vec::new();
    let mut finished = false;
    for _ in 0..4 {
        match src.next::<()>(VecControl::new(buf), 0) {
            Response::Advance(v) => buf = v,
            Response::Finish(v) => {
                buf = v;
                finished = true;
                break;
            }
            Response::Cancel(..) => panic!("no error"),
        }
    }
    assert!(finished);
    assert_eq!(buf, vec![1, 2, 3]);
}

#[test]
fn vecdeque_region_in_the_wrapped_part_is_whole() {
    let mut deque: VecDeque<u8> = VecDeque::with_capacity(4);
    for x in [1u8, 2, 3, 4] {
        deque.push_back(x);
    }
    for _ in 0..3 {
        deque.pop_front();
    }
    let w = VecDequeBufferWriter::new(deque);
    let mut req = w.request_buffer(3);
    {
        let b = req.buffer();
        assert_eq!(b, &[0u8, 0, 0]);
        b[0] = 5;
        b[1] = 6;
        b[2] = 7;
    }
    let out = req.advance(3);
    assert_eq!(out.iter().cloned().collect::<Vec<_>>(), vec![4, 5, 6, 7]);
}
