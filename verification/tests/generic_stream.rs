use parcom_streams::generic_stream::advance::{advance_head, AdvanceStep};
use parcom_streams::generic_stream::chain::{Cursor, IntermediateNode, NodeChain, NodeRef};
use parcom_streams::generic_stream::loader::{GenericStreamLoader, WriterResult};
use parcom_streams::generic_stream::parameter::GenericStreamParameter;
use parcom_streams::generic_stream::segment_iter::{SegmentIter, SegmentIterNext};
use parcom_streams::generic_stream::segments::{next_segment, SegmentStep};
use parcom_streams::generic_stream::stream::StreamState;
use parcom_streams::stream_driver::{ConcurrentDriver, LoopAction};

const LENGTHS: [usize; 10] = [23, 18, 8, 0, 0, 1, 3, 2, 19, 11];

fn fragmented_serial(lengths: &[usize]) -> Vec<Vec<usize>> {
    let mut offset = 0;
    let mut out = Vec::new();
    for &len in lengths {
        out.push((offset..offset + len).collect());
        offset += len;
    }
    out
}

fn chain_of(segments: &[Vec<usize>]) -> NodeChain<usize> {
    let mut chain = NodeChain::new();
    for (i, s) in segments.iter().enumerate() {
        if i + 1 == segments.len() {
            chain.append(IntermediateNode::new_with(s.clone()));
        } else {
            chain.append(IntermediateNode::new(s.clone()));
        }
    }
    chain
}

fn collect_from(chain: &mut NodeChain<usize>, head: Cursor) -> Vec<usize> {
    let mut cursor = head;
    let mut buf = Vec::new();
    loop {
        match next_segment(chain, &mut cursor) {
            SegmentStep::Segment { node, start, .. } => {
                let segment = chain.segment(node, start);
                assert!(!segment.is_empty());
                buf.extend_from_slice(segment);
            }
            SegmentStep::End => break,
            SegmentStep::Waiting => panic!("the stream is complete"),
        }
    }
    buf
}

fn start() -> Cursor {
    Cursor { node: NodeRef::Head, start: 0 }
}

#[test]
fn iterate_all_twice() {
    let segments = fragmented_serial(&LENGTHS);
    let expected: Vec<usize> = segments.iter().flatten().cloned().collect();
    let mut chain = chain_of(&segments);
    assert_eq!(collect_from(&mut chain, start()), expected);
    assert_eq!(collect_from(&mut chain, start()), expected);
}

#[test]
fn advance_step_by_step() {
    let segments = fragmented_serial(&LENGTHS);
    let expected: Vec<usize> = segments.iter().flatten().cloned().collect();
    let advance_steps = [23, 0, 0, 1, 0, 4, 12, 0, 9, 32, 1, 3, 0, 0, 0];
    assert_eq!(advance_steps.iter().sum::<usize>(), LENGTHS.iter().sum());
    let mut chain = chain_of(&segments);
    let mut head = start();
    let mut offset = 0;
    for step in advance_steps {
        offset += step;
        head = match advance_head(&mut chain, head, step) {
            AdvanceStep::Ready { head, .. } => head,
            AdvanceStep::Waiting { .. } => panic!("the stream is complete"),
        };
        assert_eq!(collect_from(&mut chain, head), &expected[offset..]);
    }
}

#[test]
fn advance_all_before_iteration() {
    let segments = fragmented_serial(&LENGTHS);
    let total: usize = LENGTHS.iter().sum();
    let mut chain = chain_of(&segments);
    match advance_head(&mut chain, start(), total) {
        AdvanceStep::Ready { head, .. } => {
            assert_eq!(collect_from(&mut chain, head), Vec::<usize>::new())
        }
        AdvanceStep::Waiting { .. } => panic!("the stream is complete"),
    }
}

#[test]
fn advance_waits_past_the_appended_data() {
    let segments = fragmented_serial(&[5, 3]);
    let mut chain = NodeChain::new();
    for s in &segments {
        chain.append(IntermediateNode::new(s.clone()));
    }
    match advance_head(&mut chain, start(), 10) {
        AdvanceStep::Waiting { remaining, examined, .. } => {
            assert_eq!(remaining, 2);
            assert_eq!(examined, vec![5, 3]);
        }
        AdvanceStep::Ready { .. } => panic!("only 8 items are there"),
    }
}

#[test]
fn next_segment_waits_at_the_end_of_an_open_stream() {
    let mut chain = NodeChain::new();
    chain.append(IntermediateNode::new(vec![1, 2, 3]));
    let mut cursor = start();
    match next_segment(&mut chain, &mut cursor) {
        SegmentStep::Segment { node, start, examined } => {
            assert_eq!((node, start, examined), (0, 0, 3));
        }
        _ => panic!("a segment is there"),
    }
    assert_eq!(next_segment(&mut chain, &mut cursor), SegmentStep::Waiting);
    chain.append(IntermediateNode::new_with(vec![4]));
    match next_segment(&mut chain, &mut cursor) {
        SegmentStep::Segment { node, start, examined } => {
            assert_eq!((node, start, examined), (1, 0, 1));
        }
        _ => panic!("a segment is there"),
    }
    assert_eq!(next_segment(&mut chain, &mut cursor), SegmentStep::End);
}

#[test]
fn segment_iter_hands_out_everything_in_order() {
    let segments = fragmented_serial(&LENGTHS);
    let expected: Vec<usize> = segments.iter().flatten().cloned().collect();
    let chain = chain_of(&segments);
    let mut iter = SegmentIter::new(start());
    let mut buf = Vec::new();
    let mut loads = 0;
    loop {
        let step = iter.next(&chain);
        let step = match step {
            SegmentIterNext::Load => {
                loads += 1;
                iter.next_after_load(&chain)
            }
            other => other,
        };
        match step {
            SegmentIterNext::Segment { node, start, end } => {
                assert!(end >= start);
                buf.extend_from_slice(&chain.segment(node, start)[..end - start]);
            }
            SegmentIterNext::End => break,
            SegmentIterNext::Load => panic!("nothing more to load"),
        }
    }
    assert_eq!(buf, expected);
    assert_eq!(loads, 0);
}

#[test]
fn segment_iter_asks_for_a_load_at_the_tail() {
    let mut chain = NodeChain::new();
    chain.append(IntermediateNode::new(vec![1, 2]));
    let mut iter = SegmentIter::new(start());
    assert_eq!(iter.next(&chain), SegmentIterNext::Load);
    assert_eq!(
        iter.next_after_load(&chain),
        SegmentIterNext::Segment { node: 0, start: 0, end: 2 }
    );
    chain.append(IntermediateNode::new(vec![3]));
    assert_eq!(iter.next(&chain), SegmentIterNext::Load);
    assert_eq!(
        iter.next_after_load(&chain),
        SegmentIterNext::Segment { node: 1, start: 0, end: 1 }
    );
    chain.append(IntermediateNode::new(vec![4, 5]));
    chain.append(IntermediateNode::new_with(vec![6]));
    assert_eq!(
        iter.next(&chain),
        SegmentIterNext::Segment { node: 2, start: 0, end: 2 }
    );
    assert_eq!(
        iter.next(&chain),
        SegmentIterNext::Segment { node: 3, start: 0, end: 1 }
    );
    assert_eq!(iter.next(&chain), SegmentIterNext::End);
    // the end stays the end
    assert_eq!(iter.next(&chain), SegmentIterNext::End);
    assert_eq!(iter.next_after_load(&chain), SegmentIterNext::End);
    assert_eq!(iter.next(&chain), SegmentIterNext::End);
}

#[test]
fn loader_commits_written_items_as_nodes() {
    let mut chain: NodeChain<u32> = NodeChain::new();
    let mut loader = GenericStreamLoader::new();
    loader.set_min_buffer_size(4);
    let r = loader.complete_load(&mut chain, WriterResult::<u32, ()>::PreAllocated(vec![1, 2]));
    let info = r.unwrap().unwrap();
    assert_eq!((info.committed(), info.uncommitted()), (0, 2));
    assert_eq!(chain.num_nodes(), 0);
    let r = loader.complete_load(&mut chain, WriterResult::<u32, ()>::Allocated(vec![3], 4));
    let info = r.unwrap().unwrap();
    assert_eq!((info.committed(), info.uncommitted()), (2, 1));
    assert!(info.buffer_capacity() >= 4);
    assert_eq!(chain.num_nodes(), 1);
    assert_eq!(chain.segment(0, 0), &[1, 2]);
    let r = loader.complete_load(&mut chain, WriterResult::<u32, ()>::Finish);
    let info = r.unwrap().unwrap();
    assert_eq!((info.committed(), info.uncommitted(), info.buffer_capacity()), (1, 0, 0));
    assert!(chain.is_terminated());
    assert_eq!(chain.segment(1, 0), &[3]);
    let r = loader.complete_load(&mut chain, WriterResult::<u32, ()>::Error(()));
    assert!(matches!(r, Ok(None)));
}

#[test]
fn finish_with_nothing_pending_answers_none_and_ends_the_stream() {
    let mut chain: NodeChain<u32> = NodeChain::new();
    let mut loader = GenericStreamLoader::new();
    let r = loader.complete_load(&mut chain, WriterResult::<u32, ()>::Allocated(vec![1], 4));
    assert!(matches!(r, Ok(Some(_))));
    let r = loader.complete_load(&mut chain, WriterResult::<u32, ()>::Allocated(vec![], 4));
    assert!(matches!(r, Ok(Some(_))));
    let r = loader.complete_load(&mut chain, WriterResult::<u32, ()>::Finish);
    assert!(matches!(r, Ok(None)));
    assert!(chain.is_terminated());
    assert_eq!(loader.pending_len(), 0);
    let mut cursor = start();
    let mut items = Vec::new();
    loop {
        match next_segment(&mut chain, &mut cursor) {
            SegmentStep::Segment { node, start, .. } => items.extend_from_slice(chain.segment(node, start)),
            SegmentStep::End => break,
            SegmentStep::Waiting => panic!("the stream ended"),
        }
    }
    assert_eq!(items, vec![1]);
}

#[test]
fn loader_reports_source_errors() {
    let mut chain: NodeChain<u32> = NodeChain::new();
    let mut loader = GenericStreamLoader::new();
    let r = loader.complete_load(&mut chain, WriterResult::<u32, &str>::Error("broken"));
    assert!(matches!(r, Err("broken")));
    assert_eq!(chain.num_nodes(), 0);
}

#[test]
fn force_commit_appends_pending_items() {
    let mut chain: NodeChain<u32> = NodeChain::new();
    let mut loader = GenericStreamLoader::new();
    loader.force_commit(&mut chain);
    assert_eq!(chain.num_nodes(), 0);
    let _ = loader.complete_load(&mut chain, WriterResult::<u32, ()>::PreAllocated(vec![7, 8]));
    loader.force_commit(&mut chain);
    assert_eq!(chain.num_nodes(), 1);
    assert_eq!(chain.segment(0, 1), &[8]);
}

#[test]
fn parameter_capacity() {
    let p = GenericStreamParameter::default();
    assert_eq!(p.calc_new_segment_capacity(0), 16);
    let p = GenericStreamParameter::default().with_min_capacity(64);
    assert_eq!(p.calc_new_segment_capacity(10), 64);
    assert_eq!(p.calc_new_segment_capacity(100), 100);
}

#[test]
fn intermediate_node_examined_only_grows() {
    let mut node = IntermediateNode::new(vec![1u8, 2, 3, 4]);
    assert_eq!(node.set_examined(2), 2);
    assert_eq!(node.set_examined(1), 0);
    assert_eq!(node.set_examined(4), 2);
    assert_eq!(node.len(), 4);
    assert_eq!(node.segment(3), &[4]);
    assert!(!node.is_followed_by_sentinel());
    assert!(IntermediateNode::new_with(vec![0u8]).is_followed_by_sentinel());
}


#[test]
fn shared_state_counts_appended_minus_examined() {
    let (context, _) = ConcurrentDriver::new(2, 4, ()).start();
    let mut state: StreamState<u32> = StreamState::new(context);
    let mut loader = GenericStreamLoader::new();

    let action = state.complete_load(&mut loader, WriterResult::<u32, ()>::PreAllocated(vec![1, 2, 3]));
    assert!(matches!(action, LoopAction::Continue { notify_append: false, wait_for_resume: false }));
    assert_eq!(state.appended_len(), 0);
    assert_eq!(loader.pending_len(), 3);

    let action = state.complete_load(&mut loader, WriterResult::<u32, ()>::Allocated(vec![4, 5], 4));
    assert!(matches!(action, LoopAction::Continue { notify_append: true, wait_for_resume: false }));
    assert_eq!(state.appended_len(), 3);
    assert_eq!(state.driver_context().unexamined_len(), 3);

    let action = state.complete_load(&mut loader, WriterResult::<u32, ()>::Finish);
    assert!(matches!(action, LoopAction::Continue { notify_append: true, wait_for_resume: true }));
    assert_eq!(state.appended_len(), 5);
    assert_eq!(state.driver_context().unexamined_len(), 5);

    let mut cursor = start();
    let (step, resume) = state.next_segment(&mut cursor);
    assert_eq!(step, SegmentStep::Segment { node: 0, start: 0, examined: 3 });
    assert!(resume);
    assert_eq!(state.driver_context().unexamined_len(), 2);

    let (step, _) = state.advance(cursor, 1);
    match step {
        AdvanceStep::Ready { head, examined } => {
            assert_eq!(examined, vec![1]);
            assert_eq!(state.nodes().segment(1, head.start), &[5]);
        }
        AdvanceStep::Waiting { .. } => panic!("data is there"),
    }
    assert_eq!(state.driver_context().unexamined_len(), 1);

    let action = state.complete_load(&mut loader, WriterResult::<u32, ()>::Finish);
    assert!(matches!(action, LoopAction::Terminate { result: Ok(()) }));
}

#[test]
fn advance_over_the_end_is_refused_once_the_stream_ended() {
    let (context, _) = ConcurrentDriver::new(64, 128, ()).start();
    let mut state: StreamState<usize> = StreamState::new(context);
    let mut loader = GenericStreamLoader::new();
    let segments = fragmented_serial(&LENGTHS);
    let total: usize = LENGTHS.iter().sum();
    for s in &segments {
        let _ = state.complete_load(&mut loader, WriterResult::<usize, ()>::Allocated(s.clone(), 4));
    }
    assert!(state.advance_allowed(start(), total + 1));
    let _ = state.complete_load(&mut loader, WriterResult::<usize, ()>::Finish);
    assert_eq!(state.appended_len(), total);
    assert!(state.advance_allowed(start(), total));
    assert!(!state.advance_allowed(start(), total + 1));
    let (step, _) = state.advance(start(), 30);
    let head = match step {
        AdvanceStep::Ready { head, .. } => head,
        AdvanceStep::Waiting { .. } => panic!("the data is there"),
    };
    assert_eq!(state.position(head), 30);
    assert!(state.advance_allowed(head, total - 30));
    assert!(!state.advance_allowed(head, total - 29));
}

#[test]
fn advance_in_two_steps_lands_where_one_step_does() {
    let segments = fragmented_serial(&LENGTHS);
    let total: usize = LENGTHS.iter().sum();
    for (a, b) in [(0, 0), (5, 18), (23, 0), (30, 26), (41, 1), (0, total), (50, total - 50)] {
        let mut chain = chain_of(&segments);
        let after_a = match advance_head(&mut chain, start(), a) {
            AdvanceStep::Ready { head, .. } => head,
            AdvanceStep::Waiting { .. } => panic!("the stream is complete"),
        };
        let after_a_then_b = match advance_head(&mut chain, after_a, b) {
            AdvanceStep::Ready { head, .. } => head,
            AdvanceStep::Waiting { .. } => panic!("the stream is complete"),
        };
        let mut chain = chain_of(&segments);
        let after_sum = match advance_head(&mut chain, start(), a + b) {
            AdvanceStep::Ready { head, .. } => head,
            AdvanceStep::Waiting { .. } => panic!("the stream is complete"),
        };
        assert_eq!(after_a_then_b.node, after_sum.node);
        if after_sum.node != NodeRef::Sentinel {
            assert_eq!(after_a_then_b.start, after_sum.start);
        }
    }
}

#[test]
fn fresh_buffer_reports_at_least_the_requested_capacity() {
    let mut chain: NodeChain<u32> = NodeChain::new();
    let mut loader = GenericStreamLoader::new();
    loader.set_min_buffer_size(2);
    let mut writer = loader.control().request_writer::<u32>(10);
    assert!(writer.capacity() >= 10);
    writer.push(1);
    writer.push(2);
    let info = loader.complete_load(&mut chain, writer.advance::<()>()).unwrap().unwrap();
    assert_eq!((info.committed(), info.uncommitted()), (0, 2));
    assert!(info.buffer_capacity() >= 10);
}

#[test]
fn waiting_advance_resumes_where_one_advance_lands() {
    let segments = fragmented_serial(&[5, 3, 4]);
    let mut chain = NodeChain::new();
    chain.append(IntermediateNode::new(segments[0].clone()));
    chain.append(IntermediateNode::new(segments[1].clone()));
    let (waiting, remaining) = match advance_head(&mut chain, start(), 10) {
        AdvanceStep::Waiting { head, remaining, .. } => (head, remaining),
        AdvanceStep::Ready { .. } => panic!("only 8 items are there"),
    };
    assert_eq!(remaining, 2);
    chain.append(IntermediateNode::new(segments[2].clone()));
    let resumed = match advance_head(&mut chain, waiting, remaining) {
        AdvanceStep::Ready { head, .. } => head,
        AdvanceStep::Waiting { .. } => panic!("12 items are there"),
    };
    let mut longer = NodeChain::new();
    for s in &segments {
        longer.append(IntermediateNode::new(s.clone()));
    }
    let direct = match advance_head(&mut longer, start(), 10) {
        AdvanceStep::Ready { head, .. } => head,
        AdvanceStep::Waiting { .. } => panic!("12 items are there"),
    };
    assert_eq!(resumed, direct);
    assert_eq!(collect_from_open(&mut chain, resumed), vec![10, 11]);
}

fn collect_from_open(chain: &mut NodeChain<usize>, head: Cursor) -> Vec<usize> {
    let mut cursor = head;
    let mut buf = Vec::new();
    loop {
        match next_segment(chain, &mut cursor) {
            SegmentStep::Segment { node, start, .. } => buf.extend_from_slice(chain.segment(node, start)),
            _ => break,
        }
    }
    buf
}
