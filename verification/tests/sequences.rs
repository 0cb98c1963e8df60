use parcom_streams::sequences::control::{Control, Response};
use parcom_streams::sequences::{BufferStrategy, GenericSequenceBuilder};
use std::sync::Arc;

struct Twice;

impl BufferStrategy for Twice {
    fn spec_calc_capacity(&self, min_capacity: usize) -> usize {
        min_capacity * 2
    }

    fn calc_capacity(&self, min_capacity: usize) -> usize {
        min_capacity * 2
    }
}

#[test]
fn loads_commit_in_order_and_iterate() {
    let builder = GenericSequenceBuilder::new(Arc::new(Twice));
    let (mut buffer, mut loader) = builder.build::<u32>();

    // first load: a writer over a fresh buffer
    let control = loader.load();
    let mut req = control.request_writer(3);
    assert!(req.capacity() >= 6);
    req.push(1);
    req.push(2);
    req.push(3);
    assert_eq!(req.len(), 3);
    let info = loader.complete_load::<()>(req.advance()).unwrap();
    assert_eq!(info.committed(), 0);
    assert_eq!(info.uncommitted(), 3);

    // the source finishes: pending items are committed
    let control = loader.load();
    let response = control.finish();
    let info = loader.complete_load::<()>(response).unwrap();
    assert_eq!(info.committed(), 3);
    assert_eq!(loader.chain().num_nodes(), 1);

    let mut iter = buffer.segments();
    assert_eq!(iter.next(loader.chain()), Some(&[1u32, 2, 3][..]));
    assert_eq!(iter.next(loader.chain()), None);

    assert_eq!(buffer.advance(loader.chain(), 2), 0);
    let mut iter = buffer.segments();
    assert_eq!(iter.next(loader.chain()), Some(&[3u32][..]));
    assert_eq!(buffer.advance(loader.chain(), 5), 4);
}

#[test]
fn cancelled_load_keeps_the_buffer() {
    let strategy = Twice;
    let control: Control<'_, u8, Twice> = Control::new(vec![9, 8], &strategy);
    match control.cancel("stop") {
        Response::Cancel(buf, e) => {
            assert_eq!(buf, vec![9, 8]);
            assert_eq!(e, "stop");
        }
        _ => panic!("cancelled"),
    }
}

#[test]
fn force_commit_commits_pending() {
    let builder = GenericSequenceBuilder::new(Arc::new(Twice));
    let (_buffer, mut loader) = builder.build::<u32>();
    let control = loader.load();
    let mut req = control.request_writer(1);
    req.push(5);
    let _ = loader.complete_load::<()>(req.advance());
    loader.force_commit();
    assert_eq!(loader.chain().num_nodes(), 1);
    assert_eq!(loader.chain().segment(0, 0), &[5]);
}
