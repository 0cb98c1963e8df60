use parcom_streams::node_init::{
    EnsureInit, GetOrInitAction, GetOrInitOwned, InitAction, InitEvent, LazyNodes, NodeCell,
    NodeState,
};

#[test]
fn get_or_init_on_same_node_calls_next_once() {
    let mut node: NodeCell<Vec<u8>> = NodeCell::new();
    let mut first = EnsureInit::new(8);
    let mut second = EnsureInit::new(8);

    assert_eq!(first.poll(&mut node, InitEvent::Polled), InitAction::StartNext { size_hint: 8 });
    assert_eq!(second.poll(&mut node, InitEvent::Polled), InitAction::Pending { wake: true });
    assert_eq!(second.poll(&mut node, InitEvent::Notified), InitAction::Pending { wake: true });
    assert_eq!(first.poll(&mut node, InitEvent::Polled), InitAction::Pending { wake: false });
    assert_eq!(
        first.poll(&mut node, InitEvent::NextReady(Some(vec![1, 2]))),
        InitAction::ReadyNotifyAll
    );
    assert_eq!(second.poll(&mut node, InitEvent::Notified), InitAction::Ready);
    assert_eq!(node.state_now(), NodeState::InitializedSome);
    assert_eq!(node.get(), Some(&vec![1, 2]));

    let mut late = EnsureInit::new(1);
    assert_eq!(late.poll(&mut node, InitEvent::Polled), InitAction::Ready);
}

#[test]
fn get_or_init_owned_hands_out_the_node_or_the_end() {
    let mut node: NodeCell<u32> = NodeCell::new();
    let mut fut = GetOrInitOwned::new(4);
    assert_eq!(fut.poll(&mut node, InitEvent::Polled), GetOrInitAction::StartNext { size_hint: 4 });
    assert_eq!(
        fut.poll(&mut node, InitEvent::NextReady(Some(5))),
        GetOrInitAction::Ready { some: true, notify_all: true }
    );
    assert_eq!(node.get(), Some(&5));

    let mut end: NodeCell<u32> = NodeCell::new();
    let mut a = GetOrInitOwned::new(4);
    let mut b = GetOrInitOwned::new(4);
    assert!(matches!(a.poll(&mut end, InitEvent::Polled), GetOrInitAction::StartNext { .. }));
    assert_eq!(b.poll(&mut end, InitEvent::Polled), GetOrInitAction::Pending { wake: true });
    assert_eq!(
        a.poll(&mut end, InitEvent::NextReady(None)),
        GetOrInitAction::Ready { some: false, notify_all: true }
    );
    assert_eq!(
        b.poll(&mut end, InitEvent::Notified),
        GetOrInitAction::Ready { some: false, notify_all: false }
    );
    assert_eq!(end.state_now(), NodeState::InitializedNone);
    assert_eq!(end.get(), None);
}

#[test]
fn node_cell_claims_once() {
    let mut node: NodeCell<u8> = NodeCell::new();
    assert_eq!(node.try_begin_init(), Ok(()));
    assert_eq!(node.try_begin_init(), Err(NodeState::Initializing));
    node.complete(Some(3));
    assert_eq!(node.try_begin_init(), Err(NodeState::InitializedSome));
}

#[test]
fn test_iterate() {
    let mut nodes: LazyNodes<usize> = LazyNodes::new();
    let mut counter = 0usize;
    let mut node = 0usize;
    for i in 0..1024 {
        let mut fut = GetOrInitOwned::new(0);
        let mut other = GetOrInitOwned::new(0);
        match nodes.poll(node, &mut fut, InitEvent::Polled) {
            GetOrInitAction::StartNext { size_hint } => assert_eq!(size_hint, 0),
            a => panic!("unexpected {:?}", a),
        }
        assert_eq!(nodes.poll(node, &mut other, InitEvent::Polled), GetOrInitAction::Pending { wake: true });
        let value = counter;
        counter += 1;
        assert_eq!(
            nodes.poll(node, &mut fut, InitEvent::NextReady(Some(value))),
            GetOrInitAction::Ready { some: true, notify_all: true }
        );
        assert_eq!(
            nodes.poll(node, &mut other, InitEvent::Notified),
            GetOrInitAction::Ready { some: true, notify_all: false }
        );
        assert_eq!(nodes.get(node), Some(&i));
        let mut late = GetOrInitOwned::new(0);
        assert_eq!(
            nodes.poll(node, &mut late, InitEvent::Polled),
            GetOrInitAction::Ready { some: true, notify_all: false }
        );
        node = nodes.next_of(node).unwrap();
    }
    assert_eq!(counter, 1024);
    assert_eq!(nodes.len(), 1025);
    assert_eq!(nodes.state_of(node), NodeState::Initial);
    assert_eq!(nodes.next_of(node), None);
}

#[test]
fn lazy_nodes_end_without_a_successor() {
    let mut nodes: LazyNodes<u8> = LazyNodes::new();
    let mut fut = GetOrInitOwned::new(2);
    assert!(matches!(nodes.poll(0, &mut fut, InitEvent::Polled), GetOrInitAction::StartNext { .. }));
    assert_eq!(
        nodes.poll(0, &mut fut, InitEvent::NextReady(None)),
        GetOrInitAction::Ready { some: false, notify_all: true }
    );
    assert_eq!(nodes.len(), 1);
    assert_eq!(nodes.next_of(0), None);
    assert_eq!(nodes.get(0), None);
}
