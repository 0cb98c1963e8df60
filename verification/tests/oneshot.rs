use parcom_streams::oneshot::{RecvStep, Slot, SlotState};

#[test]
fn test_try_recv_return_not_ready_before_send_and_return_ok_after_send() {
    let mut slot = Slot::new();

    let (step, effects) = slot.recv_step(false);
    assert!(matches!(step, RecvStep::NotReady));
    assert!(!effects.freed);

    let test_value: u32 = 0x5eed_1234;
    let (sent, _) = slot.send(test_value);
    assert!(sent.is_ok());

    match slot.recv_step(false) {
        (RecvStep::Received(v), effects) => {
            assert_eq!(v, test_value);
            assert!(effects.freed);
        }
        _ => unreachable!(),
    }
}

#[test]
fn recv_success_after_parking() {
    let mut slot = Slot::new();
    let (step, _) = slot.recv_step(true);
    assert!(matches!(step, RecvStep::NotReady));
    let (sent, effects) = slot.send(7u8);
    assert!(sent.is_ok());
    assert!(effects.unpark);
    assert!(!effects.freed);
    match slot.recv_step(true) {
        (RecvStep::Received(v), effects) => {
            assert_eq!(v, 7);
            assert!(effects.freed);
        }
        _ => unreachable!(),
    }
}

#[test]
fn recv_fails_when_the_sender_is_dropped() {
    let mut slot: Slot<u8> = Slot::new();
    let (_, _) = slot.recv_step(true);
    let effects = slot.drop_sender();
    assert!(effects.unpark);
    assert!(!effects.freed);
    let (step, effects) = slot.recv_step(true);
    assert!(matches!(step, RecvStep::Disconnected));
    assert!(effects.freed);
}

#[test]
fn send_to_a_dropped_receiver_gives_the_value_back() {
    let mut slot = Slot::new();
    let effects = slot.drop_receiver();
    assert!(!effects.freed);
    let (sent, effects) = slot.send(String::from("lost"));
    assert_eq!(sent, Err(String::from("lost")));
    assert!(effects.freed);
}

#[test]
fn drop_both_frees_once() {
    let mut slot: Slot<u8> = Slot::new();
    let first = slot.drop_sender();
    let second = slot.drop_receiver();
    assert!(!first.freed);
    assert!(second.freed);

    let mut slot: Slot<u8> = Slot::new();
    let (_, _) = slot.send(1);
    let effects = slot.drop_receiver();
    assert!(effects.freed);
    let _ = SlotState::Dead;
}
