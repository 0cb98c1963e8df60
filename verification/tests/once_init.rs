use parcom_streams::once_init::OnceInit;

#[test]
fn init_once_then_hand_back() {
    let mut cell = OnceInit::new();
    assert_eq!(cell.get(), None);
    assert_eq!(cell.if_uninitialized(|| 7), Some(7));
    let mut called = false;
    assert_eq!(cell.init(10, || called = true), Ok(()));
    assert!(called);
    assert_eq!(cell.get(), Some(&10));
    assert_eq!(cell.init(20, || panic!("not called")), Err(20));
    assert_eq!(cell.get(), Some(&10));
    assert_eq!(cell.if_uninitialized(|| 7), None);
}
