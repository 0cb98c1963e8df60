use parcom_streams::load_info::LoadInfo;
use parcom_streams::stream_driver::{ConcurrentDriver, LoaderState, LoopAction};

#[test]
fn loading_suspends_and_resumes_at_the_thresholds() {
    let driver = ConcurrentDriver::new(64, 128, "spawner");
    let (mut ctx, spawner) = driver.start();
    assert_eq!(spawner, "spawner");
    assert!(!ctx.is_terminated());

    match ctx.on_load_result::<()>(Ok(Some(LoadInfo::new(100, 0, 0)))) {
        LoopAction::Continue { notify_append, wait_for_resume } => {
            assert!(notify_append);
            assert!(!wait_for_resume)
        }
        _ => panic!("continue"),
    }
    match ctx.on_load_result::<()>(Ok(Some(LoadInfo::new(28, 5, 40)))) {
        LoopAction::Continue { wait_for_resume, .. } => assert!(wait_for_resume),
        _ => panic!("continue"),
    }
    match ctx.on_load_result::<()>(Ok(Some(LoadInfo::new(0, 5, 40)))) {
        LoopAction::Continue { notify_append, wait_for_resume } => {
            assert!(!notify_append);
            assert!(!wait_for_resume)
        }
        _ => panic!("continue"),
    }
    assert!(!ctx.notify_data_examined(63));
    assert!(ctx.notify_data_examined(1));
    assert!(ctx.notify_data_examined(63));
}

#[test]
fn loading_ends_with_the_source() {
    let (mut ctx, _) = ConcurrentDriver::new(1, 2, ()).start();
    match ctx.on_load_result::<&str>(Ok(None)) {
        LoopAction::Terminate { result } => assert_eq!(result, Ok(())),
        _ => panic!("terminate"),
    }
    assert!(ctx.is_terminated());
    let mut kept = Some(Ok(()));
    assert_eq!(ctx.after_append_signal::<&str>(&mut kept), Some(Ok(())));
    assert_eq!(kept, None);

    let (mut ctx, _) = ConcurrentDriver::new(1, 2, ()).start();
    let mut kept: Option<Result<(), &str>> = None;
    assert_eq!(ctx.after_append_signal(&mut kept), Some(Ok(())));
    match ctx.on_load_result::<&str>(Err("broken")) {
        LoopAction::Terminate { result } => kept = Some(result),
        _ => panic!("terminate"),
    }
    assert!(ctx.is_terminated());
    // the error is handed out once
    assert_eq!(ctx.after_append_signal(&mut kept), Some(Err("broken")));
    assert_eq!(ctx.after_append_signal(&mut kept), None);
    let _ = LoaderState::TerminatedWithError;
}

#[test]
fn append_counts_toward_suspension() {
    let (mut ctx, _) = ConcurrentDriver::new(2, 4, ()).start();
    assert!(!ctx.notify_data_append(3));
    assert!(ctx.notify_data_append(1));
    assert!(!ctx.notify_data_examined(1));
    assert!(ctx.notify_data_examined(1));
}
