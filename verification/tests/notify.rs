use futures::task::noop_waker;
use parcom_streams::notify::{Signal, Wait};

#[test]
fn pending_before_send_and_ready_after() {
    let waker = noop_waker();
    let mut signal = Signal::new();
    let mut wait = Wait::new(&signal);
    assert!(!wait.poll(&mut signal, &waker));
    assert!(!wait.poll(&mut signal, &waker));
    signal.send();
    assert!(wait.poll(&mut signal, &waker));
    assert_eq!(signal.current_version(), 1);
}

#[test]
fn wait_created_after_send_waits_for_the_next() {
    let waker = noop_waker();
    let mut signal = Signal::new();
    signal.send();
    let mut wait = Wait::new(&signal);
    assert!(!wait.poll(&mut signal, &waker));
    signal.send();
    assert!(wait.poll(&mut signal, &waker));
}

#[test]
fn released_wait_and_many_waiters() {
    let waker = noop_waker();
    let mut signal = Signal::new();
    let mut a = Wait::new(&signal);
    let mut b = Wait::new(&signal);
    assert!(!a.poll(&mut signal, &waker));
    assert!(!b.poll(&mut signal, &waker));
    a.release(&mut signal);
    signal.send();
    assert!(b.poll(&mut signal, &waker));
    let mut c = Wait::new(&signal);
    c.release(&mut signal);
    assert!(!c.poll(&mut signal, &waker));
}

struct WakeCount(std::sync::atomic::AtomicUsize);

impl std::task::Wake for WakeCount {
    fn wake(self: std::sync::Arc<Self>) {
        self.0.fetch_add(1, std::sync::atomic::Ordering::SeqCst);
    }
}

fn counting_waker() -> (std::sync::Arc<WakeCount>, std::task::Waker) {
    let count = std::sync::Arc::new(WakeCount(std::sync::atomic::AtomicUsize::new(0)));
    let waker = std::task::Waker::from(count.clone());
    (count, waker)
}

#[test]
fn test_notified_before_wait() {
    let waker = noop_waker();
    let mut signal = Signal::new();
    let mut wait = Wait::new(&signal);
    signal.send();
    assert!(wait.poll(&mut signal, &waker));
}

#[test]
fn test_pending_before_notify() {
    let (count, waker) = counting_waker();
    let mut signal = Signal::new();
    let mut wait = Wait::new(&signal);
    assert!(!wait.poll(&mut signal, &waker));
    assert!(!wait.poll(&mut signal, &waker));
    assert_eq!(count.0.load(std::sync::atomic::Ordering::SeqCst), 0);
}

#[test]
fn test_notified() {
    let (count, waker) = counting_waker();
    let mut signal = Signal::new();
    let mut waits: Vec<Wait> = (0..100).map(|_| Wait::new(&signal)).collect();
    for w in waits.iter_mut() {
        assert!(!w.poll(&mut signal, &waker));
    }
    signal.send();
    assert_eq!(count.0.load(std::sync::atomic::Ordering::SeqCst), 100);
    for w in waits.iter_mut() {
        assert!(w.poll(&mut signal, &waker));
    }
}
