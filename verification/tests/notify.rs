use flax::notify::{Notified, Notify, PollState};

#[test]
fn notify_before_wait_completes_at_once() {
    let mut notify = Notify::new();
    assert_eq!(notify.notify(), None);
    let wait = notify.notified();
    assert_eq!(wait.poll(&mut notify.signal), PollState::Ready);
    // The pending notification was taken.
    assert_eq!(notify.notified().poll(&mut notify.signal), PollState::Pending(0));
}

#[test]
fn notify_wakes_first_waiter() {
    let mut notify = Notify::new();
    assert_eq!(notify.notified().poll(&mut notify.signal), PollState::Pending(0));
    assert_eq!(notify.notified().poll(&mut notify.signal), PollState::Pending(1));
    assert_eq!(notify.notify(), Some(0));
    assert_eq!(notify.signal.waiters, vec![(0, true), (1, false)]);
    assert_eq!(notify.notify_all(), vec![0, 1]);
    assert_eq!(notify.signal.waiters, vec![(0, true), (1, true)]);
    assert!(!notify.signal.ready);
}

#[test]
fn woken_waiter_completes() {
    let mut notify = Notify::new();
    assert_eq!(notify.notified().poll(&mut notify.signal), PollState::Pending(0));
    assert_eq!(notify.notified().poll(&mut notify.signal), PollState::Pending(1));
    let first = Notified { id: Some(0) };
    assert_eq!(first.poll(&mut notify.signal), PollState::Pending(0));
    assert_eq!(notify.notify(), Some(0));
    assert_eq!(first.poll(&mut notify.signal), PollState::Ready);
    assert_eq!(notify.signal.waiters, vec![(1, false)]);
}
