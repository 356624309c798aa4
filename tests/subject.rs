use rxrust::{Notification, Subject, Subscription};

#[test]
fn next_reaches_registered_observers_only() {
    let mut s = Subject::<i32, ()>::new();
    let a = s.subscribe();
    let b = s.subscribe();
    s.unsubscribe(b);
    s.next(3);
    assert_eq!(s.values(a), vec![3]);
    assert!(s.values(b).is_empty());
    assert_eq!(s.observer_count(), 2);
    assert!(s.is_registered(a));
    assert!(!s.is_registered(b));
}

#[test]
fn nothing_follows_complete() {
    let mut s = Subject::<i32, ()>::new();
    let a = s.subscribe();
    s.next(1);
    s.complete();
    s.next(2);
    s.error(());
    let late = s.subscribe();
    s.next(3);
    assert_eq!(s.received(a), &vec![Notification::Next(1), Notification::Complete]);
    assert!(s.received(late).is_empty());
    assert!(!s.is_registered(a));
    assert!(!s.is_registered(late));
}

#[test]
fn nothing_follows_error() {
    let mut s = Subject::<i32, u8>::new();
    let a = s.subscribe();
    s.error(4);
    s.next(2);
    s.complete();
    assert_eq!(s.received(a), &vec![Notification::Error(4)]);
    assert!(s.is_stopped());
}

#[test]
fn subscription_cancel_is_idempotent() {
    let mut t = Subscription::new(3);
    assert!(!t.is_closed());
    t.unsubscribe();
    t.unsubscribe();
    assert!(t.is_closed());
    assert_eq!(t.id, 3);
}

#[test]
fn notification_terminal_kinds() {
    assert!(!Notification::<i32, u8>::Next(1).terminal());
    assert!(Notification::<i32, u8>::Error(1).terminal());
    assert!(Notification::<i32, u8>::Complete.terminal());
}
