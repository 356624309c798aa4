use rxrust::{ColdSource, ConnectableObservable, Notification};

#[test]
fn smoke() {
    let o = ColdSource::<i32, ()>::of(100);
    let mut connected = ConnectableObservable::local(o);
    let guard1 = connected.subscribe();
    let guard2 = connected.subscribe();

    connected.connect();
    let first = *connected.subject().values(guard1).last().unwrap();
    let second = *connected.subject().values(guard2).last().unwrap();
    assert_eq!(first, 100);
    assert_eq!(second, 100);
}

#[test]
fn fork_and_shared() {
    let o = ColdSource::<i32, ()>::of(100);
    let mut connected = ConnectableObservable::shared(o);
    connected.subscribe();
    connected.subscribe();

    connected.connect();
}

#[test]
fn both_observers_see_value_then_complete() {
    let mut c = ConnectableObservable::local(ColdSource::<i32, ()>::of(100));
    let a = c.subscribe();
    let b = c.subscribe();
    let token = c.connect();
    let expected = vec![Notification::Next(100), Notification::Complete];
    assert_eq!(c.received(a), &expected);
    assert_eq!(c.received(b), &expected);
    assert!(token.is_closed());
    assert_eq!(token.id, 1);
    assert!(c.subject().is_stopped());
}

#[test]
fn fan_out_keeps_order_for_every_observer() {
    let source = ColdSource::<u8, ()>::from_values(&vec![1, 2, 3], true);
    let mut c = ConnectableObservable::shared(source);
    let ids: Vec<usize> = (0..3).map(|_| c.subscribe()).collect();
    c.connect();
    for id in ids {
        assert_eq!(c.subject().values(id), vec![1, 2, 3]);
        assert_eq!(c.received(id).len(), 4);
        assert_eq!(c.received(id)[3], Notification::Complete);
    }
}

#[test]
fn subscribing_does_not_start_the_source() {
    let mut c = ConnectableObservable::local(ColdSource::<i32, ()>::of(7));
    let a = c.subscribe();
    let b = c.subscribe();
    assert_eq!(c.source().executions(), 0);
    assert!(c.received(a).is_empty());
    assert!(c.received(b).is_empty());
    c.connect();
    assert_eq!(c.source().executions(), 1);
}

#[test]
fn unsubscribed_observer_receives_nothing() {
    let mut c = ConnectableObservable::local(ColdSource::<i32, ()>::of(5));
    let a = c.subscribe();
    let b = c.subscribe();
    c.unsubscribe(a);
    c.unsubscribe(a);
    c.unsubscribe(99);
    c.connect();
    assert!(c.received(a).is_empty());
    assert_eq!(c.subject().values(b), vec![5]);
}

#[test]
fn late_observer_after_completion_gets_nothing() {
    let mut c = ConnectableObservable::local(ColdSource::<i32, ()>::of(1));
    let a = c.subscribe();
    c.connect();
    let late = c.subscribe();
    assert!(!c.subject().is_registered(late));
    c.connect();
    assert!(c.received(late).is_empty());
    assert_eq!(c.received(a), &vec![Notification::Next(1), Notification::Complete]);
    assert_eq!(c.source().executions(), 2);
}

#[test]
fn error_reaches_every_observer() {
    let mut c = ConnectableObservable::local(ColdSource::<i32, u8>::throw(9));
    let a = c.subscribe();
    let b = c.subscribe();
    let token = c.connect();
    assert_eq!(c.received(a), &vec![Notification::Error(9)]);
    assert_eq!(c.received(b), &vec![Notification::Error(9)]);
    assert!(token.is_closed());
}

#[test]
fn open_source_leaves_connection_open() {
    let source = ColdSource::<i32, ()>::from_values(&vec![4, 5], false);
    assert_eq!(source.emissions().len(), 2);
    let mut c = ConnectableObservable::local(source);
    let a = c.subscribe();
    let token = c.connect();
    assert!(!token.is_closed());
    assert!(!c.subject().is_stopped());
    assert_eq!(c.subject().values(a), vec![4, 5]);
}

#[test]
fn second_connect_while_live_is_a_no_op() {
    let source = ColdSource::<i32, ()>::from_values(&vec![6], false);
    let mut c = ConnectableObservable::local(source);
    let a = c.subscribe();
    let first = c.connect();
    let second = c.connect();
    assert_eq!(first, second);
    assert_eq!(c.source().executions(), 1);
    assert_eq!(c.subject().values(a), vec![6]);
    assert_eq!(c.connection(), Some(first));
}

#[test]
fn disconnect_then_connect_starts_a_new_execution() {
    let source = ColdSource::<i32, ()>::from_values(&vec![6], false);
    let mut c = ConnectableObservable::shared(source);
    let a = c.subscribe();
    let first = c.connect();
    let cancelled = c.disconnect().unwrap();
    assert!(cancelled.is_closed());
    assert_eq!(cancelled.id, first.id);
    assert!(c.connection().is_none());
    assert!(c.disconnect().is_none());
    let second = c.connect();
    assert_eq!(second.id, 2);
    assert!(!second.is_closed());
    assert_eq!(c.subject().values(a), vec![6, 6]);
}
