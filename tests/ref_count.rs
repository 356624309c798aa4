use rxrust::{ColdSource, ConnectableObservable, Notification};

#[test]
fn connects_once_and_cancels_once() {
    let source = ColdSource::<i32, ()>::from_values(&vec![1], false);
    let mut rc = ConnectableObservable::local(source).ref_count();
    assert_eq!(rc.count(), 0);
    assert!(rc.connection().is_none());

    let a = rc.subscribe();
    assert_eq!(rc.connectable().source().executions(), 1);
    let b = rc.subscribe();
    assert_eq!(rc.connectable().source().executions(), 1);
    assert_eq!(rc.count(), 2);
    assert_eq!(rc.connection().unwrap().id, 1);

    assert!(rc.unsubscribe(a).is_none());
    assert_eq!(rc.disconnects(), 0);
    let cancelled = rc.unsubscribe(b).unwrap();
    assert!(cancelled.is_closed());
    assert_eq!(cancelled.id, 1);
    assert_eq!(rc.disconnects(), 1);
    assert_eq!(rc.connects(), 1);
    assert_eq!(rc.count(), 0);
    assert!(rc.connection().is_none());
    assert!(rc.connectable().connection().is_none());

    assert!(rc.unsubscribe(b).is_none());
    assert!(rc.unsubscribe(42).is_none());
    assert_eq!(rc.disconnects(), 1);
    assert_eq!(rc.connectable().source().executions(), 1);
}

#[test]
fn reconnect_starts_a_new_execution() {
    let source = ColdSource::<i32, ()>::from_values(&vec![8, 9], false);
    let mut rc = ConnectableObservable::shared(source).ref_count();
    let a = rc.subscribe();
    assert_eq!(rc.connectable().subject().values(a), vec![8, 9]);
    rc.unsubscribe(a);
    let b = rc.subscribe();
    assert_eq!(rc.connectable().source().executions(), 2);
    assert_eq!(rc.connection().unwrap().id, 2);
    assert_eq!(rc.connectable().subject().values(b), vec![8, 9]);
    assert_eq!(rc.connectable().subject().values(a), vec![8, 9]);
}

#[test]
fn first_subscriber_sees_whole_execution() {
    let mut rc = ConnectableObservable::local(ColdSource::<i32, ()>::of(100)).ref_count();
    let a = rc.subscribe();
    assert_eq!(
        rc.connectable().received(a),
        &vec![Notification::Next(100), Notification::Complete]
    );
    assert!(rc.connection().unwrap().is_closed());
}

#[test]
fn observers_registered_before_wrapping_are_not_counted() {
    let mut c = ConnectableObservable::local(ColdSource::<i32, ()>::of(2));
    let early = c.subscribe();
    let mut rc = c.ref_count();
    assert_eq!(rc.count(), 0);
    assert!(rc.unsubscribe(early).is_none());
    let a = rc.subscribe();
    assert_eq!(rc.connectable().subject().values(early), vec![2]);
    assert_eq!(rc.connectable().subject().values(a), vec![2]);
}

#[test]
fn ref_count_keeps_a_live_manual_connection() {
    let source = ColdSource::<i32, ()>::from_values(&vec![3], false);
    let mut c = ConnectableObservable::local(source);
    let token = c.connect();
    let mut rc = c.ref_count();
    let a = rc.subscribe();
    assert_eq!(rc.connects(), 1);
    assert_eq!(rc.connection(), Some(token));
    assert_eq!(rc.connectable().source().executions(), 1);
    assert!(rc.connectable().subject().values(a).is_empty());
    let cancelled = rc.unsubscribe(a).unwrap();
    assert_eq!(cancelled.id, token.id);
    assert!(rc.connectable().connection().is_none());
    rc.subscribe();
    assert_eq!(rc.connects(), 2);
    assert_eq!(rc.connectable().source().executions(), 2);
}
