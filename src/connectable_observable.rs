use vstd::prelude::*;
use crate::notification::{Notification, has_terminal};
use crate::ref_count::RefCount;
use crate::source::{ColdSource, SourceModel, stream_wf};
use crate::subject::{Subject, SubjectModel, lemma_deliver_all_count, lemma_open_run};
use crate::subscription::Subscription;

verus! {

/// Marks the exclusive-ownership regime: one logical thread of control.
pub struct Local;

/// Marks the shared-ownership regime: item and error types may cross threads,
/// so the whole value can be handed to a lock and used from many of them.
pub struct Shared;

/// The abstract state of a connectable observable: its source, its subject,
/// and the token of the connection it made last, if any.
pub struct ConnectableModel<T, E> {
    pub source: SourceModel<T, E>,
    pub subject: SubjectModel<T, E>,
    pub connection: Option<Subscription>,
}

impl<T, E> ConnectableModel<T, E> {
    pub open spec fn wf(self) -> bool {
        &&& self.subject.wf()
        &&& self.connection matches Some(t) ==> 1 <= t.id <= self.source.executions
    }

    /// A connection is live while its token is stored and not closed.
    pub open spec fn connected(self) -> bool {
        self.connection matches Some(t) && !t.closed
    }

    /// Subscribing only registers with the subject.
    pub open spec fn register(self) -> Self {
        ConnectableModel { subject: self.subject.register(), ..self }
    }

    /// `register` applied `k` times.
    pub open spec fn register_times(self, k: nat) -> Self
        decreases k,
    {
        if k == 0 {
            self
        } else {
            self.register_times((k - 1) as nat).register()
        }
    }

    pub open spec fn unregister(self, id: int) -> Self {
        ConnectableModel { subject: self.subject.unregister(id), ..self }
    }

    /// The token of a new execution.
    pub open spec fn fresh_connection(self) -> Subscription {
        Subscription {
            id: (self.source.executions + 1) as u64,
            closed: has_terminal(self.source.emissions),
        }
    }

    /// While a connection is live, connecting again changes nothing.
    /// Otherwise it starts one new execution of the source with the subject
    /// as its observer, and stores that execution's token.
    pub open spec fn connect(self) -> Self {
        if self.connected() {
            self
        } else {
            ConnectableModel {
                source: SourceModel {
                    emissions: self.source.emissions,
                    executions: self.source.executions + 1,
                },
                subject: self.subject.deliver_all(self.source.emissions),
                connection: Some(self.fresh_connection()),
            }
        }
    }

    /// The token that `connect` hands back: the live one, or the new one.
    pub open spec fn connect_result(self) -> Subscription {
        if self.connected() {
            self.connection.unwrap()
        } else {
            self.fresh_connection()
        }
    }

    /// Disconnecting cancels the stored token and forgets it.
    pub open spec fn disconnect(self) -> Self {
        ConnectableModel { connection: None, ..self }
    }

    /// The stored token as `disconnect` hands it back, cancelled.
    pub open spec fn cancelled(self) -> Option<Subscription> {
        match self.connection {
            Some(t) => Some(Subscription { closed: true, ..t }),
            None => None,
        }
    }
}

/// Any number of subscribers without a `connect` never starts the source:
/// its executions and the connection stay as they were, observers already
/// there receive nothing, and each new one starts with an empty inbox.
pub proof fn no_premature_execution<T, E>(m: ConnectableModel<T, E>, k: nat)
    ensures
        m.register_times(k).source == m.source,
        m.register_times(k).connection == m.connection,
        m.register_times(k).subject.stopped == m.subject.stopped,
        m.register_times(k).subject.count() == m.subject.count() + k,
        forall|i: int|
            0 <= i < m.subject.count() ==> #[trigger] m.register_times(k).subject.inboxes[i]
                == m.subject.inboxes[i],
        forall|i: int|
            m.subject.count() <= i < m.subject.count() + k ==> #[trigger] m.register_times(
                k,
            ).subject.inboxes[i] == Seq::<Notification<T, E>>::empty(),
    decreases k,
{
    if k > 0 {
        no_premature_execution(m, (k - 1) as nat);
        let p = m.register_times((k - 1) as nat);
        assert forall|i: int|
            0 <= i < m.subject.count() + k implies #[trigger] m.register_times(k).subject.inboxes[i]
            == (if i < m.subject.count() + k - 1 {
            p.subject.inboxes[i]
        } else {
            Seq::<Notification<T, E>>::empty()
        }) by {}
    }
}

/// Every observer registered before `connect`, on a subject that has not
/// stopped, receives the source's whole stream exactly once and in order, so
/// any two of them receive the same notifications.
pub proof fn multicast_fan_out<T, E>(m: ConnectableModel<T, E>, i: int, j: int)
    requires
        m.wf(),
        stream_wf(m.source.emissions),
        !m.connected(),
        !m.subject.stopped,
        0 <= i < m.subject.count(),
        0 <= j < m.subject.count(),
        m.subject.active[i],
        m.subject.active[j],
    ensures
        m.connect().subject.count() == m.subject.count(),
        m.connect().subject.inboxes[i] == m.subject.inboxes[i] + m.source.emissions,
        m.connect().subject.inboxes[i].skip(m.subject.inboxes[i].len() as int)
            == m.connect().subject.inboxes[j].skip(m.subject.inboxes[j].len() as int),
{
    let s = m.source.emissions;
    lemma_deliver_all_count(m.subject, s);
    if s.len() > 0 {
        let p = s.drop_last();
        assert forall|k: int| 0 <= k < p.len() implies !(#[trigger] p[k]).is_terminal() by {
            assert(p[k] == s[k]);
        }
        lemma_open_run(m.subject, p, i);
        lemma_open_run(m.subject, p, j);
        assert(m.subject.inboxes[i] + s =~= (m.subject.inboxes[i] + p).push(s.last()));
        assert(m.subject.inboxes[j] + s =~= (m.subject.inboxes[j] + p).push(s.last()));
    } else {
        assert(m.subject.inboxes[i] + s =~= m.subject.inboxes[i]);
    }
    assert((m.subject.inboxes[i] + s).skip(m.subject.inboxes[i].len() as int) =~= s);
    assert((m.subject.inboxes[j] + s).skip(m.subject.inboxes[j].len() as int) =~= s);
}

/// A source paired with a subject: subscribers register with the subject,
/// and only `connect` starts the source, once, for all of them.
pub struct ConnectableObservable<T, E, R> {
    source: ColdSource<T, E>,
    subject: Subject<T, E>,
    connection: Option<Subscription>,
    regime: R,
}

pub type LocalConnectableObservable<T, E> = ConnectableObservable<T, E, Local>;

pub type SharedConnectableObservable<T, E> = ConnectableObservable<T, E, Shared>;

impl<T, E, R> View for ConnectableObservable<T, E, R> {
    type V = ConnectableModel<T, E>;

    closed spec fn view(&self) -> ConnectableModel<T, E> {
        ConnectableModel { source: self.source@, subject: self.subject@, connection: self.connection }
    }
}

impl<T, E, R> ConnectableObservable<T, E, R> {
    pub closed spec fn wf(&self) -> bool {
        &&& self.subject.wf()
        &&& self@.wf()
    }

    pub proof fn lemma_wf(&self)
        requires
            self.wf(),
        ensures
            self@.wf(),
    {
    }

    fn wrap(observable: ColdSource<T, E>, regime: R) -> (r: Self)
        ensures
            r.wf(),
            r@.source == observable@,
            r@.subject == SubjectModel::<T, E>::empty(),
            r@.connection is None,
    {
        ConnectableObservable { source: observable, subject: Subject::new(), connection: None, regime }
    }

    /// Registers a new observer with the subject and returns its number. The
    /// source is left untouched: nothing runs until `connect`.
    pub fn subscribe(&mut self) -> (id: usize)
        requires
            old(self).wf(),
        ensures
            final(self).wf(),
            id == old(self)@.subject.count(),
            final(self)@ == old(self)@.register(),
            final(self)@.source == old(self)@.source,
    {
        self.subject.subscribe()
    }

    pub fn unsubscribe(&mut self, id: usize)
        requires
            old(self).wf(),
        ensures
            final(self).wf(),
            final(self)@ == old(self)@.unregister(id as int),
    {
        self.subject.unsubscribe(id)
    }

    pub fn connection(&self) -> (r: Option<Subscription>)
        ensures
            r == self@.connection,
    {
        self.connection
    }

    /// Cancels the stored connection, if any, and returns its cancelled
    /// token; the next `connect` then starts a new execution.
    pub fn disconnect(&mut self) -> (r: Option<Subscription>)
        requires
            old(self).wf(),
        ensures
            final(self).wf(),
            final(self)@ == old(self)@.disconnect(),
            r == old(self)@.cancelled(),
    {
        match self.connection {
            Some(t) => {
                let mut token = t;
                token.unsubscribe();
                self.connection = None;
                Some(token)
            },
            None => None,
        }
    }

    pub fn subject(&self) -> (r: &Subject<T, E>)
        ensures
            r@ == self@.subject,
            self.wf() ==> r.wf(),
    {
        &self.subject
    }

    pub fn source(&self) -> (r: &ColdSource<T, E>)
        ensures
            r@ == self@.source,
    {
        &self.source
    }

    /// Everything observer `id` has received, in order.
    pub fn received(&self, id: usize) -> (r: &Vec<Notification<T, E>>)
        requires
            self.wf(),
            id < self@.subject.count(),
        ensures
            r@ == self@.subject.inboxes[id as int],
    {
        self.subject.received(id)
    }
}

impl<T: Copy, E: Copy, R> ConnectableObservable<T, E, R> {
    pub(crate) fn connect_subject(&mut self) -> (r: Subscription)
        requires
            old(self).wf(),
            !old(self)@.connected() ==> old(self)@.source.executions < u64::MAX,
        ensures
            final(self).wf(),
            final(self)@ == old(self)@.connect(),
            final(self)@.subject.count() == old(self)@.subject.count(),
            r == old(self)@.connect_result(),
    {
        if let Some(t) = self.connection {
            if !t.closed {
                return t;
            }
        }
        proof {
            lemma_deliver_all_count(self.subject@, self.source@.emissions);
        }
        let r = self.source.subscribe(&mut self.subject);
        self.connection = Some(r);
        proof {
            self.subject.lemma_wf();
        }
        r
    }
}

impl<T, E> LocalConnectableObservable<T, E> {
    pub fn local(observable: ColdSource<T, E>) -> (r: Self)
        ensures
            r.wf(),
            r@.source == observable@,
            r@.subject == SubjectModel::<T, E>::empty(),
    {
        Self::wrap(observable, Local)
    }
}

impl<T: Copy, E: Copy> LocalConnectableObservable<T, E> {
    /// Subscribes the subject to the source: one new execution, whose
    /// notifications reach every registered observer, and returns its token.
    /// While a connection is live this is a no-op that returns its token.
    pub fn connect(&mut self) -> (r: Subscription)
        requires
            old(self).wf(),
            !old(self)@.connected() ==> old(self)@.source.executions < u64::MAX,
        ensures
            final(self).wf(),
            final(self)@ == old(self)@.connect(),
            final(self)@.subject.count() == old(self)@.subject.count(),
            r == old(self)@.connect_result(),
    {
        self.connect_subject()
    }

    /// Connects on the first subscriber and disconnects after the last.
    pub fn ref_count(self) -> (r: RefCount<T, E, Local>)
        requires
            self.wf(),
        ensures
            r.wf(),
            r@ == RefCount::<T, E, Local>::start(self@),
    {
        RefCount::new(self)
    }
}

impl<T: Send + Sync + 'static, E: Send + Sync + 'static> ConnectableObservable<T, E, Shared> {
    pub fn shared(observable: ColdSource<T, E>) -> (r: Self)
        ensures
            r.wf(),
            r@.source == observable@,
            r@.subject == SubjectModel::<T, E>::empty(),
    {
        Self::wrap(observable, Shared)
    }
}

impl<
    T: Copy + Send + Sync + 'static,
    E: Copy + Send + Sync + 'static,
> SharedConnectableObservable<T, E> {
    /// Subscribes the subject to the source: one new execution, whose
    /// notifications reach every registered observer, and returns its token.
    /// While a connection is live this is a no-op that returns its token.
    pub fn connect(&mut self) -> (r: Subscription)
        requires
            old(self).wf(),
            !old(self)@.connected() ==> old(self)@.source.executions < u64::MAX,
        ensures
            final(self).wf(),
            final(self)@ == old(self)@.connect(),
            final(self)@.subject.count() == old(self)@.subject.count(),
            r == old(self)@.connect_result(),
    {
        self.connect_subject()
    }

    /// Connects on the first subscriber and disconnects after the last.
    pub fn ref_count(self) -> (r: RefCount<T, E, Shared>)
        requires
            self.wf(),
        ensures
            r.wf(),
            r@ == RefCount::<T, E, Shared>::start(self@),
    {
        RefCount::new(self)
    }
}

} // verus!
