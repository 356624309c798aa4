use vstd::prelude::*;
use crate::connectable_observable::{ConnectableModel, ConnectableObservable, Local, Shared};
use crate::subscription::Subscription;

verus! {

/// How many entries of `h` hold.
pub open spec fn live(h: Seq<bool>) -> nat
    decreases h.len(),
{
    if h.len() == 0 {
        0
    } else {
        live(h.drop_last()) + if h.last() {
            1nat
        } else {
            0nat
        }
    }
}

pub proof fn lemma_live_bound(h: Seq<bool>)
    ensures
        live(h) <= h.len(),
    decreases h.len(),
{
    if h.len() > 0 {
        lemma_live_bound(h.drop_last());
    }
}

pub proof fn lemma_live_push(h: Seq<bool>, b: bool)
    ensures
        live(h.push(b)) == live(h) + if b {
            1nat
        } else {
            0nat
        },
{
    assert(h.push(b).drop_last() =~= h);
}

pub proof fn lemma_live_clear(h: Seq<bool>, i: int)
    requires
        0 <= i < h.len(),
        h[i],
    ensures
        live(h.update(i, false)) + 1 == live(h),
    decreases h.len(),
{
    let u = h.update(i, false);
    if i == h.len() - 1 {
        assert(u.drop_last() =~= h.drop_last());
    } else {
        assert(u.drop_last() =~= h.drop_last().update(i, false));
        lemma_live_clear(h.drop_last(), i);
    }
}

pub proof fn lemma_live_none(n: nat)
    ensures
        live(Seq::new(n, |i: int| false)) == 0,
    decreases n,
{
    if n > 0 {
        assert(Seq::new(n, |i: int| false).drop_last() =~= Seq::new((n - 1) as nat, |i: int| false));
        lemma_live_none((n - 1) as nat);
    }
}

/// One call made on a reference-counted observable.
pub enum RefCountOp {
    Subscribe,
    Unsubscribe(int),
}

/// The bookkeeping of a reference-counted observable: which handles still
/// hold it, how many connections it has made and how many it has cancelled.
pub struct RefCountCounters {
    pub holders: Seq<bool>,
    pub connects: nat,
    pub cancels: nat,
}

impl RefCountCounters {
    pub open spec fn count(self) -> nat {
        live(self.holders)
    }

    /// Exactly one connection is outstanding while anyone holds it, and none
    /// otherwise.
    pub open spec fn balanced(self) -> bool {
        self.connects == self.cancels + if self.count() > 0 {
            1nat
        } else {
            0nat
        }
    }

    /// A subscribe connects when the count leaves zero; an unsubscribe of a
    /// live handle cancels when the count returns to zero. Anything else
    /// leaves the state alone.
    pub open spec fn step(self, op: RefCountOp) -> Self {
        match op {
            RefCountOp::Subscribe => RefCountCounters {
                holders: self.holders.push(true),
                connects: self.connects + if self.count() == 0 {
                    1nat
                } else {
                    0nat
                },
                cancels: self.cancels,
            },
            RefCountOp::Unsubscribe(id) => if 0 <= id < self.holders.len() && self.holders[id] {
                RefCountCounters {
                    holders: self.holders.update(id, false),
                    connects: self.connects,
                    cancels: self.cancels + if self.count() == 1 {
                        1nat
                    } else {
                        0nat
                    },
                }
            } else {
                self
            },
        }
    }

    pub open spec fn run(self, ops: Seq<RefCountOp>) -> Self
        decreases ops.len(),
    {
        if ops.len() == 0 {
            self
        } else {
            self.run(ops.drop_last()).step(ops.last())
        }
    }

    /// The number of idle-to-active transitions while `ops` run.
    pub open spec fn rises(self, ops: Seq<RefCountOp>) -> nat
        decreases ops.len(),
    {
        if ops.len() == 0 {
            0
        } else {
            self.rises(ops.drop_last()) + if self.run(ops.drop_last()).count() == 0
                && self.run(ops).count() > 0 {
                1nat
            } else {
                0nat
            }
        }
    }

    /// The number of active-to-idle transitions while `ops` run.
    pub open spec fn falls(self, ops: Seq<RefCountOp>) -> nat
        decreases ops.len(),
    {
        if ops.len() == 0 {
            0
        } else {
            self.falls(ops.drop_last()) + if self.run(ops.drop_last()).count() > 0
                && self.run(ops).count() == 0 {
                1nat
            } else {
                0nat
            }
        }
    }
}

proof fn lemma_step_count(s: RefCountCounters, op: RefCountOp)
    ensures
        match op {
            RefCountOp::Subscribe => s.step(op).count() == s.count() + 1,
            RefCountOp::Unsubscribe(id) => if 0 <= id < s.holders.len() && s.holders[id] {
                s.step(op).count() + 1 == s.count()
            } else {
                s.step(op) == s
            },
        },
{
    match op {
        RefCountOp::Subscribe => lemma_live_push(s.holders, true),
        RefCountOp::Unsubscribe(id) => if 0 <= id < s.holders.len() && s.holders[id] {
            lemma_live_clear(s.holders, id);
        },
    }
}

/// Across any sequence of subscribes and unsubscribes, the connections made
/// are exactly the idle-to-active transitions and the cancellations exactly
/// the active-to-idle ones; and a balanced start stays balanced, so at most
/// one connection is ever outstanding.
pub proof fn single_connection(s: RefCountCounters, ops: Seq<RefCountOp>)
    ensures
        s.run(ops).connects == s.connects + s.rises(ops),
        s.run(ops).cancels == s.cancels + s.falls(ops),
        s.balanced() ==> s.run(ops).balanced(),
    decreases ops.len(),
{
    if ops.len() > 0 {
        single_connection(s, ops.drop_last());
        lemma_step_count(s.run(ops.drop_last()), ops.last());
    }
}

/// Once the count is back at zero, the next subscriber makes a new
/// connection.
pub proof fn reconnect_freshness(s: RefCountCounters, ops: Seq<RefCountOp>)
    requires
        s.run(ops).count() == 0,
    ensures
        s.run(ops.push(RefCountOp::Subscribe)).connects == s.run(ops).connects + 1,
        s.run(ops.push(RefCountOp::Subscribe)).count() == 1,
        s.rises(ops.push(RefCountOp::Subscribe)) == s.rises(ops) + 1,
{
    let p = ops.push(RefCountOp::Subscribe);
    assert(p.drop_last() =~= ops);
    lemma_step_count(s.run(ops), RefCountOp::Subscribe);
}

/// The abstract state of a reference-counted observable: the wrapped
/// connectable, which handles still hold it, the connection it holds, and
/// how many times it has connected and disconnected.
pub struct RefCountModel<T, E> {
    pub connectable: ConnectableModel<T, E>,
    pub holders: Seq<bool>,
    pub connection: Option<Subscription>,
    pub connects: nat,
    pub disconnects: nat,
}

impl<T, E> RefCountModel<T, E> {
    pub open spec fn count(self) -> nat {
        live(self.holders)
    }

    pub open spec fn counters(self) -> RefCountCounters {
        RefCountCounters { holders: self.holders, connects: self.connects, cancels: self.disconnects }
    }
}

/// A connectable observable that connects itself when its first subscriber
/// arrives and cancels that connection when its last one leaves.
pub struct RefCount<T, E, R> {
    connectable: ConnectableObservable<T, E, R>,
    holders: Vec<bool>,
    count: usize,
    connection: Option<Subscription>,
    connects: u64,
    disconnects: u64,
}

pub type LocalRefCount<T, E> = RefCount<T, E, Local>;

pub type SharedRefCount<T, E> = RefCount<T, E, Shared>;

impl<T, E, R> View for RefCount<T, E, R> {
    type V = RefCountModel<T, E>;

    closed spec fn view(&self) -> RefCountModel<T, E> {
        RefCountModel {
            connectable: self.connectable@,
            holders: self.holders@,
            connection: self.connection,
            connects: self.connects as nat,
            disconnects: self.disconnects as nat,
        }
    }
}

impl<T, E, R> RefCount<T, E, R> {
    pub closed spec fn wf(&self) -> bool {
        &&& self.connectable.wf()
        &&& self.holders@.len() == self.connectable@.subject.count()
        &&& self.count == live(self.holders@)
        &&& (self.connection is Some <==> self.count > 0)
        &&& self@.counters().balanced()
        &&& self.connects <= self.connectable@.source.executions
        &&& self.count > 0 ==> self.connectable@.connection == self.connection
        &&& self.count == 0 && self.connects > 0 ==> self.connectable@.connection is None
    }

    /// What holds of every well-formed reference-counted observable: a
    /// connection is held exactly while someone holds it, it is the one the
    /// connectable stores, and once the count is back at zero the connectable
    /// holds no connection, so the next subscriber starts a new execution.
    pub proof fn lemma_wf(&self)
        requires
            self.wf(),
        ensures
            self@.connectable.wf(),
            self@.connection is Some <==> self@.count() > 0,
            self@.counters().balanced(),
            self@.count() > 0 ==> self@.connectable.connection == self@.connection,
            self@.count() == 0 && self@.connects > 0 ==> !self@.connectable.connected(),
    {
        self.connectable.lemma_wf();
    }

    /// The state right after wrapping `c`: nobody holds it, nothing has been
    /// connected by it.
    pub open spec fn start(c: ConnectableModel<T, E>) -> RefCountModel<T, E> {
        RefCountModel {
            connectable: c,
            holders: Seq::new(c.subject.count(), |i: int| false),
            connection: None,
            connects: 0,
            disconnects: 0,
        }
    }

    pub fn new(connectable: ConnectableObservable<T, E, R>) -> (r: Self)
        requires
            connectable.wf(),
        ensures
            r.wf(),
            r@ == Self::start(connectable@),
    {
        let n = connectable.subject().observer_count();
        let mut holders: Vec<bool> = Vec::new();
        let mut k: usize = 0;
        while k < n
            invariant
                k <= n,
                holders@ =~= Seq::new(k as nat, |i: int| false),
            decreases n - k,
        {
            holders.push(false);
            k += 1;
        }
        proof {
            lemma_live_none(n as nat);
        }
        let r = RefCount { connectable, holders, count: 0, connection: None, connects: 0, disconnects: 0 };
        assert(r@.holders =~= Self::start(connectable@).holders);
        r
    }

    /// How many subscribers hold it now.
    pub fn count(&self) -> (r: usize)
        requires
            self.wf(),
        ensures
            r == self@.count(),
    {
        self.count
    }

    pub fn connection(&self) -> (r: Option<Subscription>)
        ensures
            r == self@.connection,
    {
        self.connection
    }

    /// How many times it has connected.
    pub fn connects(&self) -> (r: u64)
        ensures
            r == self@.connects,
    {
        self.connects
    }

    /// How many connections it has cancelled.
    pub fn disconnects(&self) -> (r: u64)
        ensures
            r == self@.disconnects,
    {
        self.disconnects
    }

    pub fn connectable(&self) -> (r: &ConnectableObservable<T, E, R>)
        ensures
            r@ == self@.connectable,
            self.wf() ==> r.wf(),
    {
        &self.connectable
    }

    /// Ends the hold of subscriber `id`: unregisters it and, when it was the
    /// last holder, disconnects the connectable and returns the cancelled
    /// token. Unknown or already released numbers change nothing.
    pub fn unsubscribe(&mut self, id: usize) -> (r: Option<Subscription>)
        requires
            old(self).wf(),
        ensures
            final(self).wf(),
            final(self)@.counters() == old(self)@.counters().step(RefCountOp::Unsubscribe(id as int)),
            ({
                let held = id < old(self)@.holders.len() && old(self)@.holders[id as int];
                let last = held && old(self)@.count() == 1;
                &&& final(self)@.connectable == (if last {
                    old(self)@.connectable.unregister(id as int).disconnect()
                } else if held {
                    old(self)@.connectable.unregister(id as int)
                } else {
                    old(self)@.connectable
                })
                &&& final(self)@.connection == (if last {
                    None
                } else {
                    old(self)@.connection
                })
                &&& r == (if last {
                    Some(Subscription { closed: true, ..old(self)@.connection.unwrap() })
                } else {
                    None
                })
            }),
    {
        if id >= self.holders.len() || !self.holders[id] {
            return None;
        }
        proof {
            lemma_live_clear(self.holders@, id as int);
        }
        self.holders.set(id, false);
        self.connectable.unsubscribe(id);
        self.count = self.count - 1;
        if self.count == 0 {
            let cancelled = self.connectable.disconnect();
            self.connection = None;
            self.disconnects = self.disconnects + 1;
            cancelled
        } else {
            None
        }
    }
}

impl<T: Copy, E: Copy, R> RefCount<T, E, R> {
    /// Registers a new subscriber and returns its number; the first holder
    /// also connects, after registering, so it sees the whole execution.
    pub fn subscribe(&mut self) -> (id: usize)
        requires
            old(self).wf(),
            old(self)@.count() == 0 && !old(self)@.connectable.connected()
                ==> old(self)@.connectable.source.executions < u64::MAX,
        ensures
            final(self).wf(),
            id == old(self)@.connectable.subject.count(),
            final(self)@.counters() == old(self)@.counters().step(RefCountOp::Subscribe),
            old(self)@.count() == 0 ==> final(self)@.connectable
                == old(self)@.connectable.register().connect() && final(self)@.connection
                == Some(old(self)@.connectable.register().connect_result()),
            old(self)@.count() == 0 && old(self)@.connects > 0 ==> final(self)@.connectable.source.executions
                == old(self)@.connectable.source.executions + 1,
            old(self)@.count() > 0 ==> final(self)@.connectable
                == old(self)@.connectable.register() && final(self)@.connection
                == old(self)@.connection,
    {
        proof {
            self.connectable.lemma_wf();
        }
        let id = self.connectable.subscribe();
        proof {
            lemma_live_push(self.holders@, true);
            lemma_live_bound(self.holders@.push(true));
        }
        self.holders.push(true);
        let first = self.count == 0;
        // The count never exceeds the number of handles, which fits in usize.
        let handles = self.holders.len();
        assert(self.count < handles);
        self.count = self.count + 1;
        if first {
            let token = self.connectable.connect_subject();
            self.connection = Some(token);
            self.connects = self.connects + 1;
        }
        id
    }
}

} // verus!
