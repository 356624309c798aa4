use vstd::prelude::*;
use crate::notification::{Notification, next_values};

verus! {

/// The abstract state of a subject.
///
/// Observers are numbered from zero in the order in which they registered;
/// `inboxes[i]` is everything observer `i` has received so far, and
/// `active[i]` says whether it is still registered.
pub struct SubjectModel<T, E> {
    pub inboxes: Seq<Seq<Notification<T, E>>>,
    pub active: Seq<bool>,
    pub stopped: bool,
}

impl<T, E> SubjectModel<T, E> {
    pub open spec fn wf(self) -> bool {
        &&& self.inboxes.len() == self.active.len()
        &&& self.stopped ==> forall|i: int| 0 <= i < self.active.len() ==> !#[trigger] self.active[i]
    }

    pub open spec fn empty() -> Self {
        SubjectModel { inboxes: Seq::empty(), active: Seq::empty(), stopped: false }
    }

    pub open spec fn count(self) -> nat {
        self.inboxes.len()
    }

    /// A new observer joins at the end of the registration order. Once the
    /// subject has stopped, late observers are dropped: they stay
    /// unregistered and never receive anything.
    pub open spec fn register(self) -> Self {
        SubjectModel {
            inboxes: self.inboxes.push(Seq::empty()),
            active: self.active.push(!self.stopped),
            stopped: self.stopped,
        }
    }

    pub open spec fn unregister(self, id: int) -> Self {
        if 0 <= id < self.active.len() {
            SubjectModel { active: self.active.update(id, false), ..self }
        } else {
            self
        }
    }

    /// `n` reaches every registered observer; a terminal `n` then clears the
    /// registrations and stops the subject, after which nothing is delivered.
    pub open spec fn deliver(self, n: Notification<T, E>) -> Self {
        if self.stopped {
            self
        } else {
            SubjectModel {
                inboxes: Seq::new(
                    self.inboxes.len(),
                    |i: int|
                        if self.active[i] {
                            self.inboxes[i].push(n)
                        } else {
                            self.inboxes[i]
                        },
                ),
                active: if n.is_terminal() {
                    Seq::new(self.active.len(), |i: int| false)
                } else {
                    self.active
                },
                stopped: n.is_terminal(),
            }
        }
    }

    /// The subject after receiving each notification of `s` in turn.
    pub open spec fn deliver_all(self, s: Seq<Notification<T, E>>) -> Self
        decreases s.len(),
    {
        if s.len() == 0 {
            self
        } else {
            self.deliver_all(s.drop_last()).deliver(s.last())
        }
    }
}

/// Delivering never adds or removes observers.
pub proof fn lemma_deliver_all_count<T, E>(m: SubjectModel<T, E>, s: Seq<Notification<T, E>>)
    ensures
        m.deliver_all(s).count() == m.count(),
    decreases s.len(),
{
    if s.len() > 0 {
        lemma_deliver_all_count(m, s.drop_last());
    }
}

proof fn lemma_stopped_run<T, E>(m: SubjectModel<T, E>, s: Seq<Notification<T, E>>)
    requires
        m.stopped,
    ensures
        m.deliver_all(s) == m,
    decreases s.len(),
{
    if s.len() > 0 {
        lemma_stopped_run(m, s.drop_last());
    }
}

/// After a terminal notification the subject is stopped and nothing more is
/// delivered, neither to the observers registered then nor to one that
/// registers afterwards, which is never registered at all.
pub proof fn terminal_finality<T, E>(
    m: SubjectModel<T, E>,
    t: Notification<T, E>,
    later: Seq<Notification<T, E>>,
)
    requires
        m.wf(),
        t.is_terminal(),
    ensures
        m.deliver(t).stopped,
        m.deliver(t).wf(),
        m.deliver(t).deliver_all(later) == m.deliver(t),
        m.deliver(t).register().deliver_all(later) == m.deliver(t).register(),
        !m.deliver(t).register().active.last(),
        m.deliver(t).register().inboxes.last() == Seq::<Notification<T, E>>::empty(),
{
    let s = m.deliver(t);
    lemma_stopped_run(s, later);
    lemma_stopped_run(s.register(), later);
}

/// While no terminal notification arrives, an open subject keeps every
/// registered observer, and each one receives the whole stream.
pub proof fn lemma_open_run<T, E>(m: SubjectModel<T, E>, p: Seq<Notification<T, E>>, i: int)
    requires
        m.wf(),
        !m.stopped,
        0 <= i < m.count(),
        m.active[i],
        forall|k: int| 0 <= k < p.len() ==> !(#[trigger] p[k]).is_terminal(),
    ensures
        m.deliver_all(p).wf(),
        !m.deliver_all(p).stopped,
        m.deliver_all(p).count() == m.count(),
        m.deliver_all(p).active[i],
        m.deliver_all(p).inboxes[i] == m.inboxes[i] + p,
    decreases p.len(),
{
    if p.len() > 0 {
        let q = p.drop_last();
        assert forall|k: int| 0 <= k < q.len() implies !(#[trigger] q[k]).is_terminal() by {
            assert(q[k] == p[k]);
        }
        lemma_open_run(m, q, i);
        assert(!p[p.len() - 1].is_terminal());
        assert(m.inboxes[i] + p =~= (m.inboxes[i] + q).push(p.last()));
    }
}

/// A multicast hub: an observer of one stream and an observable for many.
pub struct Subject<T, E> {
    inboxes: Vec<Vec<Notification<T, E>>>,
    active: Vec<bool>,
    stopped: bool,
}

impl<T, E> View for Subject<T, E> {
    type V = SubjectModel<T, E>;

    closed spec fn view(&self) -> SubjectModel<T, E> {
        SubjectModel {
            inboxes: Seq::new(self.inboxes@.len(), |i: int| self.inboxes@[i]@),
            active: self.active@,
            stopped: self.stopped,
        }
    }
}

impl<T, E> Subject<T, E> {
    pub closed spec fn wf(&self) -> bool {
        &&& self.inboxes@.len() == self.active@.len()
        &&& self@.wf()
    }

    pub proof fn lemma_wf(&self)
        requires
            self.wf(),
        ensures
            self@.wf(),
    {
    }

    /// A subject with no observers, not yet stopped.
    pub fn new() -> (r: Self)
        ensures
            r.wf(),
            r@ == SubjectModel::<T, E>::empty(),
    {
        let r = Subject { inboxes: Vec::new(), active: Vec::new(), stopped: false };
        assert(r@.inboxes =~= Seq::<Seq<Notification<T, E>>>::empty());
        r
    }

    pub fn is_stopped(&self) -> (r: bool)
        ensures
            r == self@.stopped,
    {
        self.stopped
    }

    /// The number of observers that ever registered.
    pub fn observer_count(&self) -> (r: usize)
        requires
            self.wf(),
        ensures
            r == self@.count(),
    {
        self.inboxes.len()
    }

    pub fn is_registered(&self, id: usize) -> (r: bool)
        requires
            self.wf(),
        ensures
            r == (id < self@.count() && self@.active[id as int]),
    {
        id < self.active.len() && self.active[id]
    }

    /// Everything observer `id` has received, in order.
    pub fn received(&self, id: usize) -> (r: &Vec<Notification<T, E>>)
        requires
            self.wf(),
            id < self@.count(),
        ensures
            r@ == self@.inboxes[id as int],
    {
        &self.inboxes[id]
    }

    /// Registers a new observer and returns its number.
    pub fn subscribe(&mut self) -> (id: usize)
        requires
            old(self).wf(),
        ensures
            final(self).wf(),
            id == old(self)@.count(),
            final(self)@ == old(self)@.register(),
    {
        let id = self.inboxes.len();
        self.inboxes.push(Vec::new());
        self.active.push(!self.stopped);
        assert(self@.inboxes =~= old(self)@.inboxes.push(Seq::empty()));
        id
    }

    /// Removes observer `id` from the registrations; unknown numbers and
    /// repeated calls change nothing.
    pub fn unsubscribe(&mut self, id: usize)
        requires
            old(self).wf(),
        ensures
            final(self).wf(),
            final(self)@ == old(self)@.unregister(id as int),
    {
        if id < self.active.len() {
            self.active.set(id, false);
            assert(self@.inboxes =~= old(self)@.inboxes);
        }
    }
}

impl<T: Copy, E: Copy> Subject<T, E> {
    /// The values observer `id` has received, in order.
    pub fn values(&self, id: usize) -> (r: Vec<T>)
        requires
            self.wf(),
            id < self@.count(),
        ensures
            r@ == next_values(self@.inboxes[id as int]),
    {
        let inbox = &self.inboxes[id];
        let mut r: Vec<T> = Vec::new();
        let mut k: usize = 0;
        while k < inbox.len()
            invariant
                k <= inbox@.len(),
                inbox@ == self@.inboxes[id as int],
                r@ == next_values(inbox@.take(k as int)),
            decreases inbox@.len() - k,
        {
            assert(inbox@.take(k + 1).drop_last() =~= inbox@.take(k as int));
            match inbox[k] {
                Notification::Next(v) => r.push(v),
                _ => {},
            }
            k += 1;
        }
        assert(inbox@.take(inbox@.len() as int) =~= inbox@);
        r
    }

    /// Hands `n` to every registered observer, in registration order.
    pub fn deliver(&mut self, n: Notification<T, E>)
        requires
            old(self).wf(),
        ensures
            final(self).wf(),
            final(self)@ == old(self)@.deliver(n),
    {
        if self.stopped {
            return;
        }
        let len = self.inboxes.len();
        let mut i: usize = 0;
        while i < len
            invariant
                i <= len,
                len == self.inboxes@.len(),
                len == old(self).inboxes@.len(),
                len == self.active@.len(),
                self.active@ == old(self).active@,
                self.stopped == old(self).stopped,
                !self.stopped,
                forall|j: int|
                    0 <= j < i ==> (#[trigger] self.inboxes@[j])@ == (if self.active@[j] {
                        old(self).inboxes@[j]@.push(n)
                    } else {
                        old(self).inboxes@[j]@
                    }),
                forall|j: int| i <= j < len ==> (#[trigger] self.inboxes@[j])@ == old(self).inboxes@[j]@,
            decreases len - i,
        {
            if self.active[i] {
                self.inboxes[i].push(n);
            }
            i += 1;
        }
        assert(self@.inboxes =~= old(self)@.deliver(n).inboxes);
        if n.terminal() {
            let ghost filled = self.inboxes@;
            let mut k: usize = 0;
            while k < len
                invariant
                    k <= len,
                    self.inboxes@ == filled,
                    len == self.active@.len(),
                    forall|j: int| 0 <= j < k ==> !#[trigger] self.active@[j],
                decreases len - k,
            {
                self.active.set(k, false);
                k += 1;
            }
            self.stopped = true;
            assert(self@.active =~= old(self)@.deliver(n).active);
        }
    }

    pub fn next(&mut self, value: T)
        requires
            old(self).wf(),
        ensures
            final(self).wf(),
            final(self)@ == old(self)@.deliver(Notification::Next(value)),
    {
        self.deliver(Notification::Next(value));
    }

    pub fn error(&mut self, err: E)
        requires
            old(self).wf(),
        ensures
            final(self).wf(),
            final(self)@ == old(self)@.deliver(Notification::Error(err)),
    {
        self.deliver(Notification::Error(err));
    }

    pub fn complete(&mut self)
        requires
            old(self).wf(),
        ensures
            final(self).wf(),
            final(self)@ == old(self)@.deliver(Notification::Complete),
    {
        self.deliver(Notification::Complete);
    }
}

} // verus!
