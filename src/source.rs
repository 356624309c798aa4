use vstd::prelude::*;
use crate::notification::{Notification, has_terminal};
use crate::subject::{Subject, SubjectModel};
use crate::subscription::Subscription;

verus! {

/// A stream obeys the observer protocol when nothing follows a terminal
/// notification.
pub open spec fn stream_wf<T, E>(s: Seq<Notification<T, E>>) -> bool {
    forall|k: int| 0 <= k < s.len() - 1 ==> !(#[trigger] s[k]).is_terminal()
}

/// The abstract state of a cold source: what each execution emits, and how
/// many executions have been started.
pub struct SourceModel<T, E> {
    pub emissions: Seq<Notification<T, E>>,
    pub executions: nat,
}

/// A cold observable: every subscription starts a new execution, which emits
/// the same notifications synchronously to the subscribing observer.
pub struct ColdSource<T, E> {
    emissions: Vec<Notification<T, E>>,
    executions: u64,
}

impl<T, E> View for ColdSource<T, E> {
    type V = SourceModel<T, E>;

    closed spec fn view(&self) -> SourceModel<T, E> {
        SourceModel { emissions: self.emissions@, executions: self.executions as nat }
    }
}

proof fn lemma_has_terminal_push<T, E>(s: Seq<Notification<T, E>>, n: Notification<T, E>)
    ensures
        has_terminal(s.push(n)) == (has_terminal(s) || n.is_terminal()),
{
    let t = s.push(n);
    if has_terminal(s) {
        let k = choose|k: int| 0 <= k < s.len() && (#[trigger] s[k]).is_terminal();
        assert(t[k] == s[k]);
    }
    if n.is_terminal() {
        assert(t[s.len() as int] == n);
    }
    if has_terminal(t) {
        let k = choose|k: int| 0 <= k < t.len() && (#[trigger] t[k]).is_terminal();
        if k < s.len() {
            assert(t[k] == s[k]);
        }
    }
}

impl<T, E> ColdSource<T, E> {
    pub fn executions(&self) -> (r: u64)
        ensures
            r == self@.executions,
    {
        self.executions
    }

    pub fn emissions(&self) -> (r: &Vec<Notification<T, E>>)
        ensures
            r@ == self@.emissions,
    {
        &self.emissions
    }

    /// Emits `err` and stops.
    pub fn throw(err: E) -> (r: Self)
        ensures
            r@.emissions == seq![Notification::<T, E>::Error(err)],
            r@.executions == 0,
            stream_wf(r@.emissions),
    {
        ColdSource { emissions: vec![Notification::Error(err)], executions: 0 }
    }
}

impl<T: Copy, E: Copy> ColdSource<T, E> {
    /// Emits `value` and completes.
    pub fn of(value: T) -> (r: Self)
        ensures
            r@.emissions == seq![Notification::<T, E>::Next(value), Notification::Complete],
            r@.executions == 0,
            stream_wf(r@.emissions),
    {
        ColdSource { emissions: vec![Notification::Next(value), Notification::Complete], executions: 0 }
    }

    /// Emits `values` in order, then completes if `completes` holds, and
    /// otherwise stays open.
    pub fn from_values(values: &Vec<T>, completes: bool) -> (r: Self)
        ensures
            r@.emissions == (if completes {
                Seq::new(values@.len(), |k: int| Notification::<T, E>::Next(values@[k])).push(
                    Notification::Complete,
                )
            } else {
                Seq::new(values@.len(), |k: int| Notification::<T, E>::Next(values@[k]))
            }),
            r@.executions == 0,
            stream_wf(r@.emissions),
    {
        let mut emissions: Vec<Notification<T, E>> = Vec::new();
        let mut k: usize = 0;
        while k < values.len()
            invariant
                k <= values@.len(),
                emissions@ =~= Seq::new(k as nat, |j: int| Notification::<T, E>::Next(values@[j])),
            decreases values@.len() - k,
        {
            emissions.push(Notification::Next(values[k]));
            k += 1;
        }
        if completes {
            emissions.push(Notification::Complete);
        }
        ColdSource { emissions, executions: 0 }
    }
}

impl<T: Copy, E: Copy> ColdSource<T, E> {
    /// Starts a new execution with `sink` as its observer: every emission
    /// goes to `sink` in order. The returned token names the execution and is
    /// already closed when the execution has ended.
    pub fn subscribe(&mut self, sink: &mut Subject<T, E>) -> (r: Subscription)
        requires
            old(sink).wf(),
            old(self)@.executions < u64::MAX,
        ensures
            final(sink).wf(),
            final(sink)@ == old(sink)@.deliver_all(old(self)@.emissions),
            final(self)@.emissions == old(self)@.emissions,
            final(self)@.executions == old(self)@.executions + 1,
            r.id == final(self)@.executions,
            r.closed == has_terminal(old(self)@.emissions),
    {
        self.executions = self.executions + 1;
        let ghost start = sink@;
        let len = self.emissions.len();
        let mut closed = false;
        let mut k: usize = 0;
        while k < len
            invariant
                k <= len,
                len == self.emissions@.len(),
                self.emissions@ == old(self)@.emissions,
                sink.wf(),
                sink@ == start.deliver_all(self.emissions@.take(k as int)),
                closed == has_terminal(self.emissions@.take(k as int)),
            decreases len - k,
        {
            let n = self.emissions[k];
            proof {
                let p = self.emissions@.take(k as int);
                let q = self.emissions@.take(k + 1);
                assert(q.drop_last() =~= p);
                assert(q =~= p.push(n));
                lemma_has_terminal_push(p, n);
            }
            sink.deliver(n);
            if n.terminal() {
                closed = true;
            }
            k += 1;
        }
        assert(self.emissions@.take(len as int) =~= self.emissions@);
        Subscription { id: self.executions, closed }
    }
}

} // verus!
