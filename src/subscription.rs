use vstd::prelude::*;

verus! {

/// A cancellable handle for one active registration.
///
/// `id` tells executions apart; cancelling is idempotent.
#[derive(Clone, Copy, Debug, PartialEq, Eq)]
pub struct Subscription {
    pub id: u64,
    pub closed: bool,
}

impl Subscription {
    pub fn new(id: u64) -> (r: Subscription)
        ensures
            r.id == id,
            !r.closed,
    {
        Subscription { id, closed: false }
    }

    pub fn is_closed(&self) -> (r: bool)
        ensures
            r == self.closed,
    {
        self.closed
    }

    /// Cancels the registration; cancelling twice is the same as once.
    pub fn unsubscribe(&mut self)
        ensures
            final(self).id == old(self).id,
            final(self).closed,
    {
        self.closed = true;
    }
}

} // verus!
