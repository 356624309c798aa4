use vstd::prelude::*;

verus! {

/// One event of a stream: a value, or one of the two terminal signals.
#[derive(Clone, Copy, Debug, PartialEq, Eq)]
pub enum Notification<T, E> {
    Next(T),
    Error(E),
    Complete,
}

impl<T, E> Notification<T, E> {
    /// `error` and `complete` end a stream; `next` does not.
    pub open spec fn is_terminal(self) -> bool {
        !(self is Next)
    }

    pub fn terminal(&self) -> (r: bool)
        ensures
            r == self.is_terminal(),
    {
        match self {
            Notification::Next(_) => false,
            _ => true,
        }
    }
}

/// Whether some notification of `s` ends the stream.
pub open spec fn has_terminal<T, E>(s: Seq<Notification<T, E>>) -> bool {
    exists|k: int| 0 <= k < s.len() && (#[trigger] s[k]).is_terminal()
}

/// The values carried by the `next` notifications of `s`, in order.
pub open spec fn next_values<T, E>(s: Seq<Notification<T, E>>) -> Seq<T>
    decreases s.len(),
{
    if s.len() == 0 {
        Seq::empty()
    } else {
        match s.last() {
            Notification::Next(v) => next_values(s.drop_last()).push(v),
            _ => next_values(s.drop_last()),
        }
    }
}

} // verus!
