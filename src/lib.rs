//! The multicast-connection core of a reactive-stream library: a subject that
//! fans events out to its observers, a connectable observable that separates
//! registering interest from starting the upstream, and a reference-counted
//! wrapper that connects on the first subscriber and disconnects on the last.

pub mod connectable_observable;
pub mod notification;
pub mod ref_count;
pub mod source;
pub mod subject;
pub mod subscription;

pub use connectable_observable::{
    ConnectableModel, ConnectableObservable, Local, LocalConnectableObservable, Shared,
    SharedConnectableObservable,
};
pub use notification::Notification;
pub use ref_count::{
    LocalRefCount, RefCount, RefCountCounters, RefCountModel, RefCountOp, SharedRefCount,
};
pub use source::{ColdSource, SourceModel};
pub use subject::{Subject, SubjectModel};
pub use subscription::Subscription;
