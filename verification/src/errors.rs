use vstd::prelude::*;

verus! {

/// Per-item failures of the reconciliation protocol. Each is contained at the
/// item it arose from: the batch as a whole always runs to the end.
#[derive(Clone, Copy, Debug, PartialEq, Eq, Structural)]
pub enum ReconcileError {
    /// The object key has fewer than two slash-separated segments, or its
    /// last segment carries no `.` extension separator.
    MalformedPath,
    /// The store could not be reached for the existence check.
    StoreUnavailable,
    /// The store rejected the insert or update write.
    StoreWrite,
}

} // verus!
