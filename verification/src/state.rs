use vstd::prelude::*;

verus! {

/// Lifecycle tag of one file entry, assigned by the scanner and consumed by
/// the reconciler.
#[derive(Debug, Clone, Copy, PartialEq, Eq, Structural, Hash)]
pub enum State {
    /// The entry matches the persisted snapshot.
    Unchanged,
    /// The file is on disk but absent from the persisted snapshot.
    Created,
    /// The file is on disk and newer than the persisted snapshot says.
    Edited,
    /// The entry is in the persisted snapshot but the file is gone.
    Deleted,
}

} // verus!
