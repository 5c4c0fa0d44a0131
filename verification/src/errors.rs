use vstd::prelude::*;

verus! {

/// The recoverable failures of the external collaborators, as seen by the
/// library: a corpus fetch that did not fully succeed, and a counter-store
/// operation that could not be completed.
#[derive(Clone, Copy, Debug, PartialEq, Eq, Structural)]
pub enum Error {
    /// The remote corpus source could not be fetched in full; the previous
    /// snapshot stays authoritative.
    FetchFailed,
    /// A persistent counter-store operation failed; the mirror keeps its
    /// last known good state.
    StoreUnavailable,
}

} // verus!
