//! The failure taxonomy shared by the whole ingestion core.

use vstd::prelude::*;

verus! {

/// The failure taxonomy of the ingestion core.
///
/// `Fetch` covers network trouble (timeouts, non-success statuses),
/// `Parse` a document that is not a well-formed feed, `Persistence` a
/// genuine store failure (never a duplicate), and `Registry` a failure
/// to list the registered feeds at the start of a cycle.
#[derive(Clone, Copy, Debug, PartialEq, Eq, Structural)]
pub enum IngestError {
    Fetch,
    Parse,
    Persistence,
    Registry,
}

} // verus!
