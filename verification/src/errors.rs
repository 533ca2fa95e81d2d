use vstd::prelude::*;

verus! {

/// Errors surfaced by the upload subsystem.
///
/// Per-item ingest problems (`UnsupportedFormat`) are recovered locally by
/// skipping the item; per-request problems abort the whole operation.
#[derive(Debug, Clone, Copy, PartialEq, Eq, Structural)]
pub enum UploadError {
    /// No resolvable identity; nothing was mutated.
    Unauthenticated,
    /// Identity resolved but lacks ownership or an elevated role; nothing
    /// was mutated.
    Unauthorized,
    /// The referenced index record does not exist; nothing was mutated.
    NotFound,
    /// The payload's format is undetectable or outside the supported set.
    UnsupportedFormat,
    /// A backend I/O failure; fatal for the current operation.
    StoreFailure,
}

} // verus!
