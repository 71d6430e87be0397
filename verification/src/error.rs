//! The error taxonomy of the library.

use vstd::prelude::*;

verus! {

/// Everything that can go wrong in the library's own logic.
///
/// Structural corruption found in a playlist's membership chain
/// ([`ForkedChain`](LibraryError::ForkedChain),
/// [`DanglingTail`](LibraryError::DanglingTail),
/// [`AmbiguousLastEntry`](LibraryError::AmbiguousLastEntry)) is surfaced,
/// never silently repaired.
#[derive(Debug, Clone, Copy, PartialEq, Eq, Structural)]
pub enum LibraryError {
    /// A path segment cannot be represented portably.
    PathError,
    /// An absolute path does not lie under the library's anchor directory.
    BasePathMismatch,
    /// The database file path does not yield a valid library root.
    InvalidLibraryPath,
    /// A track path did not resolve against the store.
    UnknownTrackPath,
    /// A track's self-reference into its own database names another track.
    MismatchingTrackIds,
    /// A membership row points at a successor that is not the next row of
    /// its playlist.
    ForkedChain,
    /// The final membership row of a playlist still points at a successor.
    DanglingTail,
    /// The ordering keys of a playlist are not strictly increasing and
    /// positive, so the last entry cannot be trusted.
    AmbiguousLastEntry,
    /// The schema metadata names a major/minor version this crate does not
    /// support.
    SchemaVersionUnsupported,
    /// A single-row expectation was violated by zero or multiple rows.
    RowCardinalityError,
}

/// An error of a batch operation, carrying the index of the first entry
/// that failed.
#[derive(Debug, Clone, Copy, PartialEq, Eq, Structural)]
pub struct BatchError {
    pub index: usize,
    pub error: LibraryError,
}

} // verus!
