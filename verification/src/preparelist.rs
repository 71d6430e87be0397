//! Prepare list rows.

use crate::ids::PreparelistEntryId;
use crate::ids::TrackId;
use vstd::prelude::*;

verus! {

/// Entry in the prepare list.
///
/// The terminology used in the schema is confusing and the table
/// should have been named `PreparelistEntry` instead of
/// `PreparelistEntity`.
#[derive(Debug, Clone, Copy)]
pub struct PreparelistEntry {
    pub id: PreparelistEntryId,
    pub track_id: TrackId,
    pub track_number: i64,
}

} // verus!
