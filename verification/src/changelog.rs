//! Change log rows.

use crate::ids::ChangeLogId;
use crate::ids::TrackId;
use vstd::prelude::*;

verus! {

/// A change log row.
#[derive(Debug, Clone, Copy)]
pub struct ChangeLog {
    pub id: ChangeLogId,
    pub track_id: TrackId,
}

} // verus!
