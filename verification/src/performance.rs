//! Performance data rows.

use crate::ids::TrackId;
use vstd::prelude::*;

verus! {

/// A performance data row: the analysis blobs attached to a track.
#[derive(Debug, Clone)]
pub struct PerformanceData {
    pub track_id: TrackId,
    pub track_data: Vec<u8>,
    pub overview_wave_form_data: Vec<u8>,
    pub beat_data: Vec<u8>,
    pub quick_cues: Vec<u8>,
    pub loops: Vec<u8>,
    pub third_party_source_id: Option<i64>,
    pub active_on_load_loops: i64,
}

} // verus!
