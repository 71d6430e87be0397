//! History list rows.

use crate::db_uuid::DbUuid;
use crate::ids::HistorylistEntityId;
use crate::ids::HistorylistId;
use crate::ids::TrackId;
use crate::unix_timestamp::UnixTimestamp;
use vstd::prelude::*;

verus! {

/// A history list row: one recorded session.
#[derive(Debug, Clone)]
pub struct Historylist {
    pub id: HistorylistId,
    pub session_id: i64,
    pub title: Option<String>,
    pub start_time: UnixTimestamp,
    pub timezone: Option<String>,
    pub origin_drive_name: Option<String>,
    pub origin_database_id: Option<DbUuid>,
    pub origin_list_id: Option<i64>,
    pub is_deleted: bool,
    pub edit_time: Option<UnixTimestamp>,
}

/// Entry in a [`Historylist`].
///
/// The terminology used in the schema is confusing and the table
/// should have been named `HistorylistEntry` instead of
/// `HistorylistEntity`.
#[derive(Debug, Clone, Copy)]
pub struct HistorylistEntity {
    pub id: HistorylistEntityId,
    pub list_id: HistorylistId,
    pub track_id: TrackId,
    pub start_time: UnixTimestamp,
}

} // verus!
