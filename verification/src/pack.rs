//! Pack rows.

use crate::db_uuid::DbUuid;
use crate::db_uuid::PackUuid;
use crate::ids::ChangeLogId;
use crate::ids::PackId;
use crate::unix_timestamp::UnixTimestamp;
use vstd::prelude::*;

verus! {

/// A pack row.
#[derive(Debug, Clone, Copy)]
pub struct Pack {
    pub id: PackId,
    pub pack_id: PackUuid,
    pub change_log_database_uuid: DbUuid,
    pub change_log_id: ChangeLogId,
    pub last_pack_time: UnixTimestamp,
}

} // verus!
