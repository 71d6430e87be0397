//! The schema metadata row.
//!
//! The store keeps a single metadata row naming the database's UUID and
//! its schema version. Only one pinned major/minor version is supported;
//! any other version is a fatal refusal to proceed.

use crate::db_uuid::DbUuid;
use crate::ids::InformationId;
use vstd::prelude::*;

verus! {

/// The first schema metadata row carrying the given database UUID.
pub open spec fn find_information_by_uuid(rows: Seq<Information>, uuid: DbUuid) -> Option<
    Information,
>
    decreases rows.len(),
{
    if rows.len() == 0 {
        None
    } else if rows.first().uuid == uuid {
        Some(rows.first())
    } else {
        find_information_by_uuid(rows.drop_first(), uuid)
    }
}

/// Latest schema major version.
///
/// Only the latest schema version is supported.
pub const SCHEMA_VERSION_MAJOR: u32 = 3;

/// Latest schema minor version.
///
/// Only the latest schema version is supported.
pub const SCHEMA_VERSION_MINOR: u32 = 0;

/// A schema version triple.
#[derive(Debug, Clone, Copy, PartialEq, Eq, Structural, PartialOrd, Ord, Hash)]
pub struct SchemaVersion {
    pub major: u32,
    pub minor: u32,
    pub patch: u32,
}

impl SchemaVersion {
    pub open spec fn spec_is_supported(&self) -> bool {
        self.major == SCHEMA_VERSION_MAJOR && self.minor == SCHEMA_VERSION_MINOR
    }

    /// Whether this crate supports the version: the major and minor
    /// numbers must equal the pinned supported version exactly; the patch
    /// number does not matter.
    #[verifier::when_used_as_spec(spec_is_supported)]
    pub fn is_supported(&self) -> (r: bool)
        ensures
            r == self.spec_is_supported(),
    {
        self.major == SCHEMA_VERSION_MAJOR && self.minor == SCHEMA_VERSION_MINOR
    }
}

/// Database information: the schema metadata row.
///
/// The version numbers are kept as the raw signed column values; see
/// [`Information::schema_version`]. Two column names of this table carry
/// inherited typos that the storage layer must keep exactly.
#[derive(Debug, Clone, Copy)]
pub struct Information {
    pub id: InformationId,
    pub uuid: DbUuid,
    pub schema_version_major: i64,
    pub schema_version_minor: i64,
    pub schema_version_patch: i64,
    pub current_played_indicator: Option<i64>,
    pub last_rekord_box_library_import_read_counter: Option<i64>,
}

impl Information {
    pub fn id(&self) -> (r: InformationId)
        ensures
            r == self.id,
    {
        self.id
    }

    pub fn uuid(&self) -> (r: &DbUuid)
        ensures
            r == self.uuid,
    {
        &self.uuid
    }

    /// The raw version columns are in range for a version triple.
    pub open spec fn version_in_range(&self) -> bool {
        &&& 0 <= self.schema_version_major <= u32::MAX
        &&& 0 <= self.schema_version_minor <= u32::MAX
        &&& 0 <= self.schema_version_patch <= u32::MAX
    }

    /// The version triple the raw columns spell.
    pub open spec fn spec_schema_version(&self) -> SchemaVersion {
        SchemaVersion {
            major: self.schema_version_major as u32,
            minor: self.schema_version_minor as u32,
            patch: self.schema_version_patch as u32,
        }
    }

    /// Whether the raw columns spell a supported schema version.
    pub open spec fn spec_version_supported(&self) -> bool {
        self.schema_version_major == SCHEMA_VERSION_MAJOR as i64 && self.schema_version_minor
            == SCHEMA_VERSION_MINOR as i64
    }

    /// Gets the schema version.
    ///
    /// The raw column values must be in range; out-of-range metadata is
    /// rejected when the store is opened.
    pub fn schema_version(&self) -> (r: SchemaVersion)
        requires
            self.version_in_range(),
        ensures
            r == self.spec_schema_version(),
    {
        SchemaVersion {
            major: self.schema_version_major as u32,
            minor: self.schema_version_minor as u32,
            patch: self.schema_version_patch as u32,
        }
    }

    /// Loads the schema metadata row with the given UUID from the loaded
    /// rows.
    ///
    /// Returns `None` if no row carries that UUID.
    pub fn try_load_by_uuid(rows: &Vec<Information>, uuid: &DbUuid) -> (r: Option<Information>)
        ensures
            r == find_information_by_uuid(rows@, *uuid),
    {
        let ghost rs = rows@;
        proof {
            assert(rs.skip(0) =~= rs);
        }
        let mut i: usize = 0;
        while i < rows.len()
            invariant
                rs == rows@,
                i <= rs.len(),
                find_information_by_uuid(rs, *uuid) == find_information_by_uuid(
                    rs.skip(i as int),
                    *uuid,
                ),
            decreases rs.len() - i,
        {
            proof {
                assert(rs.skip(i as int).first() == rs[i as int]);
                assert(rs.skip(i as int).drop_first() =~= rs.skip(i + 1));
            }
            if rows[i].uuid == *uuid {
                proof {
                    crate::db_uuid::lemma_uuid_field_eq(rs[i as int].uuid, *uuid);
                }
                return Some(rows[i]);
            }
            i = i + 1;
        }
        None
    }

    /// Whether the raw version columns name the supported version,
    /// without requiring them to be in range first.
    pub fn version_supported(&self) -> (r: bool)
        ensures
            r == self.spec_version_supported(),
    {
        self.schema_version_major == SCHEMA_VERSION_MAJOR as i64 && self.schema_version_minor
            == SCHEMA_VERSION_MINOR as i64
    }
}

} // verus!
