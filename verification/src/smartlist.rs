//! Smart list rows.

use crate::db_uuid::SmartlistUuid;
use crate::unix_timestamp::UnixTimestamp;
use vstd::prelude::*;

pub mod rules;

verus! {

/// A smart list row.
#[derive(Debug, Clone)]
pub struct Smartlist {
    pub list_uuid: SmartlistUuid,
    pub title: String,
    pub parent_playlist_path: String,
    pub next_playlist_path: String,
    pub next_list_uuid: SmartlistUuid,
    pub rules: SmartlistRules,
    pub last_edit_time: UnixTimestamp,
}

/// The rule set of a smart list.
///
/// Stored as a serialized document whose outer key names the match mode;
/// that key is a reserved word, so the field carries a plain name here.
#[derive(Debug, Clone, PartialEq, Eq)]
pub struct SmartlistRules {
    pub match_mode: SmartlistRulesMatch,
    pub rules: Vec<SmartlistRulesItem>,
    pub rv: u32,
}

/// One rule of a smart list.
#[derive(Debug, Clone, PartialEq, Eq)]
pub struct SmartlistRulesItem {
    pub col: String,
    pub con: String,
    pub param: String,
    pub v: String,
}

/// Whether one matching rule suffices or all must match.
#[derive(Debug, Clone, Copy, PartialEq, Eq, Structural)]
pub enum SmartlistRulesMatch {
    One,
    All,
}

} // verus!
