//! Manipulation of the embedded library database of a DJ application.
//!
//! The crate models the database tables that matter for playlist
//! maintenance as plain rows and provides verified operations on them:
//! decomposing file system paths into a portable form, deriving the
//! library root from the database file's own path, converting track
//! paths between their stored and file system forms, resolving track
//! references across origin databases, and maintaining the ordered,
//! chain-linked membership rows of playlists.

mod album_art;
mod batch;
mod changelog;
mod database;
mod db_uuid;
mod error;
mod file_path;
mod historylist;
mod ids;
mod information;
mod library_path;
mod pack;
mod performance;
mod playlist;
mod preparelist;
mod smartlist;
mod track;
mod unix_timestamp;

pub use album_art::{AlbumArt, AlbumArtImageQuality};
pub use batch::{BatchOutcome, TrackFileIssue, TrackFileIssueItem};
pub use changelog::ChangeLog;
pub use database::{
    empty_leaf_playlists, find_entity, find_playlist, find_playlist_path, find_track_by_path,
    is_empty_leaf, lemma_max_entity_rowid, lemma_reassemble, max_entity_rowid, openable,
    resolve_one, resolve_playlist_track_refs_from_file_paths, sound_membership_table,
    surviving_playlists, terminated_playlist_path, track_path_matches, Database,
};
pub use db_uuid::{
    hex_char_of, hex_digits, lemma_hex_digits_len, lemma_uuid_field_eq, uuid_hyphenated_text, DatabaseUuidKind, DbUuid,
    PackUuid, SmartlistUuid, Uuid,
};
pub use error::{BatchError, LibraryError};
pub use file_path::{
    collapse_onto, collapse_step, components_of, is_absolute_path, is_component,
    is_current_dir_segment, is_normalized, is_normalized_segment, is_parent_dir_segment,
    joined_segments, lemma_collapse_already_normalized, lemma_collapse_normalized,
    lemma_collapse_onto_append, lemma_components_of_path_text, lemma_components_valid,
    lemma_import_path_idempotent, lemma_leading_parents_preserved, lemma_take_normalized, normalized_segments_of, path_text,
    split_from, split_state, split_step, FilePath,
};
pub use historylist::{Historylist, HistorylistEntity};
pub use ids::{
    lemma_id_field_eq, AlbumArtId, ChangeLogId, HistorylistEntityId, HistorylistId, Id,
    InformationId, PackId, PerformanceDataId, PlaylistAllChildrenId, PlaylistAllParentId,
    PlaylistEntityId, PlaylistId, PlaylistPathId, PreparelistEntryId, TrackId,
};
pub use information::{
    find_information_by_uuid, Information, SchemaVersion, SCHEMA_VERSION_MAJOR,
    SCHEMA_VERSION_MINOR,
};
pub use library_path::{
    char_eq_ignore_ascii_case, database_file_to_library_path, library_path_of,
    str_eq_ignore_ascii_case, LibraryPath, LIBRARY_DIRECTORY_NAME,
};
pub use pack::Pack;
pub use performance::PerformanceData;
pub use playlist::{
    adjacent_sorted, append_step, append_to_list, appended_refs,
    concat_playlist_path_segments_to_string, first_max_index, ignored_refs,
    is_valid_playlist_path_segment, is_valid_segment_text, joined_with_separators,
    last_membership_reference, lemma_adjacent_sorted_pairwise, lemma_list_rows_absent,
    lemma_list_rows_append, lemma_list_rows_homogeneous, lemma_list_rows_of_other,
    lemma_split_rows_facts, lemma_split_rows_ids, lemma_track_ref_field_eq, lemma_valid_list_last,
    list_ids_ok, list_rows, next_membership_reference, ordered_list, other_rows,
    playlist_path_text_of, refs_of, replace_in_list, spec_try_load_last, try_load_last_of_list,
    valid_list, Playlist, PlaylistAllChildren, PlaylistAllParent, PlaylistEntity, PlaylistPath,
    PlaylistTrackRef, MIN_MEMBERSHIP_REFERENCE, PLAYLIST_PATH_SEGMENT_SEPARATOR,
};
pub use preparelist::PreparelistEntry;
pub use smartlist::rules::{Rules, RulesItem, RulesMatch};
pub use smartlist::{Smartlist, SmartlistRules, SmartlistRulesItem, SmartlistRulesMatch};
pub use track::{
    canonical_origin, export_track_file_path, import_track_file_path, imported_track_segments,
    lemma_imported_normalized, lemma_track_path_round_trip, parent_dir_text, segments_prefix,
    OriginTrackRef, Track, TrackRef, DEFAULT_ALBUM_ART, RELATIVE_TRACK_PATH_PREFIX,
};
pub use unix_timestamp::UnixTimestamp;
