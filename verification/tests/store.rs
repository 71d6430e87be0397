//! The store: opening, membership maintenance, and resolution.

use endjine::{
    resolve_playlist_track_refs_from_file_paths, Database, DbUuid, FilePath, Information,
    InformationId, LibraryError, LibraryPath, Playlist, PlaylistEntity, PlaylistEntityId,
    PlaylistId, PlaylistPath, PlaylistTrackRef, SchemaVersion, Track, TrackId, UnixTimestamp,
    LIBRARY_DIRECTORY_NAME, SCHEMA_VERSION_MAJOR, SCHEMA_VERSION_MINOR,
};

fn info_row(major: i64, minor: i64) -> Information {
    Information {
        id: InformationId::new(1),
        uuid: DbUuid::new(7),
        schema_version_major: major,
        schema_version_minor: minor,
        schema_version_patch: 5,
        current_played_indicator: None,
        last_rekord_box_library_import_read_counter: None,
    }
}

fn supported_info_row() -> Information {
    info_row(SCHEMA_VERSION_MAJOR as i64, SCHEMA_VERSION_MINOR as i64)
}

fn open_with_entities(entities: Vec<PlaylistEntity>) -> Result<Database, LibraryError> {
    Database::open(vec![supported_info_row()], vec![], vec![], vec![], entities)
}

fn track_ref(track: i64) -> PlaylistTrackRef {
    PlaylistTrackRef { track_id: TrackId::new(track), database_uuid: DbUuid::new(7) }
}

fn entity(id: i64, list: i64, track: i64, next: i64, membership_reference: i64) -> PlaylistEntity {
    PlaylistEntity {
        id: PlaylistEntityId::new(id),
        list_id: PlaylistId::new(list),
        track_id: TrackId::new(track),
        database_uuid: DbUuid::new(7),
        next_entity_id: PlaylistEntityId::new(next),
        membership_reference,
    }
}

fn playlist(id: i64, parent: i64, title: &str) -> Playlist {
    Playlist {
        id: PlaylistId::new(id),
        title: title.to_owned(),
        parent_list_id: PlaylistId::new(parent),
        is_persisted: true,
        next_list_id: PlaylistId::new(0),
        last_edit_time: UnixTimestamp { seconds_since_epoch_origin: 0 },
        is_explicitly_exported: false,
    }
}

fn list_refs(db: &Database, list: i64) -> Vec<PlaylistTrackRef> {
    PlaylistEntity::load_list(db, PlaylistId::new(list))
        .iter()
        .map(|e| e.track_ref())
        .collect()
}

#[test]
fn schema_version_supported() {
    assert!(SchemaVersion {
        major: SCHEMA_VERSION_MAJOR,
        minor: SCHEMA_VERSION_MINOR,
        patch: u32::MIN,
    }
    .is_supported());
    assert!(SchemaVersion {
        major: SCHEMA_VERSION_MAJOR,
        minor: SCHEMA_VERSION_MINOR,
        patch: u32::MAX,
    }
    .is_supported());
    assert!(!SchemaVersion {
        major: SCHEMA_VERSION_MAJOR.checked_sub(1).unwrap(),
        minor: SCHEMA_VERSION_MINOR,
        patch: u32::MIN,
    }
    .is_supported());
    assert!(!SchemaVersion {
        major: SCHEMA_VERSION_MAJOR.checked_add(1).unwrap(),
        minor: SCHEMA_VERSION_MINOR,
        patch: u32::MIN,
    }
    .is_supported());
    assert!(!SchemaVersion {
        major: SCHEMA_VERSION_MAJOR,
        minor: SCHEMA_VERSION_MINOR.checked_add(1).unwrap(),
        patch: u32::MIN,
    }
    .is_supported());
}

#[test]
fn open_refuses_unsupported_schema_version() {
    let r = Database::open(vec![info_row(2, 18)], vec![], vec![], vec![], vec![]);
    assert_eq!(r.err(), Some(LibraryError::SchemaVersionUnsupported));
    let r = Database::open(
        vec![info_row(SCHEMA_VERSION_MAJOR as i64, 1)],
        vec![],
        vec![],
        vec![],
        vec![],
    );
    assert_eq!(r.err(), Some(LibraryError::SchemaVersionUnsupported));
}

#[test]
fn open_requires_one_information_row() {
    let r = Database::open(vec![], vec![], vec![], vec![], vec![]);
    assert_eq!(r.err(), Some(LibraryError::RowCardinalityError));
    let r = Database::open(
        vec![supported_info_row(), supported_info_row()],
        vec![],
        vec![],
        vec![],
        vec![],
    );
    assert_eq!(r.err(), Some(LibraryError::RowCardinalityError));
}

#[test]
fn open_detects_chain_corruption() {
    // The last entry still points at a successor.
    let r = open_with_entities(vec![entity(10, 1, 1, 99, 1)]);
    assert_eq!(r.err(), Some(LibraryError::DanglingTail));

    // An interior entry points past its successor.
    let r = open_with_entities(vec![entity(10, 1, 1, 12, 1), entity(11, 1, 2, 0, 2)]);
    assert_eq!(r.err(), Some(LibraryError::ForkedChain));

    // Ordering keys that do not strictly increase.
    let r = open_with_entities(vec![entity(10, 1, 1, 11, 2), entity(11, 1, 2, 0, 2)]);
    assert_eq!(r.err(), Some(LibraryError::AmbiguousLastEntry));
    let r = open_with_entities(vec![entity(10, 1, 1, 0, 0)]);
    assert_eq!(r.err(), Some(LibraryError::AmbiguousLastEntry));

    // Duplicate row identifiers.
    let r = open_with_entities(vec![entity(10, 1, 1, 11, 1), entity(10, 2, 2, 0, 1)]);
    assert_eq!(r.err(), Some(LibraryError::RowCardinalityError));

    // Duplicate track references within one playlist.
    let r = open_with_entities(vec![entity(10, 1, 1, 11, 1), entity(11, 1, 1, 0, 2)]);
    assert_eq!(r.err(), Some(LibraryError::RowCardinalityError));
}

#[test]
fn append_ignores_duplicates_and_keeps_order() {
    let mut db = open_with_entities(vec![]).unwrap();
    let (a, b, c, d) = (track_ref(1), track_ref(2), track_ref(3), track_ref(4));

    let ignored = Playlist::append_tracks(&mut db, PlaylistId::new(1), &vec![a, b, c]).unwrap();
    assert!(ignored.is_empty());
    assert_eq!(list_refs(&db, 1), vec![a, b, c]);

    let ignored = Playlist::append_tracks(&mut db, PlaylistId::new(1), &vec![b, d]).unwrap();
    assert_eq!(ignored, vec![b]);
    assert_eq!(list_refs(&db, 1), vec![a, b, c, d]);

    // The ordering keys continue from 1 and the chain stays linked.
    let rows = PlaylistEntity::load_list(&db, PlaylistId::new(1));
    for (i, row) in rows.iter().enumerate() {
        assert_eq!(row.membership_reference, i as i64 + 1);
        if i + 1 < rows.len() {
            assert_eq!(row.next_entity_id, rows[i + 1].id);
        } else {
            assert!(!row.next_entity_id.is_valid());
        }
    }
}

#[test]
fn replace_shrinks_in_place() {
    // Existing ordered membership [A, B, C] at ordering keys 1, 2, 3.
    let mut db = open_with_entities(vec![
        entity(10, 1, 1, 11, 1),
        entity(11, 1, 2, 12, 2),
        entity(12, 1, 3, 0, 3),
    ])
    .unwrap();
    let (a, d) = (track_ref(1), track_ref(4));

    let ignored = Playlist::replace_tracks(&mut db, PlaylistId::new(1), &vec![a, d]).unwrap();
    assert!(ignored.is_empty());

    let rows = PlaylistEntity::load_list(&db, PlaylistId::new(1));
    assert_eq!(rows.len(), 2);
    // Slot 1 is untouched, slot 2 is overwritten in place, slot 3 is gone.
    assert_eq!(rows[0].id, PlaylistEntityId::new(10));
    assert_eq!(rows[0].track_ref(), a);
    assert_eq!(rows[0].membership_reference, 1);
    assert_eq!(rows[1].id, PlaylistEntityId::new(11));
    assert_eq!(rows[1].track_ref(), d);
    assert_eq!(rows[1].membership_reference, 2);
    // The tail now holds D and closes the chain.
    assert_eq!(rows[0].next_entity_id, rows[1].id);
    assert!(!rows[1].next_entity_id.is_valid());
}

#[test]
fn replace_extends_by_appending() {
    // Existing membership [A] at ordering key 1.
    let mut db = open_with_entities(vec![entity(10, 1, 1, 0, 1)]).unwrap();
    let (a, b, c) = (track_ref(1), track_ref(2), track_ref(3));

    let ignored = Playlist::replace_tracks(&mut db, PlaylistId::new(1), &vec![a, b, c]).unwrap();
    assert!(ignored.is_empty());

    let rows = PlaylistEntity::load_list(&db, PlaylistId::new(1));
    assert_eq!(rows.len(), 3);
    // Slot 1 is reused; B and C are appended, continuing the keys at 2 and 3.
    assert_eq!(rows[0].id, PlaylistEntityId::new(10));
    assert_eq!(rows[0].track_ref(), a);
    assert_eq!(rows[1].track_ref(), b);
    assert_eq!(rows[1].membership_reference, 2);
    assert_eq!(rows[2].track_ref(), c);
    assert_eq!(rows[2].membership_reference, 3);
    assert_eq!(rows[0].next_entity_id, rows[1].id);
    assert_eq!(rows[1].next_entity_id, rows[2].id);
    assert!(!rows[2].next_entity_id.is_valid());
}

#[test]
fn replace_with_empty_list_deletes_everything() {
    let mut db = open_with_entities(vec![entity(10, 1, 1, 0, 1)]).unwrap();
    let ignored = Playlist::replace_tracks(&mut db, PlaylistId::new(1), &vec![]).unwrap();
    assert!(ignored.is_empty());
    assert_eq!(PlaylistEntity::count_list(&db, PlaylistId::new(1)), 0);
}

#[test]
fn other_playlists_keep_their_rows() {
    let mut db = open_with_entities(vec![entity(20, 2, 9, 0, 1)]).unwrap();
    let a = track_ref(1);
    Playlist::append_tracks(&mut db, PlaylistId::new(1), &vec![a]).unwrap();
    assert_eq!(list_refs(&db, 2), vec![track_ref(9)]);
    Playlist::replace_tracks(&mut db, PlaylistId::new(1), &vec![track_ref(5)]).unwrap();
    assert_eq!(list_refs(&db, 2), vec![track_ref(9)]);
    PlaylistEntity::delete_list(&mut db, PlaylistId::new(1));
    assert_eq!(list_refs(&db, 2), vec![track_ref(9)]);
    assert_eq!(PlaylistEntity::count_list(&db, PlaylistId::new(1)), 0);
}

#[test]
fn try_load_last_of_list_validates_the_chain() {
    let db = open_with_entities(vec![
        entity(10, 1, 1, 11, 1),
        entity(11, 1, 2, 0, 2),
    ])
    .unwrap();
    let last = PlaylistEntity::try_load_last_of_list(&db, PlaylistId::new(1)).unwrap();
    assert_eq!(last.unwrap().id, PlaylistEntityId::new(11));
    let none = PlaylistEntity::try_load_last_of_list(&db, PlaylistId::new(9)).unwrap();
    assert!(none.is_none());
}

#[test]
fn delete_empty_leaf_playlists_exposes_parents_pass_by_pass() {
    // A chain of three nested empty playlists.
    let mut db = Database::open(
        vec![supported_info_row()],
        vec![],
        vec![
            playlist(1, 0, "grandparent"),
            playlist(2, 1, "parent"),
            playlist(3, 2, "child"),
        ],
        vec![],
        vec![],
    )
    .unwrap();

    // A single pass removes only the innermost playlist.
    assert_eq!(Playlist::delete_all_empty_without_children(&mut db), 1);
    assert_eq!(db.playlists.len(), 2);
    assert_eq!(db.playlists[0].id, PlaylistId::new(1));
    assert_eq!(db.playlists[1].id, PlaylistId::new(2));

    // Each pass exposes the next newly orphaned leaf.
    assert_eq!(Playlist::delete_all_empty_without_children(&mut db), 1);
    assert_eq!(Playlist::delete_all_empty_without_children(&mut db), 1);
    assert_eq!(Playlist::delete_all_empty_without_children(&mut db), 0);
    assert!(db.playlists.is_empty());
}

#[test]
fn delete_empty_leaf_playlists_keeps_nonempty_ones() {
    let mut db = Database::open(
        vec![supported_info_row()],
        vec![],
        vec![playlist(1, 0, "kept"), playlist(2, 0, "dropped")],
        vec![],
        vec![entity(10, 1, 1, 0, 1)],
    )
    .unwrap();
    assert_eq!(Playlist::delete_all_empty_without_children(&mut db), 1);
    assert_eq!(db.playlists.len(), 1);
    assert_eq!(db.playlists[0].id, PlaylistId::new(1));
}

fn library_path() -> LibraryPath {
    let db_file = format!("/music/{LIBRARY_DIRECTORY_NAME}/Database2/m.db");
    LibraryPath::new(&FilePath::import_path(&db_file)).unwrap()
}

fn stored_track(id: i64, path: &str, origin: Option<endjine::OriginTrackRef>) -> Track {
    Track { id: TrackId::new(id), path: Some(path.to_owned()), origin }
}

#[test]
fn resolve_maps_paths_to_canonical_refs() {
    let db = Database::open(
        vec![supported_info_row()],
        vec![
            stored_track(1, "../a.mp3", None),
            stored_track(2, "../sub/b.mp3", None),
        ],
        vec![],
        vec![],
        vec![],
    )
    .unwrap();
    let local = DbUuid::new(7);
    let paths = vec![
        FilePath::import_path("/music/a.mp3"),
        FilePath::import_path("/music/sub/b.mp3"),
    ];
    let refs =
        resolve_playlist_track_refs_from_file_paths(&db, local, &library_path(), &paths).unwrap();
    assert_eq!(
        refs,
        vec![
            PlaylistTrackRef { track_id: TrackId::new(1), database_uuid: local },
            PlaylistTrackRef { track_id: TrackId::new(2), database_uuid: local },
        ]
    );
}

#[test]
fn resolve_fails_fast_on_the_first_bad_entry() {
    let db = Database::open(
        vec![supported_info_row()],
        vec![stored_track(1, "../a.mp3", None)],
        vec![],
        vec![],
        vec![],
    )
    .unwrap();
    let local = DbUuid::new(7);

    // An unknown path aborts the batch, identifying the entry.
    let paths = vec![
        FilePath::import_path("/music/a.mp3"),
        FilePath::import_path("/music/missing.mp3"),
    ];
    let err = resolve_playlist_track_refs_from_file_paths(&db, local, &library_path(), &paths)
        .unwrap_err();
    assert_eq!(err.index, 1);
    assert_eq!(err.error, LibraryError::UnknownTrackPath);

    // A path outside the anchor does not resolve at all.
    let paths = vec![FilePath::import_path("/elsewhere/a.mp3")];
    let err = resolve_playlist_track_refs_from_file_paths(&db, local, &library_path(), &paths)
        .unwrap_err();
    assert_eq!(err.index, 0);
    assert_eq!(err.error, LibraryError::BasePathMismatch);
}

#[test]
fn resolve_rejects_mismatching_track_ids() {
    let origin = endjine::OriginTrackRef { id: TrackId::new(9), db_uuid: DbUuid::new(7) };
    let db = Database::open(
        vec![supported_info_row()],
        vec![stored_track(1, "../a.mp3", Some(origin))],
        vec![],
        vec![],
        vec![],
    )
    .unwrap();
    // The origin names the local database but a different track.
    let local = DbUuid::new(7);
    let paths = vec![FilePath::import_path("/music/a.mp3")];
    let err = resolve_playlist_track_refs_from_file_paths(&db, local, &library_path(), &paths)
        .unwrap_err();
    assert_eq!(err.error, LibraryError::MismatchingTrackIds);

    // A foreign origin resolves to the origin pair.
    let foreign = DbUuid::new(1234);
    let origin = endjine::OriginTrackRef { id: TrackId::new(9), db_uuid: foreign };
    let db = Database::open(
        vec![supported_info_row()],
        vec![stored_track(1, "../a.mp3", Some(origin))],
        vec![],
        vec![],
        vec![],
    )
    .unwrap();
    let refs = resolve_playlist_track_refs_from_file_paths(&db, local, &library_path(), &paths)
        .unwrap();
    assert_eq!(
        refs,
        vec![PlaylistTrackRef { track_id: TrackId::new(9), database_uuid: foreign }]
    );
}

#[test]
fn find_id_by_path_terminates_the_path() {
    let db = Database::open(
        vec![supported_info_row()],
        vec![],
        vec![],
        vec![PlaylistPath { id: 4, path: String::from("foo;bar;"), position: 1 }],
        vec![],
    )
    .unwrap();
    let id = Playlist::find_id_by_path(&db, "foo;bar").unwrap();
    assert_eq!(id, PlaylistId::new(4));
    let id = Playlist::find_id_by_path(&db, "foo;bar;").unwrap();
    assert_eq!(id, PlaylistId::new(4));
    assert!(Playlist::find_id_by_path(&db, "foo").is_none());
}

#[test]
fn try_load_db_uuid_of_list_detects_mixed_uuids() {
    let db = open_with_entities(vec![entity(10, 1, 1, 11, 1), entity(11, 1, 2, 0, 2)]).unwrap();
    let uuid = PlaylistEntity::try_load_db_uuid_of_list(&db, PlaylistId::new(1)).unwrap();
    assert_eq!(uuid, Some(DbUuid::new(7)));
    let none = PlaylistEntity::try_load_db_uuid_of_list(&db, PlaylistId::new(9)).unwrap();
    assert!(none.is_none());

    let mut mixed = entity(12, 2, 1, 13, 1);
    mixed.database_uuid = DbUuid::new(1);
    let mut other = entity(13, 2, 2, 0, 2);
    other.database_uuid = DbUuid::new(2);
    let db = open_with_entities(vec![mixed, other]).unwrap();
    let err = PlaylistEntity::try_load_db_uuid_of_list(&db, PlaylistId::new(2)).unwrap_err();
    assert_eq!(err, LibraryError::RowCardinalityError);
}

#[test]
fn loading_the_last_entry_reports_corruption() {
    // The entry holding the greatest ordering key still points onward.
    let rows = vec![entity(10, 1, 1, 11, 1), entity(11, 1, 2, 12, 2)];
    assert_eq!(
        endjine::try_load_last_of_list(&rows).err(),
        Some(LibraryError::DanglingTail)
    );
    // The greatest ordering key is not unique.
    let rows = vec![entity(10, 1, 1, 0, 2), entity(11, 1, 2, 0, 2)];
    assert_eq!(
        endjine::try_load_last_of_list(&rows).err(),
        Some(LibraryError::AmbiguousLastEntry)
    );
    // A sound list yields its last row.
    let rows = vec![entity(10, 1, 1, 11, 1), entity(11, 1, 2, 0, 2)];
    assert_eq!(endjine::try_load_last_of_list(&rows).unwrap().unwrap().id.raw, 11);
    let empty: Vec<PlaylistEntity> = vec![];
    assert!(matches!(endjine::try_load_last_of_list(&empty), Ok(None)));
}

#[test]
fn delete_playlist_keeps_the_others() {
    let mut db = Database::open(
        vec![supported_info_row()],
        vec![],
        vec![playlist(1, 0, "kept"), playlist(2, 0, "dropped"), playlist(3, 0, "also kept")],
        vec![],
        vec![],
    )
    .unwrap();
    assert!(Playlist::delete(&mut db, PlaylistId::new(2)));
    assert_eq!(db.playlists.len(), 2);
    assert_eq!(db.playlists[0].id, PlaylistId::new(1));
    assert_eq!(db.playlists[1].id, PlaylistId::new(3));

    // Deleting an absent identifier reports false and touches nothing.
    assert!(!Playlist::delete(&mut db, PlaylistId::new(9)));
    assert_eq!(db.playlists.len(), 2);
}

#[test]
fn try_load_information_by_uuid() {
    let rows = vec![supported_info_row()];
    let found = Information::try_load_by_uuid(&rows, &DbUuid::new(7)).unwrap();
    assert_eq!(found.uuid, DbUuid::new(7));
    assert!(Information::try_load_by_uuid(&rows, &DbUuid::new(8)).is_none());
}
