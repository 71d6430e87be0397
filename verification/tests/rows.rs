//! Plain row types and their accessors.

use endjine::{
    next_membership_reference, AlbumArt, AlbumArtId, BatchOutcome, DbUuid, Information,
    InformationId, OriginTrackRef, PlaylistTrackRef, SchemaVersion, TrackId, TrackRef,
    LibraryError,
};

#[test]
fn album_art_accessors() {
    let art = AlbumArt::new(
        AlbumArtId::new(3),
        Some(String::from("abc123")),
        Some(vec![1, 2, 3]),
    );
    assert_eq!(art.id(), AlbumArtId::new(3));
    assert_eq!(art.hash(), Some("abc123"));
    assert_eq!(art.image_data(), Some(&[1u8, 2, 3][..]));

    let empty = AlbumArt::new(AlbumArtId::new(4), None, None);
    assert!(empty.hash().is_none());
    assert!(empty.image_data().is_none());
}

#[test]
fn information_accessors() {
    let info = Information {
        id: InformationId::new(1),
        uuid: DbUuid::new(42),
        schema_version_major: 3,
        schema_version_minor: 0,
        schema_version_patch: 7,
        current_played_indicator: None,
        last_rekord_box_library_import_read_counter: None,
    };
    assert_eq!(info.id(), InformationId::new(1));
    assert_eq!(*info.uuid(), DbUuid::new(42));
    assert_eq!(
        info.schema_version(),
        SchemaVersion { major: 3, minor: 0, patch: 7 }
    );
    assert!(info.schema_version().is_supported());
}

#[test]
fn batch_outcome_abort_keeps_counts() {
    let mut outcome = BatchOutcome::default();
    outcome.succeeded = 2;
    outcome.skipped = 1;
    outcome.failed.push(String::from("one failed"));
    let aborted = outcome.abort(String::from("gone"));
    assert_eq!(aborted.succeeded, 2);
    assert_eq!(aborted.skipped, 1);
    assert_eq!(aborted.failed, vec![String::from("one failed")]);
    assert_eq!(aborted.aborted_error, Some(String::from("gone")));
}

#[test]
fn to_origin_resolves_track_identity() {
    let local = DbUuid::new(7);
    let foreign = DbUuid::new(9);

    // No origin: the track belongs to the local database.
    let track_ref = TrackRef { id: TrackId::new(5), origin: None };
    let origin = track_ref.to_origin(local).unwrap();
    assert_eq!(origin, OriginTrackRef { id: TrackId::new(5), db_uuid: local });

    // A foreign origin wins.
    let origin_ref = OriginTrackRef { id: TrackId::new(8), db_uuid: foreign };
    let track_ref = TrackRef { id: TrackId::new(5), origin: Some(origin_ref) };
    assert_eq!(track_ref.to_origin(local).unwrap(), origin_ref);

    // A local origin must agree with the track's own identifier.
    let origin_ref = OriginTrackRef { id: TrackId::new(5), db_uuid: local };
    let track_ref = TrackRef { id: TrackId::new(5), origin: Some(origin_ref) };
    assert_eq!(track_ref.to_origin(local).unwrap(), origin_ref);
    let origin_ref = OriginTrackRef { id: TrackId::new(6), db_uuid: local };
    let track_ref = TrackRef { id: TrackId::new(5), origin: Some(origin_ref) };
    assert_eq!(track_ref.to_origin(local), Err(LibraryError::MismatchingTrackIds));
}

#[test]
fn playlist_track_ref_from_track_ref() {
    let local = DbUuid::new(7);
    let track_ref = TrackRef { id: TrackId::new(5), origin: None };
    let canonical = PlaylistTrackRef::new(track_ref, local).unwrap();
    assert_eq!(canonical.track_id, TrackId::new(5));
    assert_eq!(canonical.database_uuid, local);

    let origin_ref = OriginTrackRef { id: TrackId::new(6), db_uuid: local };
    let track_ref = TrackRef { id: TrackId::new(5), origin: Some(origin_ref) };
    assert_eq!(
        PlaylistTrackRef::new(track_ref, local),
        Err(LibraryError::MismatchingTrackIds)
    );
}

#[test]
fn membership_reference_sequence() {
    assert_eq!(next_membership_reference(1), 2);
    assert_eq!(next_membership_reference(41), 42);
}
