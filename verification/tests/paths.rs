//! Path decomposition and the track path codec.

use endjine::{
    database_file_to_library_path, export_track_file_path, FilePath, LibraryError, LibraryPath,
    LIBRARY_DIRECTORY_NAME,
};

#[test]
fn import_file_path() {
    let empty_root_path = "";
    let root_path = "/";

    //
    // 1 path segment without a separator (relative/absolute).
    //

    for path_segment in ["..", "foo"] {
        let file_path = FilePath::import_path(path_segment);
        assert!(file_path.is_relative());
        assert_eq!(file_path.base(), empty_root_path);
        assert_eq!(file_path.relative(), path_segment);

        let absolute = format!("{root_path}{path_segment}");
        let file_path = FilePath::import_path(&absolute);
        assert!(!file_path.is_relative());
        assert_eq!(file_path.base(), root_path);
        assert_eq!(file_path.relative(), path_segment);
    }

    //
    // Multiple path segments with a separator (relative/absolute).
    //

    let file_path = FilePath::import_path("../foo/bar/..");
    assert!(file_path.is_relative());
    assert_eq!(file_path.base(), empty_root_path);
    assert_eq!(file_path.relative(), "../foo");

    let file_path = FilePath::import_path("/../foo/bar/..");
    assert!(!file_path.is_relative());
    assert_eq!(file_path.base(), root_path);
    assert_eq!(file_path.relative(), "../foo");
}

#[test]
fn import_path_is_idempotent() {
    for path in [
        "",
        "/",
        "a//b/./c/../d",
        "../../x",
        "/foo/bar/../bar",
        "./only",
        "a/b/c/../../..",
        "a/b/c/../../../..",
    ] {
        let once = FilePath::import_path(path);
        let again = FilePath::import_path(&once.to_path());
        assert_eq!(once, again);
    }
}

#[test]
fn import_path_collapses_and_keeps_leading_parents() {
    let file_path = FilePath::import_path("../../a/./b/../c");
    assert!(file_path.is_relative());
    assert_eq!(file_path.relative(), "../../a/c");

    let file_path = FilePath::import_path("/a/../../b");
    assert_eq!(file_path.to_path(), "/../b");
}

fn library_path_under(abs_base_path: &str) -> LibraryPath {
    let db_file = format!("{abs_base_path}/{LIBRARY_DIRECTORY_NAME}/Database2/m.db");
    let db_file_path = FilePath::import_path(&db_file);
    LibraryPath::new(&db_file_path).unwrap()
}

#[test]
fn import_track_file_path() {
    let library_path = library_path_under("/foo/bar");

    // Valid paths.
    let imported =
        endjine::import_track_file_path(&library_path, FilePath::import_path("..")).unwrap();
    assert_eq!(imported.to_path(), "..");
    let imported =
        endjine::import_track_file_path(&library_path, FilePath::import_path("/foo/bar")).unwrap();
    assert_eq!(imported.to_path(), "..");
    let imported =
        endjine::import_track_file_path(&library_path, FilePath::import_path("/foo/bar/lorem")).unwrap();
    assert_eq!(imported.to_path(), "../lorem");
    let imported =
        endjine::import_track_file_path(&library_path, FilePath::import_path("/foo/bar/lorem/ipsum"))
            .unwrap();
    assert_eq!(imported.to_path(), "../lorem/ipsum");
    let imported =
        endjine::import_track_file_path(&library_path, FilePath::import_path("/foo/bar/../bar")).unwrap();
    assert_eq!(imported.to_path(), "..");

    // Invalid paths.
    assert!(endjine::import_track_file_path(&library_path, FilePath::import_path("/foo")).is_err());
    assert!(endjine::import_track_file_path(&library_path, FilePath::import_path("/bar")).is_err());
    assert!(endjine::import_track_file_path(&library_path, FilePath::import_path("/bar/foo")).is_err());
    assert_eq!(
        endjine::import_track_file_path(&library_path, FilePath::import_path("/bar/foo")),
        Err(LibraryError::BasePathMismatch)
    );
}

#[test]
fn import_track_file_path_prepends_prefix_to_relative() {
    let library_path = library_path_under("/foo/bar");
    let imported =
        endjine::import_track_file_path(&library_path, FilePath::import_path("lorem/ipsum")).unwrap();
    assert_eq!(imported.to_path(), "../lorem/ipsum");
}

#[test]
fn export_track_file_path_round_trip() {
    let library_path = library_path_under("/foo/bar");
    for path in ["/foo/bar", "/foo/bar/lorem", "/foo/bar/lorem/ipsum"] {
        let imported =
            endjine::import_track_file_path(&library_path, FilePath::import_path(path)).unwrap();
        let exported = export_track_file_path(&library_path, &imported.to_path());
        assert_eq!(exported.to_path(), path);
    }
}

#[test]
fn export_track_file_path_resolves_stored_paths() {
    let library_path = library_path_under("/foo/bar");
    let exported = export_track_file_path(&library_path, "../lorem/ipsum");
    assert_eq!(exported.to_path(), "/foo/bar/lorem/ipsum");
    let exported = export_track_file_path(&library_path, "..");
    assert_eq!(exported.to_path(), "/foo/bar");
}

#[test]
fn library_path_requires_library_directory_name() {
    // The grandparent's name is checked without regard to ASCII case.
    let db_file_path = FilePath::import_path("/x/engine library/Database2/m.db");
    assert!(LibraryPath::new(&db_file_path).is_ok());

    let db_file_path = FilePath::import_path("/x/Other/Database2/m.db");
    assert_eq!(
        LibraryPath::new(&db_file_path).err(),
        Some(LibraryError::InvalidLibraryPath)
    );

    // Too few ancestors.
    let db_file_path = FilePath::import_path("m.db");
    assert!(database_file_to_library_path(&db_file_path).is_err());
    let db_file_path = FilePath::import_path("/Database2/m.db");
    assert!(database_file_to_library_path(&db_file_path).is_err());
}
