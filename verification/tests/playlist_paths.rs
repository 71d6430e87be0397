//! Playlist path segments.

use endjine::is_valid_playlist_path_segment;

#[test]
fn concat_playlist_path_segments_to_string() {
    let empty: Vec<String> = vec![];
    assert_eq!(endjine::concat_playlist_path_segments_to_string(&empty), ";");
    assert_eq!(
        endjine::concat_playlist_path_segments_to_string(&vec![String::from("foo")]),
        "foo;"
    );
    assert_eq!(
        endjine::concat_playlist_path_segments_to_string(&vec![
            String::from("foo"),
            String::from("bar"),
        ]),
        "foo;bar;"
    );
    assert_eq!(
        endjine::concat_playlist_path_segments_to_string(&vec![String::from("foo bar")]),
        "foo bar;"
    );
}

#[test]
fn playlist_concat_playlist_path_segments_to_string() {
    let empty: Vec<String> = vec![];
    assert_eq!(endjine::concat_playlist_path_segments_to_string(&empty), ";");
    assert_eq!(
        endjine::concat_playlist_path_segments_to_string(&vec![String::from("foo")]),
        "foo;"
    );
    assert_eq!(
        endjine::concat_playlist_path_segments_to_string(&vec![
            String::from("foo"),
            String::from("bar"),
        ]),
        "foo;bar;"
    );
    assert_eq!(
        endjine::concat_playlist_path_segments_to_string(&vec![String::from("foo bar")]),
        "foo bar;"
    );
}

#[test]
fn valid_playlist_path_segments() {
    assert!(is_valid_playlist_path_segment("foo"));
    assert!(is_valid_playlist_path_segment("foo bar"));
    assert!(!is_valid_playlist_path_segment(""));
    assert!(!is_valid_playlist_path_segment("foo;bar"));
    assert!(!is_valid_playlist_path_segment(";"));
}
