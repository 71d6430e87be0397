//! Tracks and their stored paths.
//!
//! A track's media file path is stored relative to the directory one level
//! above the library root (the anchor), so every stored path begins with
//! the `..` segment. The codec here converts between stored paths and
//! file system paths, and resolves a track's identity across origin
//! databases.

use crate::db_uuid::DbUuid;
use crate::error::LibraryError;
use crate::file_path::clone_segments;
use crate::file_path::collapse_components_onto;
use crate::file_path::collapse_onto;
use crate::file_path::is_component;
use crate::file_path::is_normalized;
use crate::file_path::is_normalized_segment;
use crate::file_path::is_parent_dir_segment;
use crate::file_path::lemma_collapse_already_normalized;
use crate::file_path::lemma_collapse_normalized;
use crate::file_path::lemma_collapse_onto_append;
use crate::file_path::lemma_components_of_path_text;
use crate::file_path::normalized_segments_of;
use crate::file_path::path_text;
use crate::file_path::seg_is_parent;
use crate::file_path::FilePath;
use crate::ids::TrackId;
use crate::library_path::str_eq_ignore_ascii_case;
use crate::library_path::LibraryPath;
use crate::library_path::LIBRARY_DIRECTORY_NAME;
use vstd::prelude::*;
use vstd::string::StringExecFns;

verus! {

/// References a track within its origin database.
#[derive(Debug, Clone, Copy, PartialEq, Eq)]
pub struct OriginTrackRef {
    pub id: TrackId,
    pub db_uuid: DbUuid,
}

/// References a track within the local and, if distinct, its origin
/// database.
#[derive(Debug, Clone, Copy, PartialEq, Eq)]
pub struct TrackRef {
    /// The track's own identifier in the local database.
    pub id: TrackId,
    /// The track's identity in its origin database, if it has one.
    pub origin: Option<OriginTrackRef>,
}

/// The canonical identity that a track reference resolves to: the origin
/// pair where an origin is present (after the self-consistency check),
/// else the track itself in the local database.
pub open spec fn canonical_origin(track_ref: TrackRef, local_db_uuid: DbUuid) -> Result<
    OriginTrackRef,
    LibraryError,
> {
    match track_ref.origin {
        Some(origin) => if origin.db_uuid.value == local_db_uuid.value && track_ref.id.raw
            != origin.id.raw {
            Err(LibraryError::MismatchingTrackIds)
        } else {
            Ok(origin)
        },
        None => Ok(OriginTrackRef { id: track_ref.id, db_uuid: local_db_uuid }),
    }
}

impl TrackRef {
    /// Resolves the reference to its origin database.
    ///
    /// An origin entry that names the local database itself must agree
    /// with the track's own identifier; disagreement is an error, never
    /// silently corrected.
    pub fn to_origin(&self, local_db_uuid: DbUuid) -> (r: Result<OriginTrackRef, LibraryError>)
        ensures
            r == canonical_origin(*self, local_db_uuid),
    {
        match self.origin {
            Some(origin) => {
                if origin.db_uuid == local_db_uuid && !(self.id == origin.id) {
                    Err(LibraryError::MismatchingTrackIds)
                } else {
                    Ok(origin)
                }
            },
            None => Ok(OriginTrackRef { id: self.id, db_uuid: local_db_uuid }),
        }
    }
}

/// A track row, reduced to the columns the library's logic reads: its
/// identifier, its stored path, and its origin identity.
#[derive(Debug)]
pub struct Track {
    pub id: TrackId,
    /// The stored path of the media file, relative to the anchor.
    pub path: Option<String>,
    /// The track's identity in its origin database, if it has one.
    pub origin: Option<OriginTrackRef>,
}

impl Clone for Track {
    fn clone(&self) -> (r: Self)
        ensures
            r == *self,
    {
        let path = match &self.path {
            Some(p) => Some(p.clone()),
            None => None,
        };
        Track { id: self.id, path, origin: self.origin }
    }
}

impl Track {
    /// The reference columns of this row.
    pub fn to_ref(&self) -> (r: TrackRef)
        ensures
            r.id == self.id,
            r.origin == self.origin,
    {
        TrackRef { id: self.id, origin: self.origin }
    }

    /// Determines the media file's path given the library root, if the
    /// row stores a path.
    pub fn to_file_path(&self, library_path: &LibraryPath) -> (r: Option<FilePath>)
        requires
            library_path.wf(),
        ensures
            r is Some <==> self.path is Some,
            r matches Some(p) ==> (self.path matches Some(stored) && p.is_absolute
                == library_path.path.is_absolute && p.segs() == collapse_onto(
                library_path.path.segs(),
                normalized_segments_of(stored@),
            )),
    {
        match &self.path {
            Some(stored) => Some(export_track_file_path(library_path, stored.as_str())),
            None => None,
        }
    }
}

/// Parent directory of the library root: the leading segment of every
/// stored track path.
pub const RELATIVE_TRACK_PATH_PREFIX: &'static str = "..";

/// Default non-null album art marker.
///
/// The external application writes this string into the album art column
/// of tracks without their own art; many tracks just contain `NULL`.
pub const DEFAULT_ALBUM_ART: &'static str = "image://planck/0";

/// The characters of the `..` segment.
pub open spec fn parent_dir_text() -> Seq<char> {
    seq!['.', '.']
}

/// Whether `a` is a segment-wise prefix of `b`.
pub open spec fn segments_prefix(a: Seq<Seq<char>>, b: Seq<Seq<char>>) -> bool {
    a.len() <= b.len() && (forall|i: int| 0 <= i < a.len() ==> a[i] == b[i])
}

/// The stored form of a track file path, relative to the library's anchor.
///
/// A relative path that already starts with `..` is kept; any other
/// relative path has `..` prepended. An absolute path must lie under the
/// anchor: the anchor (the library root's parent) is stripped and `..`
/// prepended.
pub open spec fn imported_track_segments(
    lib: Seq<Seq<char>>,
    fp_absolute: bool,
    fp: Seq<Seq<char>>,
) -> Result<Seq<Seq<char>>, LibraryError> {
    if !fp_absolute {
        if fp.len() > 0 && is_parent_dir_segment(fp[0]) {
            Ok(fp)
        } else {
            Ok(seq![parent_dir_text()] + fp)
        }
    } else {
        let base = lib.drop_last();
        if segments_prefix(base, fp) {
            Ok(seq![parent_dir_text()] + fp.skip(base.len() as int))
        } else {
            Err(LibraryError::BasePathMismatch)
        }
    }
}

/// A successfully imported track path is normalized and starts with `..`.
pub proof fn lemma_imported_normalized(lib: Seq<Seq<char>>, fp_absolute: bool, fp: Seq<Seq<char>>)
    requires
        is_normalized(fp),
    ensures
        imported_track_segments(lib, fp_absolute, fp) matches Ok(stored) ==> {
            &&& is_normalized(stored)
            &&& stored.len() > 0
            &&& is_parent_dir_segment(stored[0])
        },
{
    assert(is_normalized_segment(parent_dir_text()));
    if !fp_absolute {
        if fp.len() > 0 && is_parent_dir_segment(fp[0]) {
        } else {
            let stored = seq![parent_dir_text()] + fp;
            assert forall|i: int|
                0 < i < stored.len() && is_parent_dir_segment(#[trigger] stored[i]) implies
            is_parent_dir_segment(stored[i - 1]) by {
                if i >= 2 {
                    assert(stored[i] == fp[i - 1]);
                    assert(is_parent_dir_segment(fp[i - 2]));
                }
            }
            assert(forall|i: int|
                0 <= i < stored.len() ==> is_normalized_segment(#[trigger] stored[i]));
        }
    } else {
        let base = lib.drop_last();
        if segments_prefix(base, fp) {
            let k = base.len() as int;
            let stored = seq![parent_dir_text()] + fp.skip(k);
            assert forall|i: int|
                0 < i < stored.len() && is_parent_dir_segment(#[trigger] stored[i]) implies
            is_parent_dir_segment(stored[i - 1]) by {
                if i >= 2 {
                    assert(stored[i] == fp[k + i - 1]);
                    assert(is_parent_dir_segment(fp[k + i - 2]));
                    assert(stored[i - 1] == fp[k + i - 2]);
                }
            }
            assert(forall|i: int|
                0 <= i < stored.len() ==> is_normalized_segment(#[trigger] stored[i]));
        }
    }
}

/// The `..` segment as a string.
fn parent_dir_string() -> (r: String)
    ensures
        r@ == parent_dir_text(),
{
    let r = String::from_str("..");
    proof {
        reveal_strlit("..");
        assert(r@ =~= parent_dir_text());
    }
    r
}

/// Imports a track's media file path into its stored form, relative to
/// the library's anchor.
pub fn import_track_file_path(library_path: &LibraryPath, file_path: FilePath) -> (r: Result<
    FilePath,
    LibraryError,
>)
    requires
        library_path.wf(),
        file_path.wf(),
    ensures
        r matches Ok(p) ==> {
            &&& !p.is_absolute
            &&& p.wf()
            &&& imported_track_segments(
                library_path.path.segs(),
                file_path.is_absolute,
                file_path.segs(),
            ) == Ok::<_, LibraryError>(p.segs())
            &&& p.segs().len() > 0
            &&& is_parent_dir_segment(p.segs()[0])
        },
        r matches Err(e) ==> imported_track_segments(
            library_path.path.segs(),
            file_path.is_absolute,
            file_path.segs(),
        ) == Err::<Seq<Seq<char>>, _>(e),
{
    let ghost lib = library_path.path.segs();
    let ghost fpv = file_path.segs();
    proof {
        lemma_imported_normalized(lib, file_path.is_absolute, fpv);
    }
    if file_path.is_relative() {
        if file_path.segments.len() > 0 && seg_is_parent(&file_path.segments[0]) {
            proof {
                assert(fpv[0] == file_path.segments@[0]@);
            }
            return Ok(file_path.into_relative());
        }
        let mut segments = clone_segments(&file_path.segments);
        segments.insert(0, parent_dir_string());
        proof {
            assert(segments.deep_view() =~= seq![parent_dir_text()] + fpv);
        }
        Ok(FilePath { is_absolute: false, segments })
    } else {
        let base = match library_path.path.to_parent_path() {
            Some(base) => base,
            None => {
                return Err(LibraryError::InvalidLibraryPath);
            },
        };
        let base_len = base.segments.len();
        if base_len > file_path.segments.len() {
            return Err(LibraryError::BasePathMismatch);
        }
        let mut i: usize = 0;
        while i < base_len
            invariant
                lib == library_path.path.segs(),
                fpv == file_path.segs(),
                file_path.is_absolute,
                base.segs() == lib.drop_last(),
                base_len == base.segments.len(),
                base_len <= file_path.segments.len(),
                i <= base_len,
                forall|k: int| 0 <= k < i ==> lib.drop_last()[k] == fpv[k],
            decreases base_len - i,
        {
            let a = &base.segments[i];
            let b = &file_path.segments[i];
            proof {
                assert(base.segs()[i as int] == base.segments@[i as int]@);
                assert(lib.drop_last()[i as int] == a@);
                assert(fpv[i as int] == file_path.segments@[i as int]@);
                assert(fpv[i as int] == b@);
            }
            if !crate::file_path::strings_equal(a, b) {
                proof {
                    assert(lib.drop_last()[i as int] != fpv[i as int]);
                    assert(!segments_prefix(lib.drop_last(), fpv));
                }
                return Err(LibraryError::BasePathMismatch);
            }
            i = i + 1;
        }
        let mut segments: Vec<String> = Vec::new();
        segments.push(parent_dir_string());
        let mut k = base_len;
        while k < file_path.segments.len()
            invariant
                fpv == file_path.segs(),
                base_len <= k <= file_path.segments.len(),
                fpv.len() == file_path.segments.len(),
                segments.deep_view() == seq![parent_dir_text()] + fpv.subrange(
                    base_len as int,
                    k as int,
                ),
            decreases file_path.segments.len() - k,
        {
            let seg = file_path.segments[k].clone();
            proof {
                assert(seg@ == file_path.segments@[k as int]@);
                assert(seg@ == fpv[k as int]);
            }
            let ghost old_dv = segments.deep_view();
            segments.push(seg);
            proof {
                assert(segments.deep_view() =~= old_dv.push(fpv[k as int]));
                assert(old_dv.push(fpv[k as int]) =~= seq![parent_dir_text()] + fpv.subrange(
                    base_len as int,
                    k + 1,
                ));
            }
            k = k + 1;
        }
        proof {
            assert(fpv.subrange(base_len as int, fpv.len() as int) =~= fpv.skip(base_len as int));
            assert(segments.deep_view() == seq![parent_dir_text()] + fpv.skip(
                lib.drop_last().len() as int,
            ));
        }
        Ok(FilePath { is_absolute: false, segments })
    }
}

/// Resolves a stored track path against the library root, yielding the
/// media file's file system path.
pub fn export_track_file_path(library_path: &LibraryPath, stored: &str) -> (r: FilePath)
    requires
        library_path.wf(),
    ensures
        r.is_absolute == library_path.path.is_absolute,
        r.segs() == collapse_onto(library_path.path.segs(), normalized_segments_of(stored@)),
        r.wf(),
{
    let stored_path = FilePath::import_path(stored);
    let base = clone_segments(&library_path.path.segments);
    proof {
        assert(base.deep_view() =~= library_path.path.segs());
    }
    let segments = collapse_components_onto(base, &stored_path.segments);
    proof {
        lemma_collapse_normalized(library_path.path.segs(), stored_path.segs());
    }
    FilePath { is_absolute: library_path.path.is_absolute, segments }
}

/// Round trip of the track path codec: an absolute, normalized path that
/// lies under a library's anchor, imported into its stored form, written
/// out as text and resolved back against the library root, is recovered
/// exactly.
pub proof fn lemma_track_path_round_trip(lib: Seq<Seq<char>>, fp: Seq<Seq<char>>)
    requires
        is_normalized(lib),
        lib.len() >= 1,
        str_eq_ignore_ascii_case(lib.last(), LIBRARY_DIRECTORY_NAME@),
        is_normalized(fp),
        segments_prefix(lib.drop_last(), fp),
    ensures
        imported_track_segments(lib, true, fp) matches Ok(stored) && collapse_onto(
            lib,
            normalized_segments_of(path_text(false, stored)),
        ) == fp,
{
    let base = lib.drop_last();
    let k = base.len() as int;
    let suffix = fp.skip(k);
    let stored = seq![parent_dir_text()] + suffix;
    lemma_imported_normalized(lib, true, fp);
    assert(imported_track_segments(lib, true, fp) == Ok::<_, LibraryError>(stored));
    assert(is_normalized(stored));
    // Re-parsing the stored text recovers the stored segments.
    assert(forall|i: int| 0 <= i < stored.len() ==> is_component(#[trigger] stored[i])) by {
        assert(forall|i: int|
            0 <= i < stored.len() ==> is_normalized_segment(#[trigger] stored[i]));
    }
    lemma_components_of_path_text(false, stored);
    assert(Seq::<Seq<char>>::empty() + stored =~= stored);
    lemma_collapse_already_normalized(Seq::empty(), stored);
    assert(normalized_segments_of(path_text(false, stored)) == stored);
    // Resolving the stored segments against the library root recovers `fp`.
    lemma_collapse_onto_append(lib, seq![parent_dir_text()], suffix);
    assert(seq![parent_dir_text()] + suffix =~= stored);
    assert(seq![parent_dir_text()].drop_last() =~= Seq::<Seq<char>>::empty());
    assert(collapse_onto(lib, seq![parent_dir_text()].drop_last()) == lib);
    assert(collapse_onto(lib, seq![parent_dir_text()]) == crate::file_path::collapse_step(
        lib,
        parent_dir_text(),
    ));
    assert(!is_parent_dir_segment(lib.last())) by {
        reveal_strlit("Engine Library");
        assert(LIBRARY_DIRECTORY_NAME@.len() == 14);
        assert(lib.last().len() == 14);
    }
    assert(collapse_onto(lib, seq![parent_dir_text()]) == base);
    assert(base + suffix =~= fp);
    lemma_collapse_already_normalized(base, suffix);
}

} // verus!
