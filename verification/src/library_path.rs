//! The library root directory.
//!
//! The library root is the directory that holds the whole library; the
//! database file itself lives two levels below it. Its final path segment
//! must spell the fixed library directory name, compared without regard
//! to ASCII case.

use crate::error::LibraryError;
use crate::file_path::is_normalized;
use crate::file_path::FilePath;
use vstd::prelude::*;
use vstd::string::StrSliceExecFns;

verus! {

/// Name of the directory that contains a library.
pub const LIBRARY_DIRECTORY_NAME: &'static str = "Engine Library";

/// ASCII-case-insensitive equality of two characters.
pub open spec fn char_eq_ignore_ascii_case(a: char, b: char) -> bool {
    ||| a == b
    ||| (65 <= a as int <= 90 && b as int == a as int + 32)
    ||| (65 <= b as int <= 90 && a as int == b as int + 32)
}

/// ASCII-case-insensitive equality of two character sequences.
pub open spec fn str_eq_ignore_ascii_case(a: Seq<char>, b: Seq<char>) -> bool {
    a.len() == b.len() && (forall|i: int|
        0 <= i < a.len() ==> char_eq_ignore_ascii_case(#[trigger] a[i], b[i]))
}

/// Compares two characters without regard to ASCII case.
fn chars_eq_ignore_ascii_case(a: char, b: char) -> (r: bool)
    ensures
        r == char_eq_ignore_ascii_case(a, b),
{
    let x = a as u32;
    let y = b as u32;
    x == y || (65 <= x && x <= 90 && y == x + 32) || (65 <= y && y <= 90 && x == y + 32)
}

/// Compares two strings without regard to ASCII case.
fn strings_eq_ignore_ascii_case(a: &str, b: &str) -> (r: bool)
    ensures
        r == str_eq_ignore_ascii_case(a@, b@),
{
    let n = a.unicode_len();
    if n != b.unicode_len() {
        return false;
    }
    let mut i: usize = 0;
    while i < n
        invariant
            n == a@.len() == b@.len(),
            i <= n,
            forall|k: int| 0 <= k < i ==> char_eq_ignore_ascii_case(#[trigger] a@[k], b@[k]),
        decreases n - i,
    {
        if !chars_eq_ignore_ascii_case(a.get_char(i), b.get_char(i)) {
            return false;
        }
        i = i + 1;
    }
    true
}

/// The library root that a database file path yields: the grandparent
/// directory of the file, whose final segment must spell
/// [`LIBRARY_DIRECTORY_NAME`].
pub open spec fn library_path_of(db_segs: Seq<Seq<char>>) -> Result<Seq<Seq<char>>, LibraryError> {
    if db_segs.len() >= 3 && str_eq_ignore_ascii_case(
        db_segs[db_segs.len() - 3],
        LIBRARY_DIRECTORY_NAME@,
    ) {
        Ok(db_segs.take(db_segs.len() - 2))
    } else {
        Err(LibraryError::InvalidLibraryPath)
    }
}

/// Determines the directory that contains the library.
///
/// The library root is the grandparent of the database file's own path;
/// the derivation fails if fewer than two ancestor segments exist, if the
/// grandparent is empty, or if its final segment does not spell the
/// library directory name (ignoring ASCII case).
pub fn database_file_to_library_path(db_file_path: &FilePath) -> (r: Result<
    FilePath,
    LibraryError,
>)
    requires
        db_file_path.wf(),
    ensures
        r matches Ok(p) ==> {
            &&& p.wf()
            &&& p.is_absolute == db_file_path.is_absolute
            &&& library_path_of(db_file_path.segs()) == Ok::<_, LibraryError>(p.segs())
        },
        r matches Err(e) ==> library_path_of(db_file_path.segs()) == Err::<Seq<Seq<char>>, _>(e),
{
    let parent = match db_file_path.to_parent_path() {
        Some(parent) => parent,
        None => {
            return Err(LibraryError::InvalidLibraryPath);
        },
    };
    let library_path = match parent.to_parent_path() {
        Some(grandparent) => grandparent,
        None => {
            return Err(LibraryError::InvalidLibraryPath);
        },
    };
    let seg_count = library_path.segments.len();
    if seg_count == 0 {
        return Err(LibraryError::InvalidLibraryPath);
    }
    let dir_name = &library_path.segments[seg_count - 1];
    proof {
        let db = db_file_path.segs();
        assert(library_path.segs() =~= db.take(db.len() - 2));
        assert(forall|i: int|
            0 <= i < library_path.segs().len() ==> library_path.segs()[i] == db[i]);
        assert(dir_name@ == library_path.segs().last());
        assert(library_path.segs().last() == db[db.len() - 3]);
        assert(is_normalized(library_path.segs())) by {
            crate::file_path::lemma_take_normalized(db, db.len() - 2);
        }
    }
    if !strings_eq_ignore_ascii_case(dir_name.as_str(), LIBRARY_DIRECTORY_NAME) {
        return Err(LibraryError::InvalidLibraryPath);
    }
    Ok(library_path)
}

/// The validated library root directory.
///
/// Holds a [`FilePath`] whose final segment spells the library directory
/// name; see [`LibraryPath::wf`].
#[derive(Debug, Clone)]
pub struct LibraryPath {
    pub path: FilePath,
}

impl LibraryPath {
    /// The path is normalized, nonempty, and names a library directory.
    pub open spec fn wf(&self) -> bool {
        &&& self.path.wf()
        &&& self.path.segs().len() >= 1
        &&& str_eq_ignore_ascii_case(self.path.segs().last(), LIBRARY_DIRECTORY_NAME@)
    }

    /// Derives and validates the library root from the database file's
    /// own path.
    pub fn new(db_file_path: &FilePath) -> (r: Result<LibraryPath, LibraryError>)
        requires
            db_file_path.wf(),
        ensures
            r matches Ok(lp) ==> {
                &&& lp.wf()
                &&& lp.path.is_absolute == db_file_path.is_absolute
                &&& library_path_of(db_file_path.segs()) == Ok::<_, LibraryError>(lp.path.segs())
            },
            r matches Err(e) ==> library_path_of(db_file_path.segs()) == Err::<
                Seq<Seq<char>>,
                _,
            >(e),
    {
        match database_file_to_library_path(db_file_path) {
            Ok(path) => {
                proof {
                    let db = db_file_path.segs();
                    assert(path.segs().last() == db[db.len() - 3]);
                }
                Ok(LibraryPath { path })
            },
            Err(e) => Err(e),
        }
    }

    /// The library root as a file path.
    pub fn file_path(&self) -> (r: &FilePath)
        ensures
            r == self.path,
    {
        &self.path
    }
}

} // verus!
