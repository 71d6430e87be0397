//! The store, modeled as an arena of plain rows.
//!
//! The tables the library's logic reads and writes are held as vectors of
//! row values, addressed by their stable identifiers. [`Database::open`]
//! validates what the rest of the crate relies on — a single supported
//! schema metadata row, sound row identifiers, and structurally sound
//! membership chains — before anything trusts the rows.

use crate::db_uuid::DbUuid;
use crate::error::BatchError;
use crate::error::LibraryError;
use crate::file_path::path_text;
use crate::file_path::FilePath;
use crate::ids::lemma_id_field_eq;
use crate::ids::PlaylistEntityId;
use crate::ids::PlaylistId;
use crate::information::Information;
use crate::library_path::LibraryPath;
use crate::playlist::append_to_list;
use crate::playlist::appended_refs;
use crate::playlist::canonical_track_ref;
use crate::playlist::ignored_refs;
use crate::playlist::last_membership_reference;
use crate::playlist::lemma_list_rows_append;
use crate::playlist::lemma_list_rows_homogeneous;
use crate::playlist::lemma_list_rows_of_other;
use crate::playlist::lemma_split_rows_ids;
use crate::playlist::lemma_valid_list_last;
use crate::playlist::other_rows;
use crate::playlist::refs_of;
use crate::playlist::replace_in_list;
use crate::playlist::spec_try_load_last;
use crate::playlist::try_load_last_of_list;
use crate::playlist::valid_list;
use crate::playlist::PlaylistTrackRef;
use crate::playlist::MIN_MEMBERSHIP_REFERENCE;
use crate::track::imported_track_segments;
use crate::track::import_track_file_path;
use crate::track::TrackRef;
use crate::playlist::lemma_adjacent_sorted_pairwise;
use crate::playlist::lemma_list_rows_absent;
use crate::playlist::lemma_split_rows_facts;
use crate::playlist::lemma_track_ref_field_eq;
use crate::playlist::list_ids_ok;
use crate::playlist::list_rows;
use crate::playlist::ordered_list;
use crate::playlist::partition_list_rows;
use crate::playlist::Playlist;
use crate::playlist::PlaylistEntity;
use crate::playlist::PlaylistPath;
use crate::track::Track;
use vstd::prelude::*;

verus! {

/// The library database: the tables that matter for playlist
/// maintenance, loaded as plain rows, plus the next fresh row identifier
/// of the membership table.
pub struct Database {
    pub information: Information,
    pub tracks: Vec<Track>,
    pub playlists: Vec<Playlist>,
    pub playlist_paths: Vec<PlaylistPath>,
    pub playlist_entities: Vec<PlaylistEntity>,
    pub next_entity_rowid: i64,
}

/// Greatest row identifier of the membership table, zero when it is
/// empty.
pub open spec fn max_entity_rowid(es: Seq<PlaylistEntity>) -> int
    decreases es.len(),
{
    if es.len() == 0 {
        0
    } else {
        let m = max_entity_rowid(es.drop_last());
        if es.last().id.raw > m {
            es.last().id.raw as int
        } else {
            m
        }
    }
}

pub proof fn lemma_max_entity_rowid(es: Seq<PlaylistEntity>)
    ensures
        max_entity_rowid(es) >= 0,
        forall|i: int| 0 <= i < es.len() ==> (#[trigger] es[i]).id.raw <= max_entity_rowid(es),
    decreases es.len(),
{
    if es.len() > 0 {
        lemma_max_entity_rowid(es.drop_last());
        assert(forall|i: int| 0 <= i < es.len() - 1 ==> es.drop_last()[i] == es[i]);
    }
}

/// A sound membership table: row identifiers positive, unique and below
/// `next_rowid`, and every playlist's rows structurally sound.
pub open spec fn sound_membership_table(es: Seq<PlaylistEntity>, next_rowid: int) -> bool {
    &&& list_ids_ok(es, next_rowid)
    &&& forall|l: PlaylistId| ordered_list(#[trigger] list_rows(es, l), l)
}

/// The rows of a store that [`Database::open`] accepts: a single schema
/// metadata row, in range and supported, and a sound membership table.
pub open spec fn openable(information_rows: Seq<Information>, es: Seq<PlaylistEntity>) -> bool {
    &&& information_rows.len() == 1
    &&& information_rows[0].spec_version_supported()
    &&& information_rows[0].version_in_range()
    &&& max_entity_rowid(es) < i64::MAX
    &&& sound_membership_table(es, max_entity_rowid(es) + 1)
}

/// Checks whether a vector holds a value.
fn contains_raw(v: &Vec<i64>, x: i64) -> (b: bool)
    ensures
        b == v@.contains(x),
{
    let mut i: usize = 0;
    while i < v.len()
        invariant
            i <= v@.len(),
            forall|k: int| 0 <= k < i ==> v@[k] != x,
        decreases v@.len() - i,
    {
        if v[i] == x {
            return true;
        }
        i = i + 1;
    }
    proof {
        if v@.contains(x) {
            let k = choose|k: int| 0 <= k < v@.len() && v@[k] == x;
            assert(v@[k] != x);
        }
    }
    false
}

impl Database {
    /// Everything the operations rely on: the schema metadata row is in
    /// range and supported, and the membership table is sound.
    pub open spec fn wf(&self) -> bool {
        &&& self.information.version_in_range()
        &&& self.information.spec_version_supported()
        &&& 0 < self.next_entity_rowid
        &&& sound_membership_table(self.playlist_entities@, self.next_entity_rowid as int)
    }

    /// Opens a store from its loaded rows.
    ///
    /// Exactly one schema metadata row must exist, and its major/minor
    /// version must equal the pinned supported version; any other value
    /// is a fatal refusal, and nothing else is looked at in that case.
    /// The membership rows of each playlist must arrive in canonical
    /// order and satisfy the chain invariants; corruption is reported by
    /// the error named after it, never repaired.
    pub fn open(
        information_rows: Vec<Information>,
        tracks: Vec<Track>,
        playlists: Vec<Playlist>,
        playlist_paths: Vec<PlaylistPath>,
        playlist_entities: Vec<PlaylistEntity>,
    ) -> (r: Result<Database, LibraryError>)
        ensures
            information_rows@.len() != 1 ==> r == Err::<Database, _>(
                LibraryError::RowCardinalityError,
            ),
            information_rows@.len() == 1 && !information_rows@[0].spec_version_supported() ==> r
                == Err::<Database, _>(LibraryError::SchemaVersionUnsupported),
            r matches Ok(db) ==> {
                &&& information_rows@.len() == 1
                &&& db.information == information_rows@[0]
                &&& db.tracks@ == tracks@
                &&& db.playlists@ == playlists@
                &&& db.playlist_paths@ == playlist_paths@
                &&& db.playlist_entities@ == playlist_entities@
                &&& db.next_entity_rowid as int == max_entity_rowid(playlist_entities@) + 1
                &&& db.wf()
            },
            openable(information_rows@, playlist_entities@) ==> r is Ok,
    {
        if information_rows.len() != 1 {
            return Err(LibraryError::RowCardinalityError);
        }
        let information = information_rows[0];
        if !information.version_supported() {
            return Err(LibraryError::SchemaVersionUnsupported);
        }
        if information.schema_version_patch < 0 || information.schema_version_patch
            > u32::MAX as i64 {
            return Err(LibraryError::SchemaVersionUnsupported);
        }
        let ghost es = playlist_entities@;
        // Determine the next fresh row identifier, rejecting invalid ones.
        let mut max_id: i64 = 0;
        let mut i: usize = 0;
        while i < playlist_entities.len()
            invariant
                information_rows@.len() == 1,
                information_rows@[0].spec_version_supported(),
                information == information_rows@[0],
                es == playlist_entities@,
                i <= es.len(),
                0 <= max_id,
                max_id as int == max_entity_rowid(es.take(i as int)),
                max_id < i64::MAX,
                forall|k: int| 0 <= k < i ==> 0 < (#[trigger] es[k]).id.raw,
            decreases es.len() - i,
        {
            proof {
                assert(es.take(i + 1).drop_last() =~= es.take(i as int));
                assert(es.take(i + 1).last() == es[i as int]);
            }
            let e = playlist_entities[i];
            if e.id.raw <= 0 || e.id.raw == i64::MAX {
                proof {
                    if e.id.raw == i64::MAX {
                        lemma_max_entity_rowid(es);
                        assert(es[i as int].id.raw <= max_entity_rowid(es));
                    }
                }
                return Err(LibraryError::RowCardinalityError);
            }
            if e.id.raw > max_id {
                max_id = e.id.raw;
            }
            i = i + 1;
        }
        proof {
            assert(es.take(es.len() as int) =~= es);
        }
        let next_entity_rowid = max_id + 1;
        proof {
            lemma_max_entity_rowid(es);
        }
        // Reject duplicate row identifiers.
        let mut a: usize = 0;
        while a < playlist_entities.len()
            invariant
                information_rows@.len() == 1,
                information_rows@[0].spec_version_supported(),
                information == information_rows@[0],
                es == playlist_entities@,
                a <= es.len(),
                forall|x: int, y: int|
                    0 <= x < a && x < y < es.len() ==> (#[trigger] es[x]).id.raw != (
                    #[trigger] es[y]).id.raw,
            decreases es.len() - a,
        {
            let mut b: usize = a + 1;
            while b < playlist_entities.len()
                invariant
                    information_rows@.len() == 1,
                    information_rows@[0].spec_version_supported(),
                    es == playlist_entities@,
                    a < b <= es.len(),
                    a < es.len(),
                    forall|y: int| a < y < b ==> (#[trigger] es[y]).id.raw != es[a as int].id.raw,
                decreases es.len() - b,
            {
                if playlist_entities[a].id.raw == playlist_entities[b].id.raw {
                    return Err(LibraryError::RowCardinalityError);
                }
                b = b + 1;
            }
            a = a + 1;
        }
        // Validate each playlist's membership rows.
        let mut seen: Vec<i64> = Vec::new();
        let mut i: usize = 0;
        while i < playlist_entities.len()
            invariant
                information_rows@.len() == 1,
                information_rows@[0].spec_version_supported(),
                information == information_rows@[0],
                es == playlist_entities@,
                i <= es.len(),
                forall|k: int| 0 <= k < i ==> seen@.contains((#[trigger] es[k]).list_id.raw),
                forall|l: PlaylistId|
                    seen@.contains(l.raw) ==> ordered_list(#[trigger] list_rows(es, l), l),
            decreases es.len() - i,
        {
            let l = playlist_entities[i].list_id;
            if !contains_raw(&seen, l.raw) {
                let (mine, _others) = partition_list_rows(&playlist_entities, l);
                proof {
                    lemma_split_rows_facts(es, l);
                }
                let ghost mv = mine@;
                let mut k: usize = 0;
                while k < mine.len()
                    invariant
                        information_rows@.len() == 1,
                        information_rows@[0].spec_version_supported(),
                        mv == mine@,
                        mv == list_rows(es, l),
                        es == playlist_entities@,
                        k <= mv.len(),
                        forall|c: int|
                            0 <= c < mv.len() ==> (#[trigger] mv[c]).list_id == l,
                        forall|c: int|
                            0 <= c < k ==> (#[trigger] mv[c]).membership_reference
                                >= MIN_MEMBERSHIP_REFERENCE,
                        forall|c: int, d: int|
                            0 <= c && d == c + 1 && d < k ==> (#[trigger] mv[c]).membership_reference
                                < (#[trigger] mv[d]).membership_reference,
                        forall|c: int, d: int|
                            0 <= c && d == c + 1 && d < mv.len() && c < k ==> (
                            #[trigger] mv[c]).next_entity_id.raw == (#[trigger] mv[d]).id.raw,
                        k >= mv.len() ==> (mv.len() > 0 ==> mv.last().next_entity_id.raw == 0),
                        forall|c: int|
                            0 <= c < k && c == mv.len() - 1 ==> mv[c].next_entity_id.raw == 0,
                    decreases mv.len() - k,
                {
                    let e = mine[k];
                    if e.membership_reference < MIN_MEMBERSHIP_REFERENCE {
                        proof {
                            assert(!ordered_list(list_rows(es, l), l));
                        }
                        return Err(LibraryError::AmbiguousLastEntry);
                    }
                    if k > 0 {
                        if !(mine[k - 1].membership_reference < e.membership_reference) {
                            proof {
                                assert(!ordered_list(list_rows(es, l), l));
                            }
                            return Err(LibraryError::AmbiguousLastEntry);
                        }
                    }
                    if k + 1 < mine.len() {
                        if e.next_entity_id.raw != mine[k + 1].id.raw {
                            proof {
                                assert(!ordered_list(list_rows(es, l), l));
                            }
                            return Err(LibraryError::ForkedChain);
                        }
                    } else {
                        if e.next_entity_id.raw != 0 {
                            proof {
                                assert(!ordered_list(list_rows(es, l), l));
                            }
                            return Err(LibraryError::DanglingTail);
                        }
                    }
                    k = k + 1;
                }
                // Reject duplicate track references within the playlist.
                let mut c: usize = 0;
                while c < mine.len()
                    invariant
                        information_rows@.len() == 1,
                        information_rows@[0].spec_version_supported(),
                        mv == mine@,
                        mv == list_rows(es, l),
                        es == playlist_entities@,
                        c <= mv.len(),
                        forall|x: int, y: int|
                            0 <= x < c && x < y < mv.len() ==> (#[trigger] mv[x]).spec_track_ref()
                                != (#[trigger] mv[y]).spec_track_ref(),
                    decreases mv.len() - c,
                {
                    let mut d: usize = c + 1;
                    while d < mine.len()
                        invariant
                            information_rows@.len() == 1,
                            information_rows@[0].spec_version_supported(),
                            mv == mine@,
                            mv == list_rows(es, l),
                            es == playlist_entities@,
                            c < d <= mv.len(),
                            c < mv.len(),
                            forall|y: int|
                                c < y < d ==> (#[trigger] mv[y]).spec_track_ref()
                                    != mv[c as int].spec_track_ref(),
                        decreases mv.len() - d,
                    {
                        let rc = mine[c].track_ref();
                        let rd = mine[d].track_ref();
                        if rc == rd {
                            proof {
                                lemma_track_ref_field_eq(
                                    mv[c as int].spec_track_ref(),
                                    mv[d as int].spec_track_ref(),
                                );
                                if ordered_list(list_rows(es, l), l) {
                                    assert(mv[c as int].spec_track_ref() != mv[
                                        d as int].spec_track_ref());
                                }
                            }
                            return Err(LibraryError::RowCardinalityError);
                        }
                        d = d + 1;
                    }
                    c = c + 1;
                }
                proof {
                    assert(ordered_list(mv, l)) by {
                        lemma_adjacent_sorted_pairwise(mv);
                        assert forall|x: int, y: int|
                            0 <= x && y == x + 1 && y < mv.len() implies (
                        #[trigger] mv[x]).next_entity_id == (#[trigger] mv[y]).id by {
                            lemma_id_field_eq(mv[x].next_entity_id, mv[y].id);
                        }
                    }
                }
                let ghost old_seen = seen@;
                seen.push(l.raw);
                proof {
                    assert forall|l2: PlaylistId| seen@.contains(l2.raw) implies ordered_list(
                        #[trigger] list_rows(es, l2),
                        l2,
                    ) by {
                        let w = choose|w: int| 0 <= w < seen@.len() && seen@[w] == l2.raw;
                        if w < old_seen.len() {
                            assert(old_seen.contains(l2.raw));
                        } else {
                            assert(l2.raw == l.raw);
                            lemma_id_field_eq(l2, l);
                        }
                    }
                    assert forall|k2: int| 0 <= k2 < i + 1 implies seen@.contains(
                        (#[trigger] es[k2]).list_id.raw,
                    ) by {
                        if k2 < i as int {
                            let w = choose|w: int|
                                0 <= w < old_seen.len() && old_seen[w] == es[k2].list_id.raw;
                            assert(seen@[w] == es[k2].list_id.raw);
                        } else {
                            assert(seen@[old_seen.len() as int] == l.raw);
                        }
                    }
                }
            } else {
                proof {
                    assert(seen@.contains(es[i as int].list_id.raw));
                }
            }
            i = i + 1;
        }
        proof {
            assert forall|l: PlaylistId| ordered_list(#[trigger] list_rows(es, l), l) by {
                if exists|k: int| 0 <= k < es.len() && (#[trigger] es[k]).list_id.raw == l.raw {
                    let k = choose|k: int| 0 <= k < es.len() && (#[trigger] es[k]).list_id.raw
                        == l.raw;
                    lemma_id_field_eq(es[k].list_id, l);
                    assert(seen@.contains(es[k].list_id.raw));
                } else {
                    assert(forall|k: int|
                        0 <= k < es.len() ==> (#[trigger] es[k]).list_id != l);
                    lemma_list_rows_absent(es, l);
                    assert(ordered_list(Seq::<PlaylistEntity>::empty(), l));
                }
            }
        }
        Ok(
            Database {
                information,
                tracks,
                playlists,
                playlist_paths,
                playlist_entities,
                next_entity_rowid,
            },
        )
    }
}


/// Putting a playlist's reworked rows back behind the other playlists'
/// rows yields a sound membership table again, with the reworked rows as
/// exactly that playlist's rows.
pub proof fn lemma_reassemble(
    es: Seq<PlaylistEntity>,
    list_id: PlaylistId,
    reworked: Seq<PlaylistEntity>,
    old_next: int,
    new_next: int,
)
    requires
        sound_membership_table(es, old_next),
        valid_list(reworked, list_id, new_next),
        old_next <= new_next,
        forall|i: int|
            0 <= i < reworked.len() ==> (#[trigger] reworked[i]).id.raw >= old_next || (exists|
                j: int,
            |
                0 <= j < list_rows(es, list_id).len() && reworked[i].id == list_rows(
                    es,
                    list_id,
                )[j].id),
    ensures
        sound_membership_table(other_rows(es, list_id) + reworked, new_next),
        list_rows(other_rows(es, list_id) + reworked, list_id) == reworked,
        forall|l: PlaylistId|
            l != list_id ==> #[trigger] list_rows(other_rows(es, list_id) + reworked, l)
                == list_rows(es, l),
{
    let others = other_rows(es, list_id);
    let mine = list_rows(es, list_id);
    let combined = others + reworked;
    lemma_split_rows_facts(es, list_id);
    lemma_split_rows_ids(es, list_id, old_next);
    lemma_list_rows_append(others, reworked, list_id);
    assert(forall|i: int|
        0 <= i < reworked.len() ==> (#[trigger] reworked[i]).list_id == list_id);
    lemma_list_rows_homogeneous(reworked, list_id);
    assert forall|l: PlaylistId| l != list_id implies #[trigger] list_rows(combined, l)
        == list_rows(es, l) by {
        lemma_list_rows_append(others, reworked, l);
        lemma_list_rows_of_other(es, list_id, l);
        assert(list_rows(reworked, l) == Seq::<PlaylistEntity>::empty());
        assert(list_rows(others, l) + Seq::<PlaylistEntity>::empty() =~= list_rows(others, l));
    }
    assert forall|l: PlaylistId| l != list_id implies ordered_list(
        #[trigger] list_rows(combined, l),
        l,
    ) by {
        assert(list_rows(combined, l) == list_rows(es, l));
    }
    assert(list_rows(others, list_id) == Seq::<PlaylistEntity>::empty()) by {
        lemma_list_rows_absent(others, list_id);
    }
    assert(Seq::<PlaylistEntity>::empty() + reworked =~= reworked);
    assert(list_rows(combined, list_id) == reworked);
    // Row identifiers of the combined table are sound.
    assert forall|i: int| 0 <= i < combined.len() implies 0 < (#[trigger] combined[i]).id.raw
        < new_next by {
        if i < others.len() {
            assert(0 < others[i].id.raw < old_next);
        } else {
            assert(combined[i] == reworked[i - others.len()]);
        }
    }
    assert forall|x: int, y: int| 0 <= x < y < combined.len() implies (
    #[trigger] combined[x]).id.raw != (#[trigger] combined[y]).id.raw by {
        let on = others.len() as int;
        if y < on {
        } else if x >= on {
            assert(combined[x] == reworked[x - on]);
            assert(combined[y] == reworked[y - on]);
        } else {
            // One row from another playlist, one reworked row.
            let o = combined[x];
            let rw = reworked[y - on];
            assert(combined[y] == rw);
            if rw.id.raw >= old_next {
                assert(o.id.raw < old_next);
            } else {
                let j = choose|j: int| 0 <= j < mine.len() && rw.id == mine[j].id;
                let i1 = choose|i1: int| 0 <= i1 < es.len() && o == es[i1];
                let i2 = choose|i2: int| 0 <= i2 < es.len() && mine[j] == es[i2];
                if i1 != i2 {
                    assert(es[i1].id.raw != es[i2].id.raw);
                } else {
                    assert(o.list_id != list_id);
                    assert(mine[j].list_id == list_id);
                }
            }
        }
    }
}

impl Playlist {
    /// Appends tracks to a playlist.
    ///
    /// Returns all duplicate tracks that have been ignored. The storage
    /// layer must apply the resulting row changes in one transaction, and
    /// callers must serialize mutations per playlist. The playlist's
    /// membership is extended as by [`append_to_list`]; every other
    /// playlist keeps its rows. The last entry is validated defensively
    /// before the chain is trusted; under [`Database::wf`] that check
    /// cannot fail and the operation is owed success.
    pub fn append_tracks(db: &mut Database, id: PlaylistId, track_refs: &Vec<PlaylistTrackRef>) -> (
    r: Result<Vec<PlaylistTrackRef>, LibraryError>)
        requires
            old(db).wf(),
            old(db).next_entity_rowid + track_refs@.len() <= i64::MAX,
            last_membership_reference(list_rows(old(db).playlist_entities@, id)) + track_refs@.len()
                <= i64::MAX,
        ensures
            r is Ok,
            r matches Ok(ignored) ==> {
                &&& final(db).wf()
                &&& refs_of(list_rows(final(db).playlist_entities@, id)) == appended_refs(
                    refs_of(list_rows(old(db).playlist_entities@, id)),
                    track_refs@,
                )
                &&& ignored@ == ignored_refs(
                    refs_of(list_rows(old(db).playlist_entities@, id)),
                    track_refs@,
                )
                &&& forall|i: int|
                    0 <= i < list_rows(old(db).playlist_entities@, id).len() ==> {
                        &&& (#[trigger] list_rows(final(db).playlist_entities@, id)[i]).id
                            == list_rows(old(db).playlist_entities@, id)[i].id
                        &&& list_rows(final(db).playlist_entities@, id)[i].membership_reference
                            == list_rows(old(db).playlist_entities@, id)[i].membership_reference
                    }
                &&& forall|i: int|
                    list_rows(old(db).playlist_entities@, id).len() <= i < list_rows(
                        final(db).playlist_entities@,
                        id,
                    ).len() ==> (#[trigger] list_rows(
                        final(db).playlist_entities@,
                        id,
                    )[i]).membership_reference == last_membership_reference(
                        list_rows(old(db).playlist_entities@, id),
                    ) + (i - list_rows(old(db).playlist_entities@, id).len()) + 1
                &&& last_membership_reference(list_rows(final(db).playlist_entities@, id))
                    <= last_membership_reference(list_rows(old(db).playlist_entities@, id))
                    + track_refs@.len()
                &&& old(db).next_entity_rowid <= final(db).next_entity_rowid <= old(
                    db,
                ).next_entity_rowid + track_refs@.len()
                &&& forall|l: PlaylistId|
                    l != id ==> #[trigger] list_rows(final(db).playlist_entities@, l) == list_rows(
                        old(db).playlist_entities@,
                        l,
                    )
                &&& final(db).information == old(db).information
                &&& final(db).tracks@ == old(db).tracks@
                &&& final(db).playlists@ == old(db).playlists@
                &&& final(db).playlist_paths@ == old(db).playlist_paths@
            },
    {
        let ghost es = old(db).playlist_entities@;
        let ghost rowid0 = old(db).next_entity_rowid as int;
        let (mut mine, mut others) = partition_list_rows(&db.playlist_entities, id);
        proof {
            lemma_split_rows_ids(es, id, rowid0);
            assert(valid_list(mine@, id, rowid0));
        }
        match try_load_last_of_list(&mine) {
            Ok(_) => {},
            Err(e) => {
                proof {
                    if mine@.len() > 0 {
                        lemma_valid_list_last(mine@, id, rowid0);
                    }
                    assert(false);
                }
                return Err(e);
            },
        }
        let mut next_rowid = db.next_entity_rowid;
        let ignored = append_to_list(&mut mine, id, track_refs, &mut next_rowid);
        let ghost reworked = mine@;
        proof {
            lemma_split_rows_facts(es, id);
            assert forall|i: int| 0 <= i < reworked.len() implies (
            #[trigger] reworked[i]).id.raw >= rowid0 || (exists|j: int|
                0 <= j < list_rows(es, id).len() && reworked[i].id == list_rows(es, id)[j].id) by {
                if i < list_rows(es, id).len() {
                    assert(reworked[i].id == list_rows(es, id)[i].id);
                }
            }
            lemma_reassemble(es, id, reworked, rowid0, next_rowid as int);
        }
        others.append(&mut mine);
        db.playlist_entities = others;
        db.next_entity_rowid = next_rowid;
        Ok(ignored)
    }

    /// Replaces all tracks in a playlist.
    ///
    /// The storage layer must apply the resulting row changes in one
    /// transaction, and callers must serialize mutations per playlist.
    /// The membership becomes exactly the given pairwise distinct
    /// references, reusing existing rows position by position as by
    /// [`replace_in_list`]; every other playlist keeps its rows. The
    /// returned list of ignored duplicates is always empty.
    pub fn replace_tracks(db: &mut Database, id: PlaylistId, track_refs: &Vec<PlaylistTrackRef>) -> (
    r: Result<Vec<PlaylistTrackRef>, LibraryError>)
        requires
            old(db).wf(),
            old(db).next_entity_rowid + track_refs@.len() <= i64::MAX,
            last_membership_reference(list_rows(old(db).playlist_entities@, id)) + track_refs@.len()
                <= i64::MAX,
            forall|i: int, j: int|
                0 <= i < j < track_refs@.len() ==> track_refs@[i] != track_refs@[j],
        ensures
            r is Ok,
            r matches Ok(ignored) ==> {
                &&& final(db).wf()
                &&& refs_of(list_rows(final(db).playlist_entities@, id)) == track_refs@
                &&& ignored@ == Seq::<PlaylistTrackRef>::empty()
                &&& forall|l: PlaylistId|
                    l != id ==> #[trigger] list_rows(final(db).playlist_entities@, l) == list_rows(
                        old(db).playlist_entities@,
                        l,
                    )
                &&& forall|i: int|
                    0 <= i < list_rows(old(db).playlist_entities@, id).len() && i
                        < track_refs@.len() ==> {
                        &&& (#[trigger] list_rows(final(db).playlist_entities@, id)[i]).id
                            == list_rows(old(db).playlist_entities@, id)[i].id
                        &&& list_rows(final(db).playlist_entities@, id)[i].membership_reference
                            == list_rows(old(db).playlist_entities@, id)[i].membership_reference
                    }
                &&& forall|i: int|
                    list_rows(old(db).playlist_entities@, id).len() <= i < list_rows(
                        final(db).playlist_entities@,
                        id,
                    ).len() ==> (#[trigger] list_rows(
                        final(db).playlist_entities@,
                        id,
                    )[i]).membership_reference == last_membership_reference(
                        list_rows(old(db).playlist_entities@, id),
                    ) + (i - list_rows(old(db).playlist_entities@, id).len()) + 1
                &&& last_membership_reference(list_rows(final(db).playlist_entities@, id))
                    <= last_membership_reference(list_rows(old(db).playlist_entities@, id))
                    + track_refs@.len()
                &&& old(db).next_entity_rowid <= final(db).next_entity_rowid <= old(
                    db,
                ).next_entity_rowid + track_refs@.len()
                &&& final(db).information == old(db).information
                &&& final(db).tracks@ == old(db).tracks@
                &&& final(db).playlists@ == old(db).playlists@
                &&& final(db).playlist_paths@ == old(db).playlist_paths@
            },
    {
        let ghost es = old(db).playlist_entities@;
        let ghost rowid0 = old(db).next_entity_rowid as int;
        let (mut mine, mut others) = partition_list_rows(&db.playlist_entities, id);
        proof {
            lemma_split_rows_ids(es, id, rowid0);
            assert(valid_list(mine@, id, rowid0));
        }
        let mut next_rowid = db.next_entity_rowid;
        let ignored = replace_in_list(&mut mine, id, track_refs, &mut next_rowid);
        let ghost reworked = mine@;
        proof {
            lemma_split_rows_facts(es, id);
            assert forall|i: int| 0 <= i < reworked.len() implies (
            #[trigger] reworked[i]).id.raw >= rowid0 || (exists|j: int|
                0 <= j < list_rows(es, id).len() && reworked[i].id == list_rows(es, id)[j].id) by {
                if i < list_rows(es, id).len() && i < track_refs@.len() {
                    assert(reworked[i].id == list_rows(es, id)[i].id);
                }
            }
            lemma_reassemble(es, id, reworked, rowid0, next_rowid as int);
        }
        others.append(&mut mine);
        db.playlist_entities = others;
        db.next_entity_rowid = next_rowid;
        Ok(ignored)
    }
}


/// The first membership row with the given identifier.
pub open spec fn find_entity(es: Seq<PlaylistEntity>, id: PlaylistEntityId) -> Option<
    PlaylistEntity,
>
    decreases es.len(),
{
    if es.len() == 0 {
        None
    } else if es.first().id == id {
        Some(es.first())
    } else {
        find_entity(es.drop_first(), id)
    }
}

/// The first playlist row with the given identifier.
pub open spec fn find_playlist(ps: Seq<Playlist>, id: PlaylistId) -> Option<Playlist>
    decreases ps.len(),
{
    if ps.len() == 0 {
        None
    } else if ps.first().id == id {
        Some(ps.first())
    } else {
        find_playlist(ps.drop_first(), id)
    }
}

/// Whether a track row stores exactly the given path text.
pub open spec fn track_path_matches(t: Track, text: Seq<char>) -> bool {
    t.path matches Some(p) && p@ == text
}

/// The first track row stored under the given path text.
pub open spec fn find_track_by_path(ts: Seq<Track>, text: Seq<char>) -> Option<Track>
    decreases ts.len(),
{
    if ts.len() == 0 {
        None
    } else if track_path_matches(ts.first(), text) {
        Some(ts.first())
    } else {
        find_track_by_path(ts.drop_first(), text)
    }
}

/// The first playlist path row with the given path text.
pub open spec fn find_playlist_path(pps: Seq<PlaylistPath>, text: Seq<char>) -> Option<PlaylistPath>
    decreases pps.len(),
{
    if pps.len() == 0 {
        None
    } else if pps.first().path@ == text {
        Some(pps.first())
    } else {
        find_playlist_path(pps.drop_first(), text)
    }
}

/// A playlist path lookup key, terminated by the separator if it is not
/// already.
pub open spec fn terminated_playlist_path(text: Seq<char>) -> Seq<char> {
    if text.len() > 0 && text.last() == ';' {
        text
    } else {
        text.push(';')
    }
}

impl Playlist {
    /// Loads a single [`Playlist`] by ID.
    ///
    /// Returns `None` if the requested [`Playlist`] has not been found.
    pub fn try_load(db: &Database, id: PlaylistId) -> (r: Option<Playlist>)
        ensures
            r == find_playlist(db.playlists@, id),
    {
        let ghost ps = db.playlists@;
        proof {
            assert(ps.skip(0) =~= ps);
        }
        let mut i: usize = 0;
        while i < db.playlists.len()
            invariant
                ps == db.playlists@,
                i <= ps.len(),
                find_playlist(ps, id) == find_playlist(ps.skip(i as int), id),
            decreases ps.len() - i,
        {
            proof {
                assert(ps.skip(i as int).first() == ps[i as int]);
                assert(ps.skip(i as int).drop_first() =~= ps.skip(i + 1));
            }
            if db.playlists[i].id == id {
                proof {
                    lemma_id_field_eq(ps[i as int].id, id);
                }
                return Some(db.playlists[i].clone());
            }
            i = i + 1;
        }
        None
    }

    /// Finds a playlist's identifier by its path in the playlist
    /// hierarchy, terminating the path with the separator if needed.
    pub fn find_id_by_path(db: &Database, path: &str) -> (r: Option<PlaylistId>)
        ensures
            r is Some <==> find_playlist_path(
                db.playlist_paths@,
                terminated_playlist_path(path@),
            ) is Some,
            r matches Some(pid) ==> (find_playlist_path(
                db.playlist_paths@,
                terminated_playlist_path(path@),
            ) matches Some(row) && pid.raw == row.id),
    {
        let n = path.unicode_len();
        let terminated: String;
        if n > 0 && path.get_char(n - 1) == ';' {
            terminated = path.to_owned();
        } else {
            let mut t = path.to_owned();
            t.append(";");
            proof {
                reveal_strlit(";");
                assert(t@ =~= path@.push(';'));
            }
            terminated = t;
        }
        let ghost key = terminated_playlist_path(path@);
        let ghost pps = db.playlist_paths@;
        proof {
            assert(pps.skip(0) =~= pps);
        }
        let mut i: usize = 0;
        while i < db.playlist_paths.len()
            invariant
                pps == db.playlist_paths@,
                i <= pps.len(),
                key == terminated_playlist_path(path@),
                terminated@ == key,
                find_playlist_path(pps, key) == find_playlist_path(pps.skip(i as int), key),
            decreases pps.len() - i,
        {
            proof {
                assert(pps.skip(i as int).first() == pps[i as int]);
                assert(pps.skip(i as int).drop_first() =~= pps.skip(i + 1));
            }
            let row = &db.playlist_paths[i];
            if crate::file_path::strings_equal(&row.path, &terminated) {
                return Some(PlaylistId::new(row.id));
            }
            i = i + 1;
        }
        None
    }
}

impl Track {
    /// Finds the reference columns of the track stored under the given
    /// path.
    ///
    /// The path must match the stored path exactly.
    pub fn find_ref_by_path(db: &Database, path: &str) -> (r: Option<TrackRef>)
        ensures
            r is Some <==> find_track_by_path(db.tracks@, path@) is Some,
            r matches Some(tr) ==> (find_track_by_path(db.tracks@, path@) matches Some(t) && tr.id
                == t.id && tr.origin == t.origin),
    {
        let ghost ts = db.tracks@;
        proof {
            assert(ts.skip(0) =~= ts);
        }
        let mut i: usize = 0;
        while i < db.tracks.len()
            invariant
                ts == db.tracks@,
                i <= ts.len(),
                find_track_by_path(ts, path@) == find_track_by_path(ts.skip(i as int), path@),
            decreases ts.len() - i,
        {
            proof {
                assert(ts.skip(i as int).first() == ts[i as int]);
                assert(ts.skip(i as int).drop_first() =~= ts.skip(i + 1));
            }
            let t = &db.tracks[i];
            let matched: bool = match &t.path {
                Some(p) => crate::file_path::strings_equal_str(p, path),
                None => false,
            };
            if matched {
                return Some(TrackRef { id: t.id, origin: t.origin });
            }
            i = i + 1;
        }
        None
    }
}

impl PlaylistEntity {
    /// Counts the entries of a playlist.
    pub fn count_list(db: &Database, list_id: PlaylistId) -> (count: u64)
        ensures
            count as int == list_rows(db.playlist_entities@, list_id).len(),
    {
        let ghost es = db.playlist_entities@;
        let mut count: u64 = 0;
        let mut i: usize = 0;
        while i < db.playlist_entities.len()
            invariant
                es == db.playlist_entities@,
                i <= es.len(),
                count as int == list_rows(es.take(i as int), list_id).len(),
                count as int <= i as int,
            decreases es.len() - i,
        {
            proof {
                assert(es.take(i + 1).drop_last() =~= es.take(i as int));
                assert(es.take(i + 1).last() == es[i as int]);
            }
            if db.playlist_entities[i].list_id == list_id {
                proof {
                    lemma_id_field_eq(es[i as int].list_id, list_id);
                }
                count = count + 1;
            }
            i = i + 1;
        }
        proof {
            assert(es.take(es.len() as int) =~= es);
        }
        count
    }

    /// Loads all entries of a playlist, in canonical order.
    pub fn load_list(db: &Database, list_id: PlaylistId) -> (r: Vec<PlaylistEntity>)
        ensures
            r@ == list_rows(db.playlist_entities@, list_id),
    {
        let (mine, _others) = partition_list_rows(&db.playlist_entities, list_id);
        mine
    }

    /// Deletes all entries of a playlist, returning how many rows were
    /// removed. Every other playlist keeps its rows.
    pub fn delete_list(db: &mut Database, list_id: PlaylistId) -> (count: u64)
        requires
            old(db).wf(),
        ensures
            final(db).wf(),
            count as int == list_rows(old(db).playlist_entities@, list_id).len(),
            final(db).playlist_entities@ == other_rows(old(db).playlist_entities@, list_id),
            list_rows(final(db).playlist_entities@, list_id) == Seq::<PlaylistEntity>::empty(),
            forall|l: PlaylistId|
                l != list_id ==> #[trigger] list_rows(final(db).playlist_entities@, l) == list_rows(
                    old(db).playlist_entities@,
                    l,
                ),
            final(db).information == old(db).information,
            final(db).tracks@ == old(db).tracks@,
            final(db).playlists@ == old(db).playlists@,
            final(db).playlist_paths@ == old(db).playlist_paths@,
            final(db).next_entity_rowid == old(db).next_entity_rowid,
    {
        let ghost es = old(db).playlist_entities@;
        let ghost rowid0 = old(db).next_entity_rowid as int;
        let (mine, others) = partition_list_rows(&db.playlist_entities, list_id);
        proof {
            lemma_split_rows_facts(es, list_id);
            lemma_split_rows_ids(es, list_id, rowid0);
            assert forall|l: PlaylistId| ordered_list(
                #[trigger] list_rows(other_rows(es, list_id), l),
                l,
            ) by {
                if l == list_id {
                    lemma_list_rows_absent(other_rows(es, list_id), l);
                    assert(ordered_list(Seq::<PlaylistEntity>::empty(), l));
                } else {
                    lemma_list_rows_of_other(es, list_id, l);
                }
            }
            lemma_list_rows_absent(other_rows(es, list_id), list_id);
            assert forall|l: PlaylistId| l != list_id implies #[trigger] list_rows(
                other_rows(es, list_id),
                l,
            ) == list_rows(es, l) by {
                lemma_list_rows_of_other(es, list_id, l);
            }
        }
        let count = mine.len() as u64;
        db.playlist_entities = others;
        count
    }

    /// Loads a single entry by ID.
    ///
    /// Returns `None` if the requested entry has not been found.
    pub fn try_load(db: &Database, id: PlaylistEntityId) -> (r: Option<PlaylistEntity>)
        ensures
            r == find_entity(db.playlist_entities@, id),
    {
        let ghost es = db.playlist_entities@;
        proof {
            assert(es.skip(0) =~= es);
        }
        let mut i: usize = 0;
        while i < db.playlist_entities.len()
            invariant
                es == db.playlist_entities@,
                i <= es.len(),
                find_entity(es, id) == find_entity(es.skip(i as int), id),
            decreases es.len() - i,
        {
            proof {
                assert(es.skip(i as int).first() == es[i as int]);
                assert(es.skip(i as int).drop_first() =~= es.skip(i + 1));
            }
            let e = db.playlist_entities[i];
            if e.id == id {
                proof {
                    lemma_id_field_eq(es[i as int].id, id);
                }
                return Some(e);
            }
            i = i + 1;
        }
        None
    }

    /// Reads the (unambiguous) database UUID of a playlist's entries.
    ///
    /// Returns `Ok(None)` if the playlist has no entries, and fails if
    /// the entries reference multiple database UUIDs.
    pub fn try_load_db_uuid_of_list(db: &Database, list_id: PlaylistId) -> (r: Result<
        Option<DbUuid>,
        LibraryError,
    >)
        ensures
            list_rows(db.playlist_entities@, list_id).len() == 0 <==> r == Ok::<
                Option<DbUuid>,
                LibraryError,
            >(None),
            r matches Ok(Some(u)) ==> {
                &&& list_rows(db.playlist_entities@, list_id).len() > 0
                &&& forall|i: int|
                    0 <= i < list_rows(db.playlist_entities@, list_id).len() ==> (
                    #[trigger] list_rows(db.playlist_entities@, list_id)[i]).database_uuid == u
            },
            r is Err <==> exists|i: int|
                0 <= i < list_rows(db.playlist_entities@, list_id).len() && (#[trigger] list_rows(
                    db.playlist_entities@,
                    list_id,
                )[i]).database_uuid.value != list_rows(
                    db.playlist_entities@,
                    list_id,
                )[0].database_uuid.value,
            r matches Err(e) ==> e == LibraryError::RowCardinalityError,
    {
        let ghost rows = list_rows(db.playlist_entities@, list_id);
        let (mine, _others) = partition_list_rows(&db.playlist_entities, list_id);
        if mine.len() == 0 {
            return Ok(None);
        }
        let uuid = mine[0].database_uuid;
        let mut i: usize = 1;
        while i < mine.len()
            invariant
                rows == mine@,
                rows == list_rows(db.playlist_entities@, list_id),
                1 <= i <= rows.len(),
                uuid == rows[0].database_uuid,
                forall|k: int| 0 <= k < i ==> (#[trigger] rows[k]).database_uuid == uuid,
            decreases rows.len() - i,
        {
            if !(mine[i].database_uuid == uuid) {
                return Err(LibraryError::RowCardinalityError);
            }
            proof {
                crate::db_uuid::lemma_uuid_field_eq(rows[i as int].database_uuid, uuid);
            }
            i = i + 1;
        }
        Ok(Some(uuid))
    }

    /// Loads the last entry of a playlist, validating the chain as
    /// [`try_load_last_of_list`] does. On a sound store the validation
    /// cannot fail.
    pub fn try_load_last_of_list(db: &Database, list_id: PlaylistId) -> (r: Result<
        Option<PlaylistEntity>,
        LibraryError,
    >)
        ensures
            r == spec_try_load_last(list_rows(db.playlist_entities@, list_id)),
            db.wf() ==> r is Ok,
    {
        let (mine, _others) = partition_list_rows(&db.playlist_entities, list_id);
        proof {
            if db.wf() {
                lemma_split_rows_ids(db.playlist_entities@, list_id, db.next_entity_rowid as int);
                if mine@.len() > 0 {
                    lemma_valid_list_last(mine@, list_id, db.next_entity_rowid as int);
                }
            }
        }
        try_load_last_of_list(&mine)
    }
}


/// The playlist table with every row of the given identifier removed and
/// everything else kept, in order.
pub open spec fn playlists_without(ps: Seq<Playlist>, id: PlaylistId) -> Seq<Playlist>
    decreases ps.len(),
{
    if ps.len() == 0 {
        Seq::empty()
    } else if ps.last().id == id {
        playlists_without(ps.drop_last(), id)
    } else {
        playlists_without(ps.drop_last(), id).push(ps.last())
    }
}

/// An empty leaf playlist: it has no membership rows and no playlist
/// names it as parent.
pub open spec fn is_empty_leaf(p: Playlist, es: Seq<PlaylistEntity>, ps: Seq<Playlist>) -> bool {
    &&& forall|i: int| 0 <= i < es.len() ==> (#[trigger] es[i]).list_id != p.id
    &&& forall|j: int| 0 <= j < ps.len() ==> (#[trigger] ps[j]).parent_list_id != p.id
}

/// The playlists of `part` that are empty leaves with respect to the full
/// tables.
pub open spec fn empty_leaf_playlists(
    part: Seq<Playlist>,
    es: Seq<PlaylistEntity>,
    ps: Seq<Playlist>,
) -> Seq<Playlist>
    decreases part.len(),
{
    if part.len() == 0 {
        Seq::empty()
    } else if is_empty_leaf(part.last(), es, ps) {
        empty_leaf_playlists(part.drop_last(), es, ps).push(part.last())
    } else {
        empty_leaf_playlists(part.drop_last(), es, ps)
    }
}

/// The playlists of `part` that survive one deletion pass: all that are
/// not empty leaves with respect to the full tables.
pub open spec fn surviving_playlists(
    part: Seq<Playlist>,
    es: Seq<PlaylistEntity>,
    ps: Seq<Playlist>,
) -> Seq<Playlist>
    decreases part.len(),
{
    if part.len() == 0 {
        Seq::empty()
    } else if is_empty_leaf(part.last(), es, ps) {
        surviving_playlists(part.drop_last(), es, ps)
    } else {
        surviving_playlists(part.drop_last(), es, ps).push(part.last())
    }
}

proof fn lemma_surviving_len(part: Seq<Playlist>, es: Seq<PlaylistEntity>, ps: Seq<Playlist>)
    ensures
        surviving_playlists(part, es, ps).len() <= part.len(),
    decreases part.len(),
{
    if part.len() > 0 {
        lemma_surviving_len(part.drop_last(), es, ps);
    }
}

/// Checks whether any membership row belongs to the playlist.
fn playlist_has_entries(entities: &Vec<PlaylistEntity>, id: PlaylistId) -> (b: bool)
    ensures
        b == !(forall|i: int| 0 <= i < entities@.len() ==> (#[trigger] entities@[i]).list_id != id),
{
    let mut i: usize = 0;
    while i < entities.len()
        invariant
            i <= entities@.len(),
            forall|k: int| 0 <= k < i ==> (#[trigger] entities@[k]).list_id != id,
        decreases entities@.len() - i,
    {
        if entities[i].list_id == id {
            proof {
                lemma_id_field_eq(entities@[i as int].list_id, id);
            }
            return true;
        }
        i = i + 1;
    }
    false
}

/// Checks whether any playlist names the playlist as its parent.
fn playlist_has_children(playlists: &Vec<Playlist>, id: PlaylistId) -> (b: bool)
    ensures
        b == !(forall|j: int|
            0 <= j < playlists@.len() ==> (#[trigger] playlists@[j]).parent_list_id != id),
{
    let mut j: usize = 0;
    while j < playlists.len()
        invariant
            j <= playlists@.len(),
            forall|k: int| 0 <= k < j ==> (#[trigger] playlists@[k]).parent_list_id != id,
        decreases playlists@.len() - j,
    {
        if playlists[j].parent_list_id == id {
            proof {
                lemma_id_field_eq(playlists@[j as int].parent_list_id, id);
            }
            return true;
        }
        j = j + 1;
    }
    false
}

impl Playlist {
    /// Deletes a playlist row.
    ///
    /// Returns whether a row with the identifier existed. Its membership
    /// rows are not touched; see [`PlaylistEntity::delete_list`].
    pub fn delete(db: &mut Database, id: PlaylistId) -> (deleted: bool)
        ensures
            deleted <==> (exists|i: int|
                0 <= i < old(db).playlists@.len() && (#[trigger] old(db).playlists@[i]).id == id),
            final(db).playlists@ == playlists_without(old(db).playlists@, id),
            forall|i: int|
                0 <= i < final(db).playlists@.len() ==> (#[trigger] final(db).playlists@[i]).id
                    != id,
            final(db).information == old(db).information,
            final(db).tracks@ == old(db).tracks@,
            final(db).playlist_paths@ == old(db).playlist_paths@,
            final(db).playlist_entities@ == old(db).playlist_entities@,
            final(db).next_entity_rowid == old(db).next_entity_rowid,
            old(db).wf() ==> final(db).wf(),
    {
        let ghost ps = old(db).playlists@;
        let mut kept: Vec<Playlist> = Vec::new();
        let mut deleted = false;
        let mut i: usize = 0;
        while i < db.playlists.len()
            invariant
                ps == db.playlists@,
                i <= ps.len(),
                forall|k: int| 0 <= k < kept@.len() ==> (#[trigger] kept@[k]).id != id,
                kept@ == playlists_without(ps.take(i as int), id),
                deleted <==> (exists|k: int|
                    0 <= k < i && (#[trigger] ps[k]).id == id),
            decreases ps.len() - i,
        {
            proof {
                assert(ps.take(i + 1).drop_last() =~= ps.take(i as int));
                assert(ps.take(i + 1).last() == ps[i as int]);
            }
            let p = &db.playlists[i];
            if p.id == id {
                proof {
                    lemma_id_field_eq(ps[i as int].id, id);
                }
                deleted = true;
            } else {
                proof {
                    if ps[i as int].id == id {
                        assert(ps[i as int].id.raw == id.raw);
                    }
                }
                kept.push(p.clone());
            }
            i = i + 1;
        }
        proof {
            assert(ps.take(ps.len() as int) =~= ps);
        }
        db.playlists = kept;
        deleted
    }

    /// Collects all empty playlists without children.
    ///
    /// A playlist qualifies when it has no membership rows and is not the
    /// parent of any other playlist.
    pub fn fetch_all_empty_without_children(db: &Database) -> (r: Vec<Playlist>)
        ensures
            r@ == empty_leaf_playlists(db.playlists@, db.playlist_entities@, db.playlists@),
    {
        let ghost ps = db.playlists@;
        let ghost es = db.playlist_entities@;
        let mut found: Vec<Playlist> = Vec::new();
        let mut i: usize = 0;
        while i < db.playlists.len()
            invariant
                ps == db.playlists@,
                es == db.playlist_entities@,
                i <= ps.len(),
                found@ == empty_leaf_playlists(ps.take(i as int), es, ps),
            decreases ps.len() - i,
        {
            proof {
                assert(ps.take(i + 1).drop_last() =~= ps.take(i as int));
                assert(ps.take(i + 1).last() == ps[i as int]);
            }
            let p = &db.playlists[i];
            if !playlist_has_entries(&db.playlist_entities, p.id) && !playlist_has_children(
                &db.playlists,
                p.id,
            ) {
                found.push(p.clone());
            }
            i = i + 1;
        }
        proof {
            assert(ps.take(ps.len() as int) =~= ps);
        }
        found
    }

    /// Deletes all empty playlists without children, in one pass.
    ///
    /// A playlist is deleted when it has no membership rows and is not
    /// the parent of any other playlist, both judged against the tables
    /// as they stood before the pass. Deleting a leaf can expose its
    /// former parent as a new leaf, so callers repeat the pass until it
    /// deletes nothing.
    pub fn delete_all_empty_without_children(db: &mut Database) -> (count: u64)
        ensures
            final(db).playlists@ == surviving_playlists(
                old(db).playlists@,
                old(db).playlist_entities@,
                old(db).playlists@,
            ),
            count as int == old(db).playlists@.len() - final(db).playlists@.len(),
            final(db).information == old(db).information,
            final(db).tracks@ == old(db).tracks@,
            final(db).playlist_paths@ == old(db).playlist_paths@,
            final(db).playlist_entities@ == old(db).playlist_entities@,
            final(db).next_entity_rowid == old(db).next_entity_rowid,
            old(db).wf() ==> final(db).wf(),
    {
        let ghost ps = old(db).playlists@;
        let ghost es = old(db).playlist_entities@;
        let mut kept: Vec<Playlist> = Vec::new();
        let mut i: usize = 0;
        while i < db.playlists.len()
            invariant
                ps == db.playlists@,
                es == db.playlist_entities@,
                i <= ps.len(),
                kept@ == surviving_playlists(ps.take(i as int), es, ps),
                kept@.len() <= i,
            decreases ps.len() - i,
        {
            proof {
                assert(ps.take(i + 1).drop_last() =~= ps.take(i as int));
                assert(ps.take(i + 1).last() == ps[i as int]);
            }
            let p = &db.playlists[i];
            if playlist_has_entries(&db.playlist_entities, p.id) || playlist_has_children(
                &db.playlists,
                p.id,
            ) {
                kept.push(p.clone());
            }
            i = i + 1;
        }
        proof {
            assert(ps.take(ps.len() as int) =~= ps);
        }
        let count = (db.playlists.len() - kept.len()) as u64;
        db.playlists = kept;
        count
    }
}

/// What one entry of a batch resolution yields: the path is imported into
/// its stored form, looked up against the track table by exact match, and
/// the found track's reference is resolved to its canonical form.
pub open spec fn resolve_one(
    tracks: Seq<Track>,
    lib: Seq<Seq<char>>,
    local_database_uuid: DbUuid,
    fp_absolute: bool,
    fp: Seq<Seq<char>>,
) -> Result<PlaylistTrackRef, LibraryError> {
    match imported_track_segments(lib, fp_absolute, fp) {
        Err(e) => Err(e),
        Ok(stored) => match find_track_by_path(tracks, path_text(false, stored)) {
            None => Err(LibraryError::UnknownTrackPath),
            Some(t) => canonical_track_ref(TrackRef { id: t.id, origin: t.origin }, local_database_uuid),
        },
    }
}

/// Resolves an ordered batch of track file paths to canonical playlist
/// track references.
///
/// Resolution is fail-fast and order-preserving: the first path that does
/// not import, is unknown to the track table, or resolves inconsistently
/// aborts the whole batch with an error naming that entry; no partial
/// result is returned.
pub fn resolve_playlist_track_refs_from_file_paths(
    db: &Database,
    local_database_uuid: DbUuid,
    library_path: &LibraryPath,
    track_paths: &Vec<FilePath>,
) -> (r: Result<Vec<PlaylistTrackRef>, BatchError>)
    requires
        library_path.wf(),
        forall|i: int| 0 <= i < track_paths@.len() ==> (#[trigger] track_paths@[i]).wf(),
    ensures
        r matches Ok(v) ==> {
            &&& v@.len() == track_paths@.len()
            &&& forall|i: int|
                0 <= i < track_paths@.len() ==> resolve_one(
                    db.tracks@,
                    library_path.path.segs(),
                    local_database_uuid,
                    (#[trigger] track_paths@[i]).is_absolute,
                    track_paths@[i].segs(),
                ) == Ok::<_, LibraryError>(v@[i])
        },
        r matches Err(be) ==> {
            &&& be.index < track_paths@.len()
            &&& resolve_one(
                db.tracks@,
                library_path.path.segs(),
                local_database_uuid,
                track_paths@[be.index as int].is_absolute,
                track_paths@[be.index as int].segs(),
            ) == Err::<PlaylistTrackRef, _>(be.error)
            &&& forall|k: int|
                0 <= k < be.index ==> resolve_one(
                    db.tracks@,
                    library_path.path.segs(),
                    local_database_uuid,
                    (#[trigger] track_paths@[k]).is_absolute,
                    track_paths@[k].segs(),
                ) is Ok
        },
{
    let ghost lib = library_path.path.segs();
    let mut resolved: Vec<PlaylistTrackRef> = Vec::new();
    let mut i: usize = 0;
    while i < track_paths.len()
        invariant
            library_path.wf(),
            lib == library_path.path.segs(),
            forall|k: int| 0 <= k < track_paths@.len() ==> (#[trigger] track_paths@[k]).wf(),
            i <= track_paths@.len(),
            resolved@.len() == i,
            forall|k: int|
                0 <= k < i ==> resolve_one(
                    db.tracks@,
                    lib,
                    local_database_uuid,
                    (#[trigger] track_paths@[k]).is_absolute,
                    track_paths@[k].segs(),
                ) == Ok::<_, LibraryError>(resolved@[k]),
        decreases track_paths@.len() - i,
    {
        let fp = track_paths[i].clone();
        let stored_path = match import_track_file_path(library_path, fp) {
            Ok(p) => p,
            Err(e) => {
                return Err(BatchError { index: i, error: e });
            },
        };
        let text = stored_path.to_path();
        let track_ref = match Track::find_ref_by_path(db, text.as_str()) {
            Some(track_ref) => track_ref,
            None => {
                return Err(BatchError { index: i, error: LibraryError::UnknownTrackPath });
            },
        };
        match PlaylistTrackRef::new(track_ref, local_database_uuid) {
            Ok(canonical) => {
                resolved.push(canonical);
            },
            Err(e) => {
                return Err(BatchError { index: i, error: e });
            },
        }
        i = i + 1;
    }
    Ok(resolved)
}

} // verus!
