//! Playlists and their ordered membership.
//!
//! A playlist's members are rows that form a singly linked chain: each row
//! points at the next one and the final row carries the invalid
//! identifier. The canonical order is the strictly increasing
//! `membership_reference` column, independent of the chain pointers. The
//! engine here maintains both, modeling the membership table as an arena
//! of rows ordered by that key.

use crate::db_uuid::DbUuid;
use crate::error::LibraryError;
use crate::ids::PlaylistAllChildrenId;
use crate::ids::PlaylistAllParentId;
use crate::ids::PlaylistEntityId;
use crate::ids::PlaylistId;
use crate::ids::TrackId;
use crate::track::canonical_origin;
use crate::track::TrackRef;
use crate::unix_timestamp::UnixTimestamp;
use vstd::prelude::*;
use vstd::string::StrSliceExecFns;
use vstd::string::StringExecFns;

verus! {

/// Smallest ordering key a membership row may carry.
pub const MIN_MEMBERSHIP_REFERENCE: i64 = 1;

/// The ordering key that follows `membership_reference`.
pub fn next_membership_reference(membership_reference: i64) -> (r: i64)
    requires
        MIN_MEMBERSHIP_REFERENCE <= membership_reference < i64::MAX,
    ensures
        r == membership_reference + 1,
{
    membership_reference + 1
}

/// A playlist row.
#[derive(Debug)]
pub struct Playlist {
    pub id: PlaylistId,
    pub title: String,
    pub parent_list_id: PlaylistId,
    pub is_persisted: bool,
    pub next_list_id: PlaylistId,
    /// UTC timestamp encoded as plain date/time.
    pub last_edit_time: UnixTimestamp,
    pub is_explicitly_exported: bool,
}

impl Clone for Playlist {
    fn clone(&self) -> (r: Self)
        ensures
            r == *self,
    {
        Playlist {
            id: self.id,
            title: self.title.clone(),
            parent_list_id: self.parent_list_id,
            is_persisted: self.is_persisted,
            next_list_id: self.next_list_id,
            last_edit_time: self.last_edit_time,
            is_explicitly_exported: self.is_explicitly_exported,
        }
    }
}

/// References a track with(-in) its origin database.
#[derive(Debug, Clone, Copy)]
pub struct PlaylistTrackRef {
    pub track_id: TrackId,
    pub database_uuid: DbUuid,
}

impl PartialEq for PlaylistTrackRef {
    fn eq(&self, other: &Self) -> (r: bool) {
        self.track_id.raw == other.track_id.raw && self.database_uuid.value
            == other.database_uuid.value
    }
}

impl vstd::std_specs::cmp::PartialEqSpecImpl for PlaylistTrackRef {
    open spec fn obeys_eq_spec() -> bool {
        true
    }

    open spec fn eq_spec(&self, other: &Self) -> bool {
        self.track_id.raw == other.track_id.raw && self.database_uuid.value
            == other.database_uuid.value
    }
}

impl Eq for PlaylistTrackRef {

}

/// Two references whose raw columns agree are the same reference.
pub proof fn lemma_track_ref_field_eq(a: PlaylistTrackRef, b: PlaylistTrackRef)
    requires
        a.track_id.raw == b.track_id.raw,
        a.database_uuid.value == b.database_uuid.value,
    ensures
        a == b,
{
}

/// The canonical playlist foreign key that a track reference resolves to.
pub open spec fn canonical_track_ref(track_ref: TrackRef, local_database_uuid: DbUuid) -> Result<
    PlaylistTrackRef,
    LibraryError,
> {
    match canonical_origin(track_ref, local_database_uuid) {
        Ok(origin) => Ok(PlaylistTrackRef { track_id: origin.id, database_uuid: origin.db_uuid }),
        Err(e) => Err(e),
    }
}

impl PlaylistTrackRef {
    /// Resolves a track reference to the canonical form used as a playlist
    /// foreign key: the origin pair where an origin is present (after the
    /// self-consistency check), else the track itself in the local
    /// database.
    pub fn new(track_ref: TrackRef, local_database_uuid: DbUuid) -> (r: Result<
        Self,
        LibraryError,
    >)
        ensures
            r == canonical_track_ref(track_ref, local_database_uuid),
    {
        match track_ref.to_origin(local_database_uuid) {
            Ok(origin) => Ok(
                PlaylistTrackRef { track_id: origin.id, database_uuid: origin.db_uuid },
            ),
            Err(e) => Err(e),
        }
    }
}

/// Entry in a [`Playlist`].
///
/// The terminology used in the schema is confusing and the table
/// should have been named `PlaylistEntry` instead of `PlaylistEntity`.
#[derive(Debug, Clone, Copy)]
pub struct PlaylistEntity {
    pub id: PlaylistEntityId,
    pub list_id: PlaylistId,
    pub track_id: TrackId,
    pub database_uuid: DbUuid,
    pub next_entity_id: PlaylistEntityId,
    pub membership_reference: i64,
}

impl PlaylistEntity {
    /// The track reference columns of this row.
    pub open spec fn spec_track_ref(&self) -> PlaylistTrackRef {
        PlaylistTrackRef { track_id: self.track_id, database_uuid: self.database_uuid }
    }

    /// The track reference held by this row.
    #[verifier::when_used_as_spec(spec_track_ref)]
    pub fn track_ref(&self) -> (r: PlaylistTrackRef)
        ensures
            r == self.spec_track_ref(),
    {
        PlaylistTrackRef { track_id: self.track_id, database_uuid: self.database_uuid }
    }
}

/// The track references of a list of membership rows, in row order.
pub open spec fn refs_of(rows: Seq<PlaylistEntity>) -> Seq<PlaylistTrackRef> {
    rows.map_values(|e: PlaylistEntity| e.spec_track_ref())
}

/// The ordering key of the final row, or zero for an empty list.
pub open spec fn last_membership_reference(rows: Seq<PlaylistEntity>) -> int {
    if rows.len() == 0 {
        0
    } else {
        rows.last().membership_reference as int
    }
}

/// A membership list of one playlist in canonical order: every row
/// belongs to the playlist; ordering keys are positive and strictly
/// increasing; each row's chain pointer names the next row, with the
/// invalid identifier closing the chain; and no track reference repeats.
pub open spec fn ordered_list(rows: Seq<PlaylistEntity>, list_id: PlaylistId) -> bool {
    &&& forall|i: int| 0 <= i < rows.len() ==> (#[trigger] rows[i]).list_id == list_id
    &&& forall|i: int|
        0 <= i < rows.len() ==> (#[trigger] rows[i]).membership_reference
            >= MIN_MEMBERSHIP_REFERENCE
    &&& forall|i: int, j: int|
        0 <= i < j < rows.len() ==> (#[trigger] rows[i]).membership_reference < (
        #[trigger] rows[j]).membership_reference
    &&& forall|i: int, j: int|
        0 <= i && j == i + 1 && j < rows.len() ==> (#[trigger] rows[i]).next_entity_id == (
        #[trigger] rows[j]).id
    &&& (rows.len() > 0 ==> rows.last().next_entity_id.raw == 0)
    &&& forall|i: int, j: int|
        0 <= i < j < rows.len() ==> (#[trigger] rows[i]).spec_track_ref() != (
        #[trigger] rows[j]).spec_track_ref()
}

/// Row identifiers are valid, unique, and below the next fresh identifier.
pub open spec fn list_ids_ok(rows: Seq<PlaylistEntity>, next_rowid: int) -> bool {
    &&& forall|i: int| 0 <= i < rows.len() ==> 0 < (#[trigger] rows[i]).id.raw < next_rowid
    &&& forall|i: int, j: int|
        0 <= i < j < rows.len() ==> (#[trigger] rows[i]).id.raw != (#[trigger] rows[j]).id.raw
}

/// A structurally sound membership list of one playlist: ordered, with
/// sound row identifiers.
pub open spec fn valid_list(rows: Seq<PlaylistEntity>, list_id: PlaylistId, next_rowid: int) -> bool {
    ordered_list(rows, list_id) && list_ids_ok(rows, next_rowid)
}

/// The rows of one playlist, in table order.
pub open spec fn list_rows(rows: Seq<PlaylistEntity>, list_id: PlaylistId) -> Seq<PlaylistEntity>
    decreases rows.len(),
{
    if rows.len() == 0 {
        Seq::empty()
    } else if rows.last().list_id == list_id {
        list_rows(rows.drop_last(), list_id).push(rows.last())
    } else {
        list_rows(rows.drop_last(), list_id)
    }
}

/// The rows of all other playlists, in table order.
pub open spec fn other_rows(rows: Seq<PlaylistEntity>, list_id: PlaylistId) -> Seq<PlaylistEntity>
    decreases rows.len(),
{
    if rows.len() == 0 {
        Seq::empty()
    } else if rows.last().list_id == list_id {
        other_rows(rows.drop_last(), list_id)
    } else {
        other_rows(rows.drop_last(), list_id).push(rows.last())
    }
}

/// Both halves of the split: their sizes add up, and each row of a half
/// belongs to it and occurs in the table.
pub proof fn lemma_split_rows_facts(rows: Seq<PlaylistEntity>, list_id: PlaylistId)
    ensures
        list_rows(rows, list_id).len() + other_rows(rows, list_id).len() == rows.len(),
        forall|k: int|
            0 <= k < list_rows(rows, list_id).len() ==> (#[trigger] list_rows(rows, list_id)[k]).list_id
                == list_id && (exists|i: int|
                0 <= i < rows.len() && list_rows(rows, list_id)[k] == rows[i]),
        forall|k: int|
            0 <= k < other_rows(rows, list_id).len() ==> (#[trigger] other_rows(rows, list_id)[k]).list_id
                != list_id && (exists|i: int|
                0 <= i < rows.len() && other_rows(rows, list_id)[k] == rows[i]),
    decreases rows.len(),
{
    if rows.len() > 0 {
        lemma_split_rows_facts(rows.drop_last(), list_id);
        assert(forall|i: int| 0 <= i < rows.len() - 1 ==> rows.drop_last()[i] == rows[i]);
    }
}

/// Sound row identifiers carry over to both halves of the split.
pub proof fn lemma_split_rows_ids(rows: Seq<PlaylistEntity>, list_id: PlaylistId, next_rowid: int)
    requires
        list_ids_ok(rows, next_rowid),
    ensures
        list_ids_ok(list_rows(rows, list_id), next_rowid),
        list_ids_ok(other_rows(rows, list_id), next_rowid),
    decreases rows.len(),
{
    if rows.len() > 0 {
        let dl = rows.drop_last();
        assert(forall|i: int| 0 <= i < dl.len() ==> dl[i] == rows[i]);
        assert(list_ids_ok(dl, next_rowid));
        lemma_split_rows_ids(dl, list_id, next_rowid);
        lemma_split_rows_facts(dl, list_id);
        let last = rows.last();
        assert(forall|i: int| 0 <= i < dl.len() ==> (#[trigger] dl[i]).id.raw != last.id.raw);
        if last.list_id == list_id {
            let sub = list_rows(dl, list_id);
            assert forall|k: int| 0 <= k < sub.len() implies (#[trigger] sub[k]).id.raw
                != last.id.raw by {
                let i = choose|i: int| 0 <= i < dl.len() && sub[k] == dl[i];
                assert(dl[i].id.raw != last.id.raw);
            }
            assert(list_ids_ok(sub.push(last), next_rowid));
        } else {
            let sub = other_rows(dl, list_id);
            assert forall|k: int| 0 <= k < sub.len() implies (#[trigger] sub[k]).id.raw
                != last.id.raw by {
                let i = choose|i: int| 0 <= i < dl.len() && sub[k] == dl[i];
                assert(dl[i].id.raw != last.id.raw);
            }
            assert(list_ids_ok(sub.push(last), next_rowid));
        }
    }
}

/// Splitting off one playlist leaves every other playlist's rows as they
/// are.
pub proof fn lemma_list_rows_of_other(
    rows: Seq<PlaylistEntity>,
    split_id: PlaylistId,
    list_id: PlaylistId,
)
    requires
        list_id != split_id,
    ensures
        list_rows(other_rows(rows, split_id), list_id) == list_rows(rows, list_id),
    decreases rows.len(),
{
    if rows.len() > 0 {
        let dl = rows.drop_last();
        lemma_list_rows_of_other(dl, split_id, list_id);
        let last = rows.last();
        if last.list_id == split_id {
        } else {
            let sub = other_rows(dl, split_id).push(last);
            assert(sub.drop_last() =~= other_rows(dl, split_id));
            assert(sub.last() == last);
        }
    }
}

/// Concatenated tables split piecewise.
pub proof fn lemma_list_rows_append(
    a: Seq<PlaylistEntity>,
    b: Seq<PlaylistEntity>,
    list_id: PlaylistId,
)
    ensures
        list_rows(a + b, list_id) == list_rows(a, list_id) + list_rows(b, list_id),
        other_rows(a + b, list_id) == other_rows(a, list_id) + other_rows(b, list_id),
    decreases b.len(),
{
    if b.len() == 0 {
        assert(a + b =~= a);
        assert(list_rows(a, list_id) + list_rows(b, list_id) =~= list_rows(a, list_id));
        assert(other_rows(a, list_id) + other_rows(b, list_id) =~= other_rows(a, list_id));
    } else {
        assert((a + b).drop_last() =~= a + b.drop_last());
        assert((a + b).last() == b.last());
        lemma_list_rows_append(a, b.drop_last(), list_id);
        if b.last().list_id == list_id {
            assert((list_rows(a, list_id) + list_rows(b.drop_last(), list_id)).push(b.last())
                =~= list_rows(a, list_id) + list_rows(b, list_id));
        } else {
            assert((other_rows(a, list_id) + other_rows(b.drop_last(), list_id)).push(b.last())
                =~= other_rows(a, list_id) + other_rows(b, list_id));
        }
    }
}

/// A table whose rows all belong to one playlist splits trivially.
pub proof fn lemma_list_rows_homogeneous(rows: Seq<PlaylistEntity>, list_id: PlaylistId)
    requires
        forall|i: int| 0 <= i < rows.len() ==> (#[trigger] rows[i]).list_id == list_id,
    ensures
        list_rows(rows, list_id) == rows,
        forall|l: PlaylistId|
            l != list_id ==> #[trigger] list_rows(rows, l) == Seq::<PlaylistEntity>::empty(),
        other_rows(rows, list_id) == Seq::<PlaylistEntity>::empty(),
    decreases rows.len(),
{
    if rows.len() == 0 {
    } else {
        let dl = rows.drop_last();
        assert(forall|i: int| 0 <= i < dl.len() ==> dl[i] == rows[i]);
        lemma_list_rows_homogeneous(dl, list_id);
        assert(list_rows(rows, list_id) =~= rows);
        assert forall|l: PlaylistId| l != list_id implies #[trigger] list_rows(rows, l) == Seq::<
            PlaylistEntity,
        >::empty() by {
            assert(rows.last().list_id == list_id);
            assert(list_rows(rows, l) == list_rows(dl, l));
        }
    }
}

/// A playlist that owns no row of the table has no rows in the split.
pub proof fn lemma_list_rows_absent(rows: Seq<PlaylistEntity>, list_id: PlaylistId)
    requires
        forall|i: int| 0 <= i < rows.len() ==> (#[trigger] rows[i]).list_id != list_id,
    ensures
        list_rows(rows, list_id) == Seq::<PlaylistEntity>::empty(),
    decreases rows.len(),
{
    if rows.len() > 0 {
        let dl = rows.drop_last();
        assert(forall|i: int| 0 <= i < dl.len() ==> dl[i] == rows[i]);
        lemma_list_rows_absent(dl, list_id);
    }
}

/// Neighbouring rows are ordered by their ordering key.
pub open spec fn adjacent_sorted(rows: Seq<PlaylistEntity>) -> bool {
    forall|i: int, j: int|
        0 <= i && j == i + 1 && j < rows.len() ==> (#[trigger] rows[i]).membership_reference < (
        #[trigger] rows[j]).membership_reference
}

proof fn lemma_adjacent_sorted_pair(rows: Seq<PlaylistEntity>, a: int, b: int)
    requires
        adjacent_sorted(rows),
        0 <= a < b < rows.len(),
    ensures
        rows[a].membership_reference < rows[b].membership_reference,
    decreases b - a,
{
    if b > a + 1 {
        lemma_adjacent_sorted_pair(rows, a, b - 1);
    }
}

/// Neighbourwise order gives pairwise order.
pub proof fn lemma_adjacent_sorted_pairwise(rows: Seq<PlaylistEntity>)
    requires
        adjacent_sorted(rows),
    ensures
        forall|i: int, j: int|
            0 <= i < j < rows.len() ==> (#[trigger] rows[i]).membership_reference < (
            #[trigger] rows[j]).membership_reference,
{
    assert forall|i: int, j: int| 0 <= i < j < rows.len() implies (
    #[trigger] rows[i]).membership_reference < (#[trigger] rows[j]).membership_reference by {
        lemma_adjacent_sorted_pair(rows, i, j);
    }
}

/// Splits a membership table into the rows of one playlist and the rest.
pub(crate) fn partition_list_rows(entities: &Vec<PlaylistEntity>, list_id: PlaylistId) -> (r: (
    Vec<PlaylistEntity>,
    Vec<PlaylistEntity>,
))
    ensures
        r.0@ == list_rows(entities@, list_id),
        r.1@ == other_rows(entities@, list_id),
{
    let mut mine: Vec<PlaylistEntity> = Vec::new();
    let mut others: Vec<PlaylistEntity> = Vec::new();
    let mut i: usize = 0;
    while i < entities.len()
        invariant
            i <= entities@.len(),
            mine@ == list_rows(entities@.take(i as int), list_id),
            others@ == other_rows(entities@.take(i as int), list_id),
        decreases entities@.len() - i,
    {
        proof {
            assert(entities@.take(i + 1).drop_last() =~= entities@.take(i as int));
            assert(entities@.take(i + 1).last() == entities@[i as int]);
        }
        let e = entities[i];
        if e.list_id == list_id {
            proof {
                crate::ids::lemma_id_field_eq(e.list_id, list_id);
            }
            mine.push(e);
        } else {
            others.push(e);
        }
        i = i + 1;
    }
    proof {
        assert(entities@.take(entities@.len() as int) =~= entities@);
    }
    (mine, others)
}

/// The first index holding the greatest ordering key.
pub open spec fn first_max_index(rows: Seq<PlaylistEntity>) -> int
    decreases rows.len(),
{
    if rows.len() <= 1 {
        0
    } else {
        let p = first_max_index(rows.drop_last());
        if rows.last().membership_reference > rows[p].membership_reference {
            rows.len() - 1
        } else {
            p
        }
    }
}

proof fn lemma_sorted_first_max(rows: Seq<PlaylistEntity>)
    requires
        rows.len() > 0,
        forall|i: int, j: int|
            0 <= i < j < rows.len() ==> (#[trigger] rows[i]).membership_reference < (
            #[trigger] rows[j]).membership_reference,
    ensures
        first_max_index(rows) == rows.len() - 1,
    decreases rows.len(),
{
    if rows.len() > 1 {
        assert(forall|i: int, j: int|
            0 <= i < j < rows.drop_last().len() ==> (#[trigger] rows.drop_last()[i]).membership_reference < (
            #[trigger] rows.drop_last()[j]).membership_reference);
        lemma_sorted_first_max(rows.drop_last());
        assert(rows.drop_last()[rows.len() - 2] == rows[rows.len() - 2]);
        assert(rows.last().membership_reference > rows[rows.len() - 2].membership_reference);
    }
}

/// What loading the last entry of a playlist defensively yields: nothing
/// for an empty list; for a nonempty one, the first row holding the
/// greatest ordering key, provided its chain pointer is closed (else the
/// chain has a dangling tail) and the greatest key is unique (else the
/// last entry is ambiguous).
pub open spec fn spec_try_load_last(rows: Seq<PlaylistEntity>) -> Result<
    Option<PlaylistEntity>,
    LibraryError,
> {
    if rows.len() == 0 {
        Ok(None)
    } else {
        let m = first_max_index(rows);
        if rows[m].next_entity_id.raw > 0 {
            Err(LibraryError::DanglingTail)
        } else if exists|j: int|
            0 <= j < rows.len() && j != m && (#[trigger] rows[j]).membership_reference
                == rows[m].membership_reference {
            Err(LibraryError::AmbiguousLastEntry)
        } else {
            Ok(Some(rows[m]))
        }
    }
}

/// Loads the last entry of a playlist's membership rows.
///
/// Returns `Ok(None)` for an empty list. Validates the chain before
/// trusting it: fails with [`LibraryError::DanglingTail`] if the entry
/// holding the greatest ordering key still points at a successor, and
/// with [`LibraryError::AmbiguousLastEntry`] if the greatest ordering key
/// is not unique. Corruption is reported, never repaired.
pub fn try_load_last_of_list(rows: &Vec<PlaylistEntity>) -> (r: Result<
    Option<PlaylistEntity>,
    LibraryError,
>)
    ensures
        r == spec_try_load_last(rows@),
{
    if rows.len() == 0 {
        return Ok(None);
    }
    let mut best: usize = 0;
    let mut i: usize = 1;
    while i < rows.len()
        invariant
            rows@.len() > 0,
            best < i <= rows@.len(),
            best == first_max_index(rows@.take(i as int)),
        decreases rows@.len() - i,
    {
        proof {
            assert(rows@.take(i + 1).drop_last() =~= rows@.take(i as int));
            assert(rows@.take(i + 1).last() == rows@[i as int]);
            assert(rows@.take(i + 1)[best as int] == rows@[best as int]);
        }
        if rows[i].membership_reference > rows[best].membership_reference {
            best = i;
        }
        i = i + 1;
    }
    proof {
        assert(rows@.take(rows@.len() as int) =~= rows@);
    }
    let last_entity = rows[best];
    if last_entity.next_entity_id.is_valid() {
        return Err(LibraryError::DanglingTail);
    }
    let mut j: usize = 0;
    while j < rows.len()
        invariant
            best < rows@.len(),
            j <= rows@.len(),
            best == first_max_index(rows@),
            last_entity == rows@[best as int],
            last_entity.next_entity_id.raw <= 0,
            forall|k: int|
                0 <= k < j && k != best ==> (#[trigger] rows@[k]).membership_reference
                    != last_entity.membership_reference,
        decreases rows@.len() - j,
    {
        if j != best && rows[j].membership_reference == last_entity.membership_reference {
            return Err(LibraryError::AmbiguousLastEntry);
        }
        j = j + 1;
    }
    Ok(Some(last_entity))
}

/// One appending step: a reference already present is skipped.
pub open spec fn append_step(cur: Seq<PlaylistTrackRef>, r: PlaylistTrackRef) -> Seq<
    PlaylistTrackRef,
> {
    if cur.contains(r) {
        cur
    } else {
        cur.push(r)
    }
}

/// The membership after appending `refs` in order, skipping duplicates.
pub open spec fn appended_refs(cur: Seq<PlaylistTrackRef>, refs: Seq<PlaylistTrackRef>) -> Seq<
    PlaylistTrackRef,
>
    decreases refs.len(),
{
    if refs.len() == 0 {
        cur
    } else {
        append_step(appended_refs(cur, refs.drop_last()), refs.last())
    }
}

/// The duplicates skipped while appending `refs` in order.
pub open spec fn ignored_refs(cur: Seq<PlaylistTrackRef>, refs: Seq<PlaylistTrackRef>) -> Seq<
    PlaylistTrackRef,
>
    decreases refs.len(),
{
    if refs.len() == 0 {
        Seq::empty()
    } else if appended_refs(cur, refs.drop_last()).contains(refs.last()) {
        ignored_refs(cur, refs.drop_last()).push(refs.last())
    } else {
        ignored_refs(cur, refs.drop_last())
    }
}

proof fn lemma_append_take_step(cur: Seq<PlaylistTrackRef>, refs: Seq<PlaylistTrackRef>, k: int)
    requires
        0 <= k < refs.len(),
    ensures
        appended_refs(cur, refs.take(k + 1)) == append_step(
            appended_refs(cur, refs.take(k)),
            refs[k],
        ),
        ignored_refs(cur, refs.take(k + 1)) == if appended_refs(cur, refs.take(k)).contains(
            refs[k],
        ) {
            ignored_refs(cur, refs.take(k)).push(refs[k])
        } else {
            ignored_refs(cur, refs.take(k))
        },
{
    assert(refs.take(k + 1).drop_last() =~= refs.take(k));
    assert(refs.take(k + 1).last() == refs[k]);
}

/// Checks whether a membership list already holds a track reference.
fn list_contains_ref(rows: &Vec<PlaylistEntity>, r: &PlaylistTrackRef) -> (b: bool)
    ensures
        b == refs_of(rows@).contains(*r),
{
    let mut i: usize = 0;
    while i < rows.len()
        invariant
            i <= rows@.len(),
            forall|k: int| 0 <= k < i ==> refs_of(rows@)[k] != *r,
        decreases rows@.len() - i,
    {
        let row_ref = rows[i].track_ref();
        if row_ref == *r {
            proof {
                lemma_track_ref_field_eq(rows@[i as int].spec_track_ref(), *r);
                assert(refs_of(rows@)[i as int] == *r);
            }
            return true;
        }
        proof {
            assert(refs_of(rows@)[i as int] == rows@[i as int].spec_track_ref());
        }
        i = i + 1;
    }
    proof {
        assert(!refs_of(rows@).contains(*r)) by {
            if refs_of(rows@).contains(*r) {
                let k = choose|k: int|
                    0 <= k < refs_of(rows@).len() && refs_of(rows@)[k] == *r;
                assert(refs_of(rows@)[k] != *r);
            }
        }
    }
    false
}

/// Appends track references to a playlist's membership rows.
///
/// Each new reference becomes a fresh row at the end of the chain, with
/// the next ordering key and the previous tail patched to point at it;
/// a reference the playlist already holds is skipped and reported in the
/// returned list, not treated as a failure.
pub fn append_to_list(
    rows: &mut Vec<PlaylistEntity>,
    list_id: PlaylistId,
    refs: &Vec<PlaylistTrackRef>,
    next_rowid: &mut i64,
) -> (ignored: Vec<PlaylistTrackRef>)
    requires
        valid_list(old(rows)@, list_id, *old(next_rowid) as int),
        0 < *old(next_rowid),
        *old(next_rowid) + refs@.len() <= i64::MAX,
        last_membership_reference(old(rows)@) + refs@.len() <= i64::MAX,
    ensures
        refs_of(final(rows)@) == appended_refs(refs_of(old(rows)@), refs@),
        ignored@ == ignored_refs(refs_of(old(rows)@), refs@),
        valid_list(final(rows)@, list_id, *final(next_rowid) as int),
        *old(next_rowid) <= *final(next_rowid) <= *old(next_rowid) + refs@.len(),
        old(rows)@.len() <= final(rows)@.len() <= old(rows)@.len() + refs@.len(),
        forall|i: int|
            0 <= i < old(rows)@.len() ==> {
                &&& (#[trigger] final(rows)@[i]).id == old(rows)@[i].id
                &&& final(rows)@[i].membership_reference == old(rows)@[i].membership_reference
                &&& final(rows)@[i].spec_track_ref() == old(rows)@[i].spec_track_ref()
            },
        forall|i: int|
            old(rows)@.len() <= i < final(rows)@.len() ==> (#[trigger] final(rows)@[i]).id.raw
                >= *old(next_rowid),
        forall|i: int|
            old(rows)@.len() <= i < final(rows)@.len() ==> (
            #[trigger] final(rows)@[i]).membership_reference == last_membership_reference(
                old(rows)@,
            ) + (i - old(rows)@.len()) + 1,
        last_membership_reference(final(rows)@) <= last_membership_reference(old(rows)@)
            + refs@.len(),
{
    let ghost refs0 = refs_of(old(rows)@);
    let ghost n0 = old(rows)@.len() as int;
    let ghost last0 = last_membership_reference(old(rows)@);
    let ghost rowid0 = *old(next_rowid) as int;
    let mut ignored: Vec<PlaylistTrackRef> = Vec::new();
    let mut k: usize = 0;
    while k < refs.len()
        invariant
            k <= refs@.len(),
            refs0 == refs_of(old(rows)@),
            n0 == old(rows)@.len(),
            last0 == last_membership_reference(old(rows)@),
            rowid0 == *old(next_rowid) as int,
            0 < rowid0,
            rowid0 + refs@.len() <= i64::MAX,
            last0 + refs@.len() <= i64::MAX,
            valid_list(rows@, list_id, *next_rowid as int),
            refs_of(rows@) == appended_refs(refs0, refs@.take(k as int)),
            ignored@ == ignored_refs(refs0, refs@.take(k as int)),
            rowid0 <= *next_rowid as int <= rowid0 + k,
            n0 <= rows@.len() as int <= n0 + k,
            last_membership_reference(rows@) <= last0 + k,
            last_membership_reference(rows@) >= last0,
            forall|i: int|
                0 <= i < n0 ==> {
                    &&& (#[trigger] rows@[i]).id == old(rows)@[i].id
                    &&& rows@[i].membership_reference == old(rows)@[i].membership_reference
                    &&& rows@[i].spec_track_ref() == old(rows)@[i].spec_track_ref()
                },
            forall|i: int| n0 <= i < rows@.len() ==> (#[trigger] rows@[i]).id.raw >= rowid0,
            forall|i: int|
                n0 <= i < rows@.len() ==> (#[trigger] rows@[i]).membership_reference == last0 + (i
                    - n0) + 1,
        decreases refs@.len() - k,
    {
        proof {
            lemma_append_take_step(refs0, refs@, k as int);
        }
        let r = refs[k];
        if list_contains_ref(rows, &r) {
            ignored.push(r);
            proof {
                assert(ignored@ =~= ignored_refs(refs0, refs@.take(k + 1)));
            }
        } else {
            let ghost cur0 = rows@;
            let new_id_raw = *next_rowid;
            let next_ref: i64;
            if rows.len() == 0 {
                next_ref = MIN_MEMBERSHIP_REFERENCE;
            } else {
                let last_index = rows.len() - 1;
                next_ref = rows[last_index].membership_reference + 1;
                let tail = rows.pop();
                match tail {
                    Some(mut tail) => {
                        tail.next_entity_id = PlaylistEntityId::new(new_id_raw);
                        rows.push(tail);
                    },
                    None => {
                        proof {
                            assert(false);
                        }
                    },
                }
            }
            let new_row = PlaylistEntity {
                id: PlaylistEntityId::new(new_id_raw),
                list_id,
                track_id: r.track_id,
                database_uuid: r.database_uuid,
                next_entity_id: PlaylistEntityId::new(0),
                membership_reference: next_ref,
            };
            rows.push(new_row);
            *next_rowid = *next_rowid + 1;
            proof {
                let cur1 = rows@;
                let n = cur0.len() as int;
                assert(cur1.len() == n + 1);
                assert(cur1[n] == new_row);
                assert(forall|i: int| 0 <= i < n - 1 ==> cur1[i] == cur0[i]);
                if n > 0 {
                    assert(cur1[n - 1].id == cur0[n - 1].id);
                    assert(cur1[n - 1].membership_reference == cur0[n - 1].membership_reference);
                    assert(cur1[n - 1].spec_track_ref() == cur0[n - 1].spec_track_ref());
                    assert(cur1[n - 1].next_entity_id.raw == new_id_raw);
                    assert(cur1[n - 1].list_id == list_id);
                }
                assert(new_row.spec_track_ref() == r);
                // The appended reference is new to the membership.
                assert(!refs_of(cur0).contains(r));
                assert forall|i: int| 0 <= i < n implies (#[trigger] cur1[i]).spec_track_ref()
                    != new_row.spec_track_ref() by {
                    assert(refs_of(cur0)[i] == cur0[i].spec_track_ref());
                    if cur0[i].spec_track_ref() == r {
                        assert(refs_of(cur0).contains(r));
                    }
                }
                // The membership references stay strictly increasing.
                assert forall|i: int| 0 <= i < n implies (#[trigger] cur1[i]).membership_reference
                    < next_ref by {
                    if n > 0 && i < n - 1 {
                        assert(cur0[i].membership_reference < cur0[n - 1].membership_reference);
                    }
                }
                assert(valid_list(cur1, list_id, *next_rowid as int));
                assert(refs_of(cur1) =~= refs_of(cur0).push(r));
                assert(refs_of(rows@) == appended_refs(refs0, refs@.take(k + 1)));
                assert(last_membership_reference(rows@) == next_ref);
            }
        }
        k = k + 1;
    }
    proof {
        assert(refs@.take(refs@.len() as int) =~= refs@);
    }
    ignored
}

/// Appending pairwise distinct references that are all new to the
/// membership concatenates them, and nothing is skipped.
proof fn lemma_appended_no_dups(cur: Seq<PlaylistTrackRef>, s: Seq<PlaylistTrackRef>)
    requires
        forall|i: int, j: int| 0 <= i < j < s.len() ==> s[i] != s[j],
        forall|i: int| 0 <= i < s.len() ==> !cur.contains(#[trigger] s[i]),
    ensures
        appended_refs(cur, s) == cur + s,
        ignored_refs(cur, s) == Seq::<PlaylistTrackRef>::empty(),
    decreases s.len(),
{
    if s.len() == 0 {
        assert(cur + s =~= cur);
    } else {
        let dl = s.drop_last();
        assert(forall|i: int| 0 <= i < dl.len() ==> dl[i] == s[i]);
        lemma_appended_no_dups(cur, dl);
        let before = cur + dl;
        assert(!before.contains(s.last())) by {
            if before.contains(s.last()) {
                let w = choose|w: int| 0 <= w < before.len() && before[w] == s.last();
                if w < cur.len() {
                    assert(cur.contains(s[s.len() - 1]));
                } else {
                    assert(s[w - cur.len()] == s.last());
                }
            }
        }
        assert((cur + dl).push(s.last()) =~= cur + s);
    }
}

/// Makes a playlist's membership exactly equal to `refs`, reusing the
/// existing rows position by position.
///
/// Rows in reused positions keep their identity and ordering key and only
/// have their track reference overwritten where it changed. If the new
/// list is shorter, the chain is closed at the last reused row and the
/// surplus rows are deleted; if it is longer, the surplus references are
/// appended as by [`append_to_list`], continuing the ordering key
/// sequence. Since the new references are pairwise distinct, none is
/// skipped and the returned list of ignored duplicates is empty.
#[verifier::rlimit(100)]
pub fn replace_in_list(
    rows: &mut Vec<PlaylistEntity>,
    list_id: PlaylistId,
    refs: &Vec<PlaylistTrackRef>,
    next_rowid: &mut i64,
) -> (ignored: Vec<PlaylistTrackRef>)
    requires
        valid_list(old(rows)@, list_id, *old(next_rowid) as int),
        0 < *old(next_rowid),
        *old(next_rowid) + refs@.len() <= i64::MAX,
        last_membership_reference(old(rows)@) + refs@.len() <= i64::MAX,
        forall|i: int, j: int| 0 <= i < j < refs@.len() ==> refs@[i] != refs@[j],
    ensures
        refs_of(final(rows)@) == refs@,
        final(rows)@.len() == refs@.len(),
        ignored@ == Seq::<PlaylistTrackRef>::empty(),
        valid_list(final(rows)@, list_id, *final(next_rowid) as int),
        *old(next_rowid) <= *final(next_rowid) <= *old(next_rowid) + refs@.len(),
        forall|i: int|
            0 <= i < old(rows)@.len() && i < refs@.len() ==> {
                &&& (#[trigger] final(rows)@[i]).id == old(rows)@[i].id
                &&& final(rows)@[i].membership_reference == old(rows)@[i].membership_reference
            },
        forall|i: int|
            old(rows)@.len() <= i < final(rows)@.len() ==> (#[trigger] final(rows)@[i]).id.raw
                >= *old(next_rowid),
        forall|i: int|
            old(rows)@.len() <= i < final(rows)@.len() ==> (
            #[trigger] final(rows)@[i]).membership_reference == last_membership_reference(
                old(rows)@,
            ) + (i - old(rows)@.len()) + 1,
        last_membership_reference(final(rows)@) <= last_membership_reference(old(rows)@)
            + refs@.len(),
{
    let ghost n0 = old(rows)@.len() as int;
    let ghost rowid0 = *old(next_rowid) as int;
    let ghost last0 = last_membership_reference(old(rows)@);
    proof {
        if n0 > 0 {
            assert(old(rows)@[n0 - 1].membership_reference >= MIN_MEMBERSHIP_REFERENCE);
        }
    }
    let m = if rows.len() < refs.len() {
        rows.len()
    } else {
        refs.len()
    };
    // Overwrite the reused rows in place where their reference changed.
    let mut i: usize = 0;
    while i < m
        invariant
            n0 == old(rows)@.len(),
            rowid0 == *old(next_rowid) as int,
            valid_list(old(rows)@, list_id, rowid0),
            m <= n0,
            m <= refs@.len(),
            m == if n0 < refs@.len() {
                n0 as int
            } else {
                refs@.len() as int
            },
            i <= m,
            rows@.len() == n0,
            *next_rowid as int == rowid0,
            forall|j: int|
                0 <= j < n0 ==> {
                    &&& (#[trigger] rows@[j]).id == old(rows)@[j].id
                    &&& rows@[j].list_id == old(rows)@[j].list_id
                    &&& rows@[j].next_entity_id == old(rows)@[j].next_entity_id
                    &&& rows@[j].membership_reference == old(rows)@[j].membership_reference
                },
            forall|j: int| 0 <= j < i ==> (#[trigger] rows@[j]).spec_track_ref() == refs@[j],
            forall|j: int|
                i <= j < n0 ==> (#[trigger] rows@[j]).spec_track_ref()
                    == old(rows)@[j].spec_track_ref(),
        decreases m - i,
    {
        let row = rows[i];
        let row_ref = row.track_ref();
        let target = refs[i];
        if !(row_ref == target) {
            let mut updated = row;
            updated.track_id = target.track_id;
            updated.database_uuid = target.database_uuid;
            let ghost before = rows@;
            let _ = rows.remove(i);
            rows.insert(i, updated);
            proof {
                assert(rows@ =~= before.update(i as int, updated));
                assert(updated.spec_track_ref() == target);
            }
        } else {
            proof {
                lemma_track_ref_field_eq(rows@[i as int].spec_track_ref(), target);
            }
        }
        i = i + 1;
    }
    let ignored: Vec<PlaylistTrackRef> = Vec::new();
    if refs.len() <= rows.len() {
        // The new list is no longer than the old one: close the chain at
        // the last reused row and delete the surplus rows.
        if refs.len() == 0 {
            rows.clear();
            proof {
                assert(refs_of(rows@) =~= refs@);
            }
            return ignored;
        }
        let t = refs.len() - 1;
        let ghost before = rows@;
        let mut tail = rows[t];
        tail.next_entity_id = PlaylistEntityId::new(0);
        let _ = rows.remove(t);
        rows.insert(t, tail);
        rows.truncate(refs.len());
        proof {
            let cur = rows@;
            assert(cur =~= before.update(t as int, tail).take(refs@.len() as int));
            assert(forall|j: int| 0 <= j < t ==> cur[j] == before[j]);
            assert(cur[t as int] == tail);
            assert forall|a: int, b: int| 0 <= a < b < cur.len() implies (
            #[trigger] cur[a]).spec_track_ref() != (#[trigger] cur[b]).spec_track_ref() by {
                assert(cur[a].spec_track_ref() == refs@[a]);
                assert(cur[b].spec_track_ref() == refs@[b]);
            }
            assert(valid_list(cur, list_id, *next_rowid as int));
            assert(refs_of(cur) =~= refs@);
        }
        return ignored;
    }
    // The old rows are all reused: append the remaining references,
    // continuing the ordering key sequence.
    let ghost prefix = rows@;
    let mut suffix: Vec<PlaylistTrackRef> = Vec::new();
    let mut k = m;
    while k < refs.len()
        invariant
            m <= k <= refs@.len(),
            suffix@ == refs@.subrange(m as int, k as int),
        decreases refs@.len() - k,
    {
        suffix.push(refs[k]);
        proof {
            assert(suffix@ =~= refs@.subrange(m as int, k + 1));
        }
        k = k + 1;
    }
    proof {
        assert(m == rows@.len());
        assert forall|a: int, b: int| 0 <= a < b < rows@.len() implies (
        #[trigger] rows@[a]).spec_track_ref() != (#[trigger] rows@[b]).spec_track_ref() by {
            assert(rows@[a].spec_track_ref() == refs@[a]);
            assert(rows@[b].spec_track_ref() == refs@[b]);
        }
        assert(valid_list(rows@, list_id, *next_rowid as int));
        assert(refs_of(rows@) =~= refs@.take(m as int));
        assert(last_membership_reference(rows@) == last0);
    }
    let appended_ignored = append_to_list(rows, list_id, &suffix, next_rowid);
    proof {
        let pre = refs@.take(m as int);
        let suf = refs@.subrange(m as int, refs@.len() as int);
        assert forall|a: int| 0 <= a < suf.len() implies !pre.contains(#[trigger] suf[a]) by {
            if pre.contains(suf[a]) {
                let w = choose|w: int| 0 <= w < pre.len() && pre[w] == suf[a];
                assert(refs@[w] == refs@[m + a]);
            }
        }
        assert(forall|a: int, b: int| 0 <= a < b < suf.len() ==> suf[a] != suf[b]) by {
            assert(forall|a: int, b: int|
                0 <= a < b < suf.len() ==> suf[a] == refs@[m + a] && suf[b] == refs@[m + b]);
        }
        lemma_appended_no_dups(pre, suf);
        assert(pre + suf =~= refs@);
        assert(appended_ignored@ == Seq::<PlaylistTrackRef>::empty());
    }
    appended_ignored
}

/// A sound membership list has its last row as the unambiguous last entry.
#[verifier::rlimit(50)]
pub proof fn lemma_valid_list_last(rows: Seq<PlaylistEntity>, list_id: PlaylistId, next_rowid: int)
    requires
        valid_list(rows, list_id, next_rowid),
        rows.len() > 0,
    ensures
        spec_try_load_last(rows) == Ok::<_, LibraryError>(Some(rows.last())),
{
    lemma_sorted_first_max(rows);
    let m = first_max_index(rows);
    let n = rows.len() as int;
    assert(m == n - 1);
    assert(rows[m].next_entity_id.raw == 0);
    assert forall|j: int|
        0 <= j < n && j != m implies (#[trigger] rows[j]).membership_reference
        != rows[m].membership_reference by {
        assert(rows[j].membership_reference < rows[m].membership_reference);
    }
}

/// A row of the table that materializes, for each playlist, all its
/// transitive child playlists.
#[derive(Debug, Clone, Copy)]
pub struct PlaylistAllChildren {
    pub id: PlaylistAllChildrenId,
    pub child_list_id: PlaylistId,
}

/// A row of the table that materializes, for each playlist, all its
/// transitive parent playlists.
#[derive(Debug, Clone, Copy)]
pub struct PlaylistAllParent {
    pub id: PlaylistAllParentId,
    pub parent_list_id: PlaylistId,
}

/// A row of the table that materializes each playlist's path: the titles
/// along the parent chain, each terminated by the separator.
#[derive(Debug, Clone)]
pub struct PlaylistPath {
    pub id: i64,
    pub path: String,
    pub position: i64,
}

/// Separates the titles in a playlist path; also terminates the path.
pub const PLAYLIST_PATH_SEGMENT_SEPARATOR: &'static str = ";";

/// A playlist path segment: nonempty and free of separators.
pub open spec fn is_valid_segment_text(s: Seq<char>) -> bool {
    s.len() > 0 && (forall|i: int| 0 <= i < s.len() ==> s[i] != ';')
}

/// Checks that a title can stand as a playlist path segment: it is
/// nonempty and does not contain the separator.
pub fn is_valid_playlist_path_segment(segment: &str) -> (r: bool)
    ensures
        r == is_valid_segment_text(segment@),
{
    let n = segment.unicode_len();
    if n == 0 {
        return false;
    }
    let mut i: usize = 0;
    while i < n
        invariant
            n == segment@.len(),
            i <= n,
            forall|k: int| 0 <= k < i ==> segment@[k] != ';',
        decreases n - i,
    {
        if segment.get_char(i) == ';' {
            return false;
        }
        i = i + 1;
    }
    true
}

/// The segments each followed by a separator.
pub open spec fn joined_with_separators(segs: Seq<Seq<char>>) -> Seq<char>
    decreases segs.len(),
{
    if segs.len() == 0 {
        Seq::empty()
    } else {
        joined_with_separators(segs.drop_last()) + segs.last() + seq![';']
    }
}

/// The playlist path text of a list of segments: each segment followed by
/// the separator, and the bare separator for the empty list.
pub open spec fn playlist_path_text_of(segs: Seq<Seq<char>>) -> Seq<char> {
    if segs.len() == 0 {
        seq![';']
    } else {
        joined_with_separators(segs)
    }
}

/// Concatenates playlist path segments into a playlist path.
///
/// Every segment must be valid; see [`is_valid_playlist_path_segment`].
pub fn concat_playlist_path_segments_to_string(segments: &Vec<String>) -> (r: String)
    requires
        forall|i: int|
            0 <= i < segments.deep_view().len() ==> is_valid_segment_text(
                #[trigger] segments.deep_view()[i],
            ),
    ensures
        r@ == playlist_path_text_of(segments.deep_view()),
{
    let ghost dv = segments.deep_view();
    if segments.len() == 0 {
        let r = String::from_str(";");
        proof {
            reveal_strlit(";");
            assert(r@ =~= seq![';']);
        }
        return r;
    }
    let mut out = String::new();
    let mut j: usize = 0;
    while j < segments.len()
        invariant
            dv == segments.deep_view(),
            dv.len() == segments.len(),
            j <= segments.len(),
            out@ == joined_with_separators(dv.take(j as int)),
        decreases segments.len() - j,
    {
        proof {
            assert(dv.take(j + 1).drop_last() =~= dv.take(j as int));
            assert(dv.take(j + 1).last() == dv[j as int]);
        }
        out.append(segments[j].as_str());
        out.append(";");
        proof {
            reveal_strlit(";");
            assert(out@ =~= joined_with_separators(dv.take(j as int)) + dv[j as int] + seq![';']);
        }
        j = j + 1;
    }
    proof {
        assert(dv.take(dv.len() as int) =~= dv);
    }
    out
}

} // verus!
