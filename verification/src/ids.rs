//! Strongly typed row identifiers.
//!
//! Every table keys its rows by a signed 64-bit integer. A single generic
//! wrapper, parameterized by the entity kind it refers to, keeps the
//! identifiers of different tables from being mixed up.

use core::marker::PhantomData;
use vstd::prelude::*;

verus! {

/// Row identifier of the table selected by `Kind`.
///
/// All identifiers stored in a table are strictly positive. The value `0`
/// stands for "absent": some columns use it instead of `NULL`.
#[derive(Debug)]
pub struct Id<Kind> {
    pub raw: i64,
    pub kind: PhantomData<Kind>,
}

impl<Kind> Clone for Id<Kind> {
    fn clone(&self) -> (r: Self)
        ensures
            r == *self,
    {
        *self
    }
}

impl<Kind> Copy for Id<Kind> {

}

impl<Kind> Id<Kind> {
    /// Wraps a raw column value.
    pub fn new(raw: i64) -> (r: Self)
        ensures
            r.raw == raw,
    {
        Id { raw, kind: PhantomData }
    }

    /// The reserved "absent" value that some columns store instead of `NULL`.
    pub fn invalid_zero() -> (r: Self)
        ensures
            r.raw == 0,
    {
        Id { raw: 0, kind: PhantomData }
    }

    /// Exclusive lower bound of the invalid range; never occurs in a table.
    pub fn invalid_min_exclusive() -> (r: Self)
        ensures
            r.raw == -1,
    {
        Id { raw: -1, kind: PhantomData }
    }

    pub open spec fn spec_is_valid(self) -> bool {
        self.raw > 0
    }

    /// Checks that the identifier refers to a row, i.e. is strictly positive.
    #[verifier::when_used_as_spec(spec_is_valid)]
    pub fn is_valid(self) -> (r: bool)
        ensures
            r == self.spec_is_valid(),
    {
        self.raw > 0
    }
}

impl<Kind> PartialEq for Id<Kind> {
    fn eq(&self, other: &Self) -> (r: bool) {
        self.raw == other.raw
    }
}

impl<Kind> vstd::std_specs::cmp::PartialEqSpecImpl for Id<Kind> {
    open spec fn obeys_eq_spec() -> bool {
        true
    }

    open spec fn eq_spec(&self, other: &Self) -> bool {
        self.raw == other.raw
    }
}

impl<Kind> Eq for Id<Kind> {

}

/// Two identifiers of one kind with the same raw value are the same
/// identifier.
pub proof fn lemma_id_field_eq<Kind>(a: Id<Kind>, b: Id<Kind>)
    requires
        a.raw == b.raw,
    ensures
        a == b,
{
}

impl<Kind> Default for Id<Kind> {
    /// The default is the "absent" value, as for the columns themselves.
    fn default() -> (r: Self)
        ensures
            r.raw == 0,
    {
        Id { raw: 0, kind: PhantomData }
    }
}

/// Entity kind of [`TrackId`].
#[derive(Debug, Clone, Copy)]
pub struct TrackKind {}

/// Entity kind of [`PlaylistId`].
#[derive(Debug, Clone, Copy)]
pub struct PlaylistKind {}

/// Entity kind of [`PlaylistEntityId`].
#[derive(Debug, Clone, Copy)]
pub struct PlaylistEntityKind {}

/// Entity kind of [`PlaylistAllChildrenId`].
#[derive(Debug, Clone, Copy)]
pub struct PlaylistAllChildrenKind {}

/// Entity kind of [`PlaylistAllParentId`].
#[derive(Debug, Clone, Copy)]
pub struct PlaylistAllParentKind {}

/// Entity kind of [`PlaylistPathId`].
#[derive(Debug, Clone, Copy)]
pub struct PlaylistPathKind {}

/// Entity kind of [`InformationId`].
#[derive(Debug, Clone, Copy)]
pub struct InformationKind {}

/// Entity kind of [`AlbumArtId`].
#[derive(Debug, Clone, Copy)]
pub struct AlbumArtKind {}

/// Entity kind of [`HistorylistId`].
#[derive(Debug, Clone, Copy)]
pub struct HistorylistKind {}

/// Entity kind of [`HistorylistEntityId`].
#[derive(Debug, Clone, Copy)]
pub struct HistorylistEntityKind {}

/// Entity kind of [`PreparelistEntryId`].
#[derive(Debug, Clone, Copy)]
pub struct PreparelistEntryKind {}

/// Entity kind of [`PerformanceDataId`].
#[derive(Debug, Clone, Copy)]
pub struct PerformanceDataKind {}

/// Entity kind of [`ChangeLogId`].
#[derive(Debug, Clone, Copy)]
pub struct ChangeLogKind {}

/// Entity kind of [`PackId`].
#[derive(Debug, Clone, Copy)]
pub struct PackKind {}

pub type TrackId = Id<TrackKind>;

pub type PlaylistId = Id<PlaylistKind>;

pub type PlaylistEntityId = Id<PlaylistEntityKind>;

pub type PlaylistAllChildrenId = Id<PlaylistAllChildrenKind>;

pub type PlaylistAllParentId = Id<PlaylistAllParentKind>;

pub type PlaylistPathId = Id<PlaylistPathKind>;

pub type InformationId = Id<InformationKind>;

pub type AlbumArtId = Id<AlbumArtKind>;

pub type HistorylistId = Id<HistorylistKind>;

pub type HistorylistEntityId = Id<HistorylistEntityKind>;

pub type PreparelistEntryId = Id<PreparelistEntryKind>;

pub type PerformanceDataId = Id<PerformanceDataKind>;

pub type ChangeLogId = Id<ChangeLogKind>;

pub type PackId = Id<PackKind>;

} // verus!
