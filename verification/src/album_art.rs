//! Album art rows.

use crate::ids::AlbumArtId;
use vstd::prelude::*;

verus! {

/// An album art row: a content hash and the encoded image bytes.
#[derive(Debug, Clone)]
pub struct AlbumArt {
    pub id: AlbumArtId,
    pub hash: Option<String>,
    pub image_data: Option<Vec<u8>>,
}

impl AlbumArt {
    /// Builds an album art row from its columns.
    pub fn new(id: AlbumArtId, hash: Option<String>, image_data: Option<Vec<u8>>) -> (r: AlbumArt)
        ensures
            r.id == id,
            r.hash == hash,
            r.image_data == image_data,
    {
        AlbumArt { id, hash, image_data }
    }

    pub fn id(&self) -> (r: AlbumArtId)
        ensures
            r == self.id,
    {
        self.id
    }

    pub fn hash(&self) -> (r: Option<&str>)
        ensures
            r is Some <==> self.hash is Some,
            r matches Some(s) ==> (self.hash matches Some(h) && s@ == h@),
    {
        match &self.hash {
            Some(hash) => Some(hash.as_str()),
            None => None,
        }
    }

    pub fn image_data(&self) -> (r: Option<&[u8]>)
        ensures
            r is Some <==> self.image_data is Some,
            r matches Some(d) ==> (self.image_data matches Some(v) && d@ == v@),
    {
        match &self.image_data {
            Some(image_data) => Some(image_data.as_slice()),
            None => None,
        }
    }
}

/// Target quality of re-encoded album art images.
#[derive(Debug, Clone, Copy, PartialEq, Eq, Structural, PartialOrd, Ord, Hash)]
pub enum AlbumArtImageQuality {
    Low,
    Medium,
    High,
}

} // verus!
