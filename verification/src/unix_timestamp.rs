//! Timestamps as the schema stores them.

use vstd::prelude::*;

verus! {

/// UNIX timestamp.
///
/// Encoded as integer seconds since the epoch origin.
#[derive(Debug, Clone, Copy, PartialEq, Eq, Structural, PartialOrd, Ord, Hash)]
pub struct UnixTimestamp {
    pub seconds_since_epoch_origin: i64,
}

} // verus!
