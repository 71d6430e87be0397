//! The rule document of a smart list, as a standalone shape.

use vstd::prelude::*;

verus! {

/// A rule set document.
///
/// The serialized outer key names the match mode; that key is a reserved
/// word, so the field carries a plain name here.
#[derive(Debug, Clone, PartialEq, Eq)]
pub struct Rules {
    pub match_mode: RulesMatch,
    pub rules: Vec<RulesItem>,
    pub rv: u32,
}

/// One rule of a rule set document.
#[derive(Debug, Clone, PartialEq, Eq)]
pub struct RulesItem {
    pub col: String,
    pub con: String,
    pub param: String,
    pub v: String,
}

/// Whether one matching rule suffices or all must match.
#[derive(Debug, Clone, Copy, PartialEq, Eq, Structural)]
pub enum RulesMatch {
    One,
    All,
}

} // verus!
