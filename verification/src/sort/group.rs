use vstd::prelude::*;

use crate::model::{Dimension, Mark};

verus! {

/// The key of one group: which dimension it belongs to and its value.
#[derive(Clone, Debug)]
pub enum GroupKey {
    Mark(String),
    Language(String),
    Path(String),
    Folder(String),
}

impl GroupKey {
    /// The key's text.
    pub open spec fn key_seq(&self) -> Seq<char> {
        match self {
            GroupKey::Mark(s) => s@,
            GroupKey::Language(s) => s@,
            GroupKey::Path(s) => s@,
            GroupKey::Folder(s) => s@,
        }
    }

    pub open spec fn spec_dimension(&self) -> Dimension {
        match self {
            GroupKey::Mark(_) => Dimension::Mark,
            GroupKey::Language(_) => Dimension::Language,
            GroupKey::Path(_) => Dimension::Path,
            GroupKey::Folder(_) => Dimension::Folder,
        }
    }

    /// The key's text.
    pub fn text(&self) -> (r: &str)
        ensures
            r@ == self.key_seq(),
    {
        match self {
            GroupKey::Mark(s) => s.as_str(),
            GroupKey::Language(s) => s.as_str(),
            GroupKey::Path(s) => s.as_str(),
            GroupKey::Folder(s) => s.as_str(),
        }
    }
}

/// One group of marks sharing a key, in input order.
#[derive(Debug)]
pub struct Group {
    pub key: GroupKey,
    pub items: Vec<Mark>,
}

/// The key texts of a list of groups, in order.
pub open spec fn group_keys_v(gs: Seq<Group>) -> Seq<Seq<char>> {
    gs.map_values(|g: Group| g.key.key_seq())
}

} // verus!
