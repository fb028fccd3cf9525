//! What a collection pass is told to collect.

use vstd::prelude::*;
use crate::filter::{FilterList, FilterView};

verus! {

/// The settings of a collection pass; they stay as they are throughout it.
#[derive(Debug)]
pub struct CgroupsConfig {
    levels: usize,
    base: Option<String>,
    groups: FilterList,
}

/// The settings, with names and patterns as sequences of characters.
pub struct ConfigView {
    pub levels: nat,
    pub base: Option<Seq<char>>,
    pub groups: FilterView,
}

impl View for CgroupsConfig {
    type V = ConfigView;

    closed spec fn view(&self) -> ConfigView {
        ConfigView {
            levels: self.levels as nat,
            base: match self.base {
                Some(b) => Some(b@),
                None => None,
            },
            groups: self.groups@,
        }
    }
}

impl Default for CgroupsConfig {
    /// Three levels of the whole hierarchy, every group.
    fn default() -> (c: Self)
        ensures
            c@.levels == 3,
            c@.base is None,
            c@.groups.includes is None,
            c@.groups.excludes is None,
    {
        CgroupsConfig { levels: 3, base: None, groups: FilterList::default() }
    }
}

impl CgroupsConfig {
    #[verifier::type_invariant]
    spec fn positive_levels(self) -> bool {
        self.levels >= 1
    }

    /// Settings for `levels` levels below and including the group to start
    /// from. `levels` counts from one: there are no settings for zero levels.
    pub fn new(levels: usize, base: Option<String>, groups: FilterList) -> (c: Option<Self>)
        ensures
            c is Some <==> levels >= 1,
            c matches Some(cfg) ==> cfg@ == (ConfigView {
                levels: levels as nat,
                base: match base {
                    Some(b) => Some(b@),
                    None => None,
                },
                groups: groups@,
            }),
    {
        if levels >= 1 {
            Some(CgroupsConfig { levels, base, groups })
        } else {
            None
        }
    }

    /// How deep the pass goes; the group it starts from is at depth one.
    pub fn levels(&self) -> (l: usize)
        ensures
            l == self@.levels,
            l >= 1,
    {
        proof {
            use_type_invariant(self);
        }
        self.levels
    }

    /// The name of the group to start from, if it is not the hierarchy's root.
    pub fn base(&self) -> (b: &Option<String>)
        ensures
            match *b {
                Some(s) => self@.base == Some(s@),
                None => self@.base is None,
            },
    {
        &self.base
    }

    /// Which groups below the first the pass takes.
    pub fn groups(&self) -> (g: &FilterList)
        ensures
            g@ == self@.groups,
    {
        &self.groups
    }
}

} // verus!
