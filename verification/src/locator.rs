//! Finding the root of the hierarchy.
//!
//! A host shows its groups in one of three layouts below a base directory:
//! the old one alone, the unified one alone, or the old one with the unified
//! one in the directory `unified`. That directory exists in the third layout
//! only, and the file `cgroup.procs` lies in the base directory in the second
//! only, so two looks tell the layouts apart and give the directory of the
//! unified hierarchy.
//!
//! A pass may be restricted to the group of a given name. The name is looked
//! up without the separators at its start and its end, so that the names of
//! the groups below are joined as those below any other group; a name of
//! which nothing is left, such as the root's own, restricts nothing. The pass
//! finds no hierarchy where the group has no directory.
//!
//! The search looks at nothing itself: it asks, and is told.

use vstd::prelude::*;
use vstd::string::*;
use crate::host::HostView;
use crate::node::{text_view, CGroup, CGroupView};
use crate::paths::{join_path, root_name, root_name_string, spec_join_path};
use crate::text::{string_of, strip, to_chars, without_end, without_start, Padding};

verus! {

/// A question about a path.
#[derive(Clone, Debug)]
pub enum Probe {
    /// Is there a directory at this path?
    IsDir(String),
    /// Is there a file at this path?
    IsFile(String),
}

/// A question about a path, as a sequence of characters.
pub enum ProbeView {
    IsDir(Seq<char>),
    IsFile(Seq<char>),
}

impl View for Probe {
    type V = ProbeView;

    open spec fn view(&self) -> ProbeView {
        match *self {
            Probe::IsDir(path) => ProbeView::IsDir(path@),
            Probe::IsFile(path) => ProbeView::IsFile(path@),
        }
    }
}

impl HostView {
    /// The answer of this host to a question.
    pub open spec fn holds(self, probe: ProbeView) -> bool {
        match probe {
            ProbeView::IsDir(path) => self.is_dir(path),
            ProbeView::IsFile(path) => self.is_file(path),
        }
    }
}

/// The directory below the system's own in which the hierarchy is looked for.
pub open spec fn probing_base(sysfs_root: Seq<char>) -> Seq<char> {
    spec_join_path(sysfs_root, "fs/cgroup"@)
}

/// The directory of the unified hierarchy in the mixed layout.
pub open spec fn hybrid_root(base_dir: Seq<char>) -> Seq<char> {
    spec_join_path(base_dir, "unified"@)
}

/// The file that marks the unified layout.
pub open spec fn unified_marker(base_dir: Seq<char>) -> Seq<char> {
    spec_join_path(base_dir, "cgroup.procs"@)
}

/// The group to start from in the unified hierarchy at `root`, before it is
/// known whether the group `group`, if one is named, is there.
pub open spec fn start_group(root: Seq<char>, group: Option<Seq<char>>) -> CGroupView {
    match group {
        Some(name) => CGroupView { root: spec_join_path(root, name), name },
        None => CGroupView { root, name: root_name() },
    }
}

/// The group to start from in the unified hierarchy at `root` on the host
/// `h`: the hierarchy's root, or the group `group` if its directory is
/// there.
pub open spec fn restrict(h: HostView, root: Seq<char>, group: Option<Seq<char>>) -> Option<
    CGroupView,
> {
    let node = start_group(root, group);
    if group is None || h.is_dir(node.root) {
        Some(node)
    } else {
        None
    }
}

/// The name of the group that a pass is restricted to, as it is looked up:
/// without the separators at its ends, and `None` where nothing is left.
pub open spec fn spec_normal_group(group: Option<Seq<char>>) -> Option<Seq<char>> {
    match group {
        Some(name) => if strip(name, Padding::Separator).len() == 0 {
            None
        } else {
            Some(strip(name, Padding::Separator))
        },
        None => None,
    }
}

/// The group that a collection pass starts from on the host `h`, or `None`
/// where the host has no unified hierarchy below `base_dir` or lacks the
/// group that the pass is restricted to.
pub open spec fn locate(h: HostView, base_dir: Seq<char>, group: Option<Seq<char>>) -> Option<
    CGroupView,
> {
    locate_group(h, base_dir, spec_normal_group(group))
}

/// The group that a collection pass starts from on the host `h`, for the
/// name of a group as it is looked up.
pub open spec fn locate_group(h: HostView, base_dir: Seq<char>, group: Option<Seq<char>>) -> Option<
    CGroupView,
> {
    if h.is_dir(hybrid_root(base_dir)) {
        restrict(h, hybrid_root(base_dir), group)
    } else if h.is_file(unified_marker(base_dir)) {
        restrict(h, base_dir, group)
    } else {
        None
    }
}

/// A search for the root of the hierarchy, by what it has yet to learn.
#[derive(Clone, Debug)]
pub enum RootSearch {
    /// Whether the host has the mixed layout.
    Hybrid { base_dir: String, group: Option<String> },
    /// Whether the host has the unified layout.
    Unified { base_dir: String, group: Option<String> },
    /// Whether the group that the pass is restricted to is there.
    Subtree { node: CGroup },
    /// Nothing: the pass starts from this group.
    Found { node: CGroup },
    /// Nothing: there is no hierarchy to collect from.
    Unsupported,
}

/// A search, with paths and names as sequences of characters.
pub enum SearchView {
    Hybrid { base_dir: Seq<char>, group: Option<Seq<char>> },
    Unified { base_dir: Seq<char>, group: Option<Seq<char>> },
    Subtree { node: CGroupView },
    Found { node: CGroupView },
    Unsupported,
}

impl View for RootSearch {
    type V = SearchView;

    open spec fn view(&self) -> SearchView {
        match *self {
            RootSearch::Hybrid { base_dir, group } => SearchView::Hybrid {
                base_dir: base_dir@,
                group: text_view(group),
            },
            RootSearch::Unified { base_dir, group } => SearchView::Unified {
                base_dir: base_dir@,
                group: text_view(group),
            },
            RootSearch::Subtree { node } => SearchView::Subtree { node: node@ },
            RootSearch::Found { node } => SearchView::Found { node: node@ },
            RootSearch::Unsupported => SearchView::Unsupported,
        }
    }
}

impl SearchView {
    /// The search for the hierarchy below `base_dir`, restricted to `group`
    /// if one is named.
    pub open spec fn start(base_dir: Seq<char>, group: Option<Seq<char>>) -> SearchView {
        SearchView::Hybrid { base_dir, group: spec_normal_group(group) }
    }

    /// The search once the unified hierarchy is known to lie at `root`.
    pub open spec fn rooted(root: Seq<char>, group: Option<Seq<char>>) -> SearchView {
        if group is Some {
            SearchView::Subtree { node: start_group(root, group) }
        } else {
            SearchView::Found { node: start_group(root, group) }
        }
    }

    /// What the search asks next, or `None` when it has ended.
    pub open spec fn question(self) -> Option<ProbeView> {
        match self {
            SearchView::Hybrid { base_dir, .. } => Some(ProbeView::IsDir(hybrid_root(base_dir))),
            SearchView::Unified { base_dir, .. } => Some(
                ProbeView::IsFile(unified_marker(base_dir)),
            ),
            SearchView::Subtree { node } => Some(ProbeView::IsDir(node.root)),
            SearchView::Found { .. } => None,
            SearchView::Unsupported => None,
        }
    }

    /// The search after the answer `yes` to its question. A search that has
    /// ended stays as it is.
    pub open spec fn step(self, yes: bool) -> SearchView {
        match self {
            SearchView::Hybrid { base_dir, group } => if yes {
                Self::rooted(hybrid_root(base_dir), group)
            } else {
                SearchView::Unified { base_dir, group }
            },
            SearchView::Unified { base_dir, group } => if yes {
                Self::rooted(base_dir, group)
            } else {
                SearchView::Unsupported
            },
            SearchView::Subtree { node } => if yes {
                SearchView::Found { node }
            } else {
                SearchView::Unsupported
            },
            SearchView::Found { node } => self,
            SearchView::Unsupported => self,
        }
    }

    /// What a search that has ended has found.
    pub open spec fn found(self) -> Option<CGroupView> {
        match self {
            SearchView::Found { node } => Some(node),
            _ => None,
        }
    }

    /// What the search ends with when every answer from here on is the one
    /// that the host `h` gives.
    pub open spec fn outcome_on(self, h: HostView) -> Option<CGroupView> {
        match self {
            SearchView::Hybrid { base_dir, group } => locate_group(h, base_dir, group),
            SearchView::Unified { base_dir, group } => if h.is_file(unified_marker(base_dir)) {
                restrict(h, base_dir, group)
            } else {
                None
            },
            SearchView::Subtree { node } => if h.is_dir(node.root) {
                Some(node)
            } else {
                None
            },
            SearchView::Found { node } => Some(node),
            SearchView::Unsupported => None,
        }
    }
}

/// The search once the unified hierarchy is known to lie at `root`.
fn rooted(root: String, group: Option<String>) -> (s: RootSearch)
    ensures
        s@ == SearchView::rooted(root@, text_view(group)),
{
    match group {
        Some(name) => {
            let path = join_path(root.as_str(), name.as_str());
            RootSearch::Subtree { node: CGroup { root: path, name } }
        },
        None => RootSearch::Found { node: CGroup { root, name: root_name_string() } },
    }
}

/// The name of the group that a pass is restricted to, as it is looked up.
pub fn normal_group(group: Option<String>) -> (plain: Option<String>)
    ensures
        text_view(plain) == spec_normal_group(text_view(group)),
{
    match group {
        Some(name) => {
            let chars = to_chars(name.as_str());
            let plain = without_end(
                without_start(chars.as_slice(), Padding::Separator),
                Padding::Separator,
            );
            if plain.len() == 0 {
                None
            } else {
                Some(string_of(plain))
            }
        },
        None => None,
    }
}

impl RootSearch {
    /// The search for the hierarchy of the host whose system directory is
    /// `sysfs_root`, restricted to the group `base_group` if one is named.
    pub fn new(sysfs_root: &str, base_group: Option<String>) -> (s: RootSearch)
        ensures
            s@ == SearchView::start(probing_base(sysfs_root@), text_view(base_group)),
            forall|h: HostView| #[trigger]
                s@.outcome_on(h) == locate(h, probing_base(sysfs_root@), text_view(base_group)),
    {
        RootSearch::Hybrid {
            base_dir: join_path(sysfs_root, "fs/cgroup"),
            group: normal_group(base_group),
        }
    }

    /// What the search asks next, or `None` when it has ended.
    pub fn probe(&self) -> (p: Option<Probe>)
        ensures
            match p {
                Some(probe) => self@.question() == Some(probe@),
                None => self@.question() is None,
            },
    {
        match self {
            RootSearch::Hybrid { base_dir, .. } => Some(
                Probe::IsDir(join_path(base_dir.as_str(), "unified")),
            ),
            RootSearch::Unified { base_dir, .. } => Some(
                Probe::IsFile(join_path(base_dir.as_str(), "cgroup.procs")),
            ),
            RootSearch::Subtree { node } => Some(Probe::IsDir(node.root.clone())),
            RootSearch::Found { .. } => None,
            RootSearch::Unsupported => None,
        }
    }

    /// The search after the answer `yes` to its question.
    pub fn answer(self, yes: bool) -> (s: RootSearch)
        ensures
            s@ == self@.step(yes),
            forall|h: HostView|
                self@.question() matches Some(q) && yes == h.holds(q) ==> s@.outcome_on(h)
                    == #[trigger] self@.outcome_on(h),
    {
        match self {
            RootSearch::Hybrid { base_dir, group } => if yes {
                rooted(join_path(base_dir.as_str(), "unified"), group)
            } else {
                RootSearch::Unified { base_dir, group }
            },
            RootSearch::Unified { base_dir, group } => if yes {
                rooted(base_dir, group)
            } else {
                RootSearch::Unsupported
            },
            RootSearch::Subtree { node } => if yes {
                RootSearch::Found { node }
            } else {
                RootSearch::Unsupported
            },
            RootSearch::Found { node } => RootSearch::Found { node },
            RootSearch::Unsupported => RootSearch::Unsupported,
        }
    }

    /// The group to start the pass from, once the search has ended; `None`
    /// where there is no hierarchy to collect from, and while the search is
    /// still asking.
    pub fn root(self) -> (r: Option<CGroup>)
        ensures
            match r {
                Some(node) => self@.found() == Some(node@),
                None => self@.found() is None,
            },
            self@.question() is None ==> forall|h: HostView|
                self@.found() == #[trigger] self@.outcome_on(h),
    {
        match self {
            RootSearch::Found { node } => Some(node),
            _ => None,
        }
    }
}

/// An answer that the host gives keeps what the search will end with.
pub proof fn lemma_answer_keeps_outcome(s: SearchView, h: HostView, yes: bool)
    requires
        s.question() matches Some(q) && yes == h.holds(q),
    ensures
        s.step(yes).outcome_on(h) == s.outcome_on(h),
{
}

/// A search that has ended has found what it set out for.
pub proof fn lemma_ended_search(s: SearchView, h: HostView)
    requires
        s.question() is None,
    ensures
        s.found() == s.outcome_on(h),
{
}

} // verus!
