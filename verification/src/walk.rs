//! The walk through the hierarchy: depth first, a group before the groups
//! below it, those in the order of the group's listing.
//!
//! The walk reads nothing itself. It says what is to be read for the group that
//! is next, takes up what was read, and goes on to the group after that, until
//! none is left. A group is at depth one where the walk starts with it, and one
//! deeper than the group above it otherwise; below the configured number of
//! levels nothing is listed and so nothing is reached.

use vstd::prelude::*;
use crate::config::{CgroupsConfig, ConfigView};
use crate::filter::FilterView;
use crate::host::HostView;
use crate::node::{
    cgroups_view, collect_node, group_view, node_failures, node_samples, strings_view, text_view,
    CGroup, CGroupView, Failure, LoadError, NodeReadings, ReadingsView, Statistic,
};
use crate::pass::{
    lemma_done_outcome, lemma_start_outcome, lemma_step_keeps_outcome, subtree_samples,
};
use crate::sample::{samples_view, Sample, SampleView, Timestamp};
use crate::visits::{lemma_start_visits, lemma_step_keeps_visits, subtree_groups};

verus! {

/// What is to be read for one group: the paths of its statistics files, and
/// the directory to list for the groups below it. The root's memory files are
/// not read, and a group at the last level is not listed.
#[derive(Clone, Debug)]
pub struct NodeRequest {
    pub cpu_stat: String,
    pub memory_current: Option<String>,
    pub memory_stat: Option<String>,
    pub children: Option<String>,
}

/// A request, with its paths as sequences of characters.
pub struct RequestView {
    pub cpu_stat: Seq<char>,
    pub memory_current: Option<Seq<char>>,
    pub memory_stat: Option<Seq<char>>,
    pub children: Option<Seq<char>>,
}

impl View for NodeRequest {
    type V = RequestView;

    open spec fn view(&self) -> RequestView {
        RequestView {
            cpu_stat: self.cpu_stat@,
            memory_current: text_view(self.memory_current),
            memory_stat: text_view(self.memory_stat),
            children: text_view(self.children),
        }
    }
}

/// What is to be read for `node` at depth `depth` of a walk of `levels`
/// levels.
pub open spec fn request_for(node: CGroupView, depth: nat, levels: nat) -> RequestView {
    RequestView {
        cpu_stat: node.cpu_stat_path(),
        memory_current: if node.is_root() {
            None
        } else {
            Some(node.memory_current_path())
        },
        memory_stat: if node.is_root() {
            None
        } else {
            Some(node.memory_stat_path())
        },
        children: if depth < levels {
            Some(node.root)
        } else {
            None
        },
    }
}

/// A group that the walk has yet to visit, and its depth.
#[derive(Clone, Debug)]
pub struct Pending {
    pub node: CGroup,
    pub depth: usize,
}

/// A group and its depth in the walk.
pub struct PendingView {
    pub node: CGroupView,
    pub depth: nat,
}

impl View for Pending {
    type V = PendingView;

    open spec fn view(&self) -> PendingView {
        PendingView { node: self.node@, depth: self.depth as nat }
    }
}

/// The views of a run of pending groups.
pub open spec fn pending_view(stack: Seq<Pending>) -> Seq<PendingView> {
    stack.map_values(|p: Pending| p@)
}

/// The groups below `parent` that the walk will visit, as they are put on the
/// stack: those of `entries` whose name `groups` lets through, the first of
/// them last, so that it is the next to be visited.
pub open spec fn pushed(
    groups: FilterView,
    parent: CGroupView,
    entries: Seq<Seq<char>>,
    depth: nat,
) -> Seq<PendingView>
    decreases entries.len(),
{
    if entries.len() == 0 {
        Seq::empty()
    } else {
        let later = pushed(groups, parent, entries.drop_first(), depth);
        let child = parent.child(entries[0]);
        if groups.contains(child.name) {
            later.push(PendingView { node: child, depth })
        } else {
            later
        }
    }
}

/// The state of a walk.
pub struct WalkView {
    pub config: ConfigView,
    pub timestamp: Timestamp,
    /// The groups yet to visit; the last is the next.
    pub pending: Seq<PendingView>,
    /// The samples collected so far.
    pub samples: Seq<SampleView>,
    /// The groups visited so far, in the order of their visits.
    pub visited: Seq<PendingView>,
}

impl WalkView {
    /// The walk before its first visit: it starts with `root` at depth one, or
    /// has nothing to visit where there is no hierarchy.
    pub open spec fn start(config: ConfigView, root: Option<CGroupView>, at: Timestamp) -> WalkView {
        WalkView {
            config,
            timestamp: at,
            pending: match root {
                Some(node) => seq![PendingView { node, depth: 1 }],
                None => Seq::empty(),
            },
            samples: Seq::empty(),
            visited: Seq::empty(),
        }
    }

    /// Whether no group is left to visit.
    pub open spec fn done(self) -> bool {
        self.pending.len() == 0
    }

    /// The group to visit next.
    pub open spec fn next(self) -> PendingView
        recommends
            !self.done(),
    {
        self.pending.last()
    }

    /// What is to be read for the group to visit next.
    pub open spec fn request(self) -> RequestView
        recommends
            !self.done(),
    {
        request_for(self.next().node, self.next().depth, self.config.levels)
    }

    /// The groups that the visit of the next group adds to those yet to
    /// visit, given what was read for it.
    pub open spec fn discovered(self, readings: ReadingsView) -> Seq<PendingView>
        recommends
            !self.done(),
    {
        let top = self.next();
        if top.depth < self.config.levels {
            match readings.children {
                Some(entries) => pushed(self.config.groups, top.node, entries, top.depth + 1),
                None => Seq::empty(),
            }
        } else {
            Seq::empty()
        }
    }

    /// The walk after the visit of its next group, given what was read for
    /// it. A walk that is done stays as it is.
    pub open spec fn step(self, readings: ReadingsView) -> WalkView {
        if self.done() {
            self
        } else {
            let top = self.next();
            WalkView {
                config: self.config,
                timestamp: self.timestamp,
                pending: self.pending.drop_last() + self.discovered(readings),
                samples: self.samples + node_samples(top.node, self.timestamp, readings),
                visited: self.visited.push(top),
            }
        }
    }

    /// Whether the walk is as its visits keep it: at least one level is
    /// configured, and every group visited or yet to visit is one that the
    /// walk may visit.
    pub open spec fn wf(self) -> bool {
        &&& self.config.levels >= 1
        &&& forall|i: int|
            0 <= i < self.pending.len() ==> self.admits(#[trigger] self.pending[i])
        &&& forall|i: int|
            0 <= i < self.visited.len() ==> self.admits(#[trigger] self.visited[i])
    }

    /// Whether the walk may visit `group`: its depth is from one to the
    /// number of levels, and below the first level the configured filter lets
    /// its name through.
    pub open spec fn admits(self, group: PendingView) -> bool {
        &&& 1 <= group.depth <= self.config.levels
        &&& group.depth > 1 ==> self.config.groups.contains(group.node.name)
    }

    /// What of the next group could not be had, given what was read for it:
    /// its statistics, then its listing.
    pub open spec fn step_failures(self, readings: ReadingsView) -> Seq<Failure> {
        if self.done() {
            Seq::empty()
        } else {
            let top = self.next();
            node_failures(top.node, readings) + if top.depth < self.config.levels
                && readings.children is None {
                seq![Failure { statistic: Statistic::Children, error: LoadError::Filesystem }]
            } else {
                Seq::empty()
            }
        }
    }
}

/// A walk through the hierarchy.
pub struct Walk {
    config: CgroupsConfig,
    timestamp: Timestamp,
    stack: Vec<Pending>,
    output: Vec<Sample>,
    visited: Ghost<Seq<PendingView>>,
}

impl View for Walk {
    type V = WalkView;

    closed spec fn view(&self) -> WalkView {
        WalkView {
            config: self.config@,
            timestamp: self.timestamp,
            pending: pending_view(self.stack@),
            samples: samples_view(self.output@),
            visited: self.visited@,
        }
    }
}

impl Walk {
    /// A walk that starts with `root`, if there is one, and stamps its
    /// samples with `timestamp`.
    pub fn new(config: CgroupsConfig, root: Option<CGroup>, timestamp: Timestamp) -> (w: Walk)
        ensures
            w@ == WalkView::start(
                config@,
                group_view(root),
                timestamp,
            ),
            w@.wf(),
            forall|h: HostView| #[trigger]
                w@.outcome_on(h) == match root {
                    Some(node) => subtree_samples(h, config@, timestamp, node@, 1),
                    None => Seq::empty(),
                },
            forall|h: HostView| #[trigger]
                w@.visits_on(h) == match root {
                    Some(node) => subtree_groups(h, config@, node@, 1),
                    None => Seq::empty(),
                },
    {
        // The settings hold one level or more, so the walk starts within its
        // bounds.
        let _levels = config.levels();
        proof {
            let start = WalkView::start(config@, group_view(root), timestamp);
            assert forall|h: HostView| #[trigger]
                start.outcome_on(h) == match root {
                    Some(node) => subtree_samples(h, config@, timestamp, node@, 1),
                    None => Seq::empty(),
                } by {
                lemma_start_outcome(h, config@, group_view(root), timestamp);
            }
            assert forall|h: HostView| #[trigger]
                start.visits_on(h) == match root {
                    Some(node) => subtree_groups(h, config@, node@, 1),
                    None => Seq::empty(),
                } by {
                lemma_start_visits(h, config@, group_view(root), timestamp);
            }
        }
        let mut stack: Vec<Pending> = Vec::new();
        match root {
            Some(node) => {
                stack.push(Pending { node, depth: 1 });
            },
            None => {},
        }
        let w = Walk { config, timestamp, stack, output: Vec::new(), visited: Ghost(Seq::empty()) };
        assert(w@.pending =~= WalkView::start(
            config@,
            group_view(root),
            timestamp,
        ).pending);
        assert(w@.samples =~= Seq::empty());
        assert(w@.visited =~= Seq::empty());
        w
    }

    /// Whether no group is left to visit.
    pub fn is_done(&self) -> (b: bool)
        ensures
            b == self@.done(),
    {
        self.stack.len() == 0
    }

    /// What is to be read for the group to visit next, or `None` when the
    /// walk is done.
    pub fn next_request(&self) -> (r: Option<NodeRequest>)
        ensures
            match r {
                Some(request) => !self@.done() && request@ == self@.request(),
                None => self@.done(),
            },
    {
        let n = self.stack.len();
        if n == 0 {
            return None;
        }
        let top = &self.stack[n - 1];
        assert(self@.next() == top@);
        let root = top.node.is_root();
        let list = top.depth < self.config.levels();
        Some(
            NodeRequest {
                cpu_stat: top.node.make_path("cpu.stat"),
                memory_current: if root {
                    None
                } else {
                    Some(top.node.make_path("memory.current"))
                },
                memory_stat: if root {
                    None
                } else {
                    Some(top.node.make_path("memory.stat"))
                },
                children: if list {
                    Some(top.node.root.clone())
                } else {
                    None
                },
            },
        )
    }

    /// Visits the next group with what was read for it: collects its samples,
    /// and puts the groups below it that the walk will visit before those
    /// that were left. Returns what could not be had. A walk that is done
    /// stays as it is.
    pub fn advance(&mut self, readings: NodeReadings) -> (failures: Vec<Failure>)
        ensures
            final(self)@ == old(self)@.step(readings@),
            failures@ == old(self)@.step_failures(readings@),
            old(self)@.wf() ==> final(self)@.wf(),
            forall|h: HostView| #[trigger]
                h.agrees(old(self)@.request(), readings@) ==> {
                    &&& final(self)@.outcome_on(h) == old(self)@.outcome_on(h)
                    &&& final(self)@.visits_on(h) == old(self)@.visits_on(h)
                },
    {
        proof {
            if self@.wf() {
                lemma_step_keeps_wf(self@, readings@);
            }
            assert forall|h: HostView| #[trigger]
                h.agrees(self@.request(), readings@) implies {
                &&& self@.step(readings@).outcome_on(h) == self@.outcome_on(h)
                &&& self@.step(readings@).visits_on(h) == self@.visits_on(h)
            } by {
                lemma_step_keeps_outcome(self@, h, readings@);
                lemma_step_keeps_visits(self@, h, readings@);
            }
        }
        let mut failures: Vec<Failure> = Vec::new();
        let ghost before = self@;
        let top = match self.stack.pop() {
            Some(top) => top,
            None => {
                return failures;
            },
        };
        assert(top@ == before.next());
        let ghost rest = pending_view(self.stack@);
        assert(rest =~= before.pending.drop_last());
        collect_node(&top.node, self.timestamp, &readings, &mut self.output, &mut failures);
        proof {
            self.visited@ = self.visited@.push(top@);
        }
        if top.depth < self.config.levels() {
            match &readings.children {
                None => {
                    failures.push(
                        Failure { statistic: Statistic::Children, error: LoadError::Filesystem },
                    );
                },
                Some(entries) => {
                    let ghost names = strings_view(entries@);
                    let ghost groups = self.config@.groups;
                    let depth = top.depth + 1;
                    // The last group of the listing goes on the stack first,
                    // so that the first is the next to be visited.
                    let mut children = top.node.children(entries);
                    let ghost all = cgroups_view(children@);
                    assert(all.len() == names.len());
                    assert(names.skip(names.len() as int) =~= Seq::empty());
                    assert(all.take(all.len() as int) =~= all);
                    while children.len() > 0
                        invariant
                            children@.len() <= names.len(),
                            all == top@.node.children(names),
                            cgroups_view(children@) == all.take(children@.len() as int),
                            groups == self.config@.groups,
                            self.config@ == before.config,
                            self.timestamp == before.timestamp,
                            self.visited@ == before.visited.push(top@),
                            samples_view(self.output@) == before.samples + node_samples(
                                top@.node,
                                before.timestamp,
                                readings@,
                            ),
                            pending_view(self.stack@) == rest + pushed(
                                groups,
                                top@.node,
                                names.skip(children@.len() as int),
                                depth as nat,
                            ),
                        decreases children@.len(),
                    {
                        let ghost stacked = pending_view(self.stack@);
                        let ghost listed = cgroups_view(children@);
                        let child = children.pop().unwrap();
                        let ghost i = children@.len() as int;
                        assert(child@ == listed[i]);
                        assert(child@ == top@.node.child(names[i]));
                        assert(cgroups_view(children@) =~= all.take(i));
                        assert(names.skip(i).drop_first() =~= names.skip(i + 1));
                        if self.config.groups().contains_path(child.name.as_str()) {
                            let ghost added = PendingView { node: child@, depth: depth as nat };
                            self.stack.push(Pending { node: child, depth });
                            assert(pending_view(self.stack@) =~= stacked.push(added));
                            assert(pending_view(self.stack@) =~= rest + pushed(
                                groups,
                                top@.node,
                                names.skip(i),
                                depth as nat,
                            ));
                        }
                    }
                    assert(names.skip(0) =~= names);
                },
            }
        } else {
            assert(pending_view(self.stack@) =~= rest + Seq::<PendingView>::empty());
        }
        assert(self@.pending =~= before.step(readings@).pending);
        failures
    }

    /// The samples collected.
    pub fn finish(self) -> (samples: Vec<Sample>)
        ensures
            samples_view(samples@) == self@.samples,
            self@.done() ==> forall|h: HostView|
                samples_view(samples@) == #[trigger] self@.outcome_on(h),
    {
        proof {
            if self@.done() {
                assert forall|h: HostView| self@.samples == #[trigger] self@.outcome_on(h) by {
                    lemma_done_outcome(self@, h);
                }
            }
        }
        self.output
    }
}

/// The groups put on the stack for a listing are at the depth given and
/// have names that the filter lets through.
proof fn lemma_pushed_are_let_through(
    groups: FilterView,
    parent: CGroupView,
    entries: Seq<Seq<char>>,
    depth: nat,
)
    ensures
        forall|i: int|
            0 <= i < pushed(groups, parent, entries, depth).len() ==> {
                &&& (#[trigger] pushed(groups, parent, entries, depth)[i]).depth == depth
                &&& groups.contains(pushed(groups, parent, entries, depth)[i].node.name)
            },
    decreases entries.len(),
{
    if entries.len() > 0 {
        let later = pushed(groups, parent, entries.drop_first(), depth);
        let all = pushed(groups, parent, entries, depth);
        lemma_pushed_are_let_through(groups, parent, entries.drop_first(), depth);
        assert forall|i: int| 0 <= i < all.len() implies {
            &&& (#[trigger] all[i]).depth == depth
            &&& groups.contains(all[i].node.name)
        } by {
            if i < later.len() {
                assert(all[i] == later[i]);
            }
        }
    }
}

/// A visit keeps the walk within its bounds: no group deeper than the
/// configured number of levels is ever visited or set aside for a visit, and
/// none below the first level whose name the filter does not let through.
pub proof fn lemma_step_keeps_wf(w: WalkView, readings: ReadingsView)
    requires
        w.wf(),
    ensures
        w.step(readings).wf(),
{
    if !w.done() {
        let top = w.next();
        let after = w.step(readings);
        let found = w.discovered(readings);
        if top.depth < w.config.levels && readings.children is Some {
            lemma_pushed_are_let_through(
                w.config.groups,
                top.node,
                readings.children->0,
                top.depth + 1,
            );
        }
        assert forall|i: int| 0 <= i < after.pending.len() implies after.admits(
            #[trigger] after.pending[i],
        ) by {
            if i < w.pending.len() - 1 {
                assert(after.pending[i] == w.pending[i]);
            } else {
                assert(after.pending[i] == found[i - (w.pending.len() - 1)]);
            }
        }
        assert forall|i: int| 0 <= i < after.visited.len() implies after.admits(
            #[trigger] after.visited[i],
        ) by {
            if i < w.visited.len() {
                assert(after.visited[i] == w.visited[i]);
            } else {
                assert(after.visited[i] == w.pending[w.pending.len() - 1]);
            }
        }
    }
}

/// No group at a depth beyond the configured number of levels is among those
/// that a walk has visited, nor among those that it asks to be read.
pub proof fn lemma_visits_within_levels(w: WalkView)
    requires
        w.wf(),
    ensures
        forall|i: int| 0 <= i < w.visited.len() ==> (#[trigger] w.visited[i]).depth <= w.config.levels,
        !w.done() ==> w.next().depth <= w.config.levels,
{
    assert forall|i: int| 0 <= i < w.visited.len() implies (#[trigger] w.visited[i]).depth
        <= w.config.levels by {
        assert(w.admits(w.visited[i]));
    }
    if !w.done() {
        assert(w.admits(w.pending[w.pending.len() - 1]));
    }
}

} // verus!
