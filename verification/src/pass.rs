//! What a collection pass returns on a given host, and that the walk returns
//! it.
//!
//! The samples of a group and of all that the walk reaches below it are
//! defined here over the host alone, group by group. The walk, fed with what
//! the host gives, collects exactly these.

use vstd::prelude::*;
use crate::config::ConfigView;
use crate::host::HostView;
use crate::locator::{locate, SearchView};
use crate::node::{
    cpu_samples, lemma_node_samples_share_instant_and_name, lemma_root_gives_cpu_only,
    memory_current_samples, memory_stat_samples, node_samples, CGroupView, ReadingsView,
};
use crate::paths::root_name;
use crate::sample::{SampleView, Timestamp};
use crate::walk::{pushed, request_for, PendingView, WalkView};

verus! {

/// The samples of `node`, which is at depth `depth`, and of the groups that a
/// pass reaches below it on the host `h`: its own, then those of the groups
/// directly below it, each with all below it, in the order of its listing.
/// Nothing below a group at the last level is reached, nor below one whose
/// directory cannot be listed.
pub open spec fn subtree_samples(
    h: HostView,
    cfg: ConfigView,
    at: Timestamp,
    node: CGroupView,
    depth: nat,
) -> Seq<SampleView>
    decreases cfg.levels - depth, 0nat,
{
    let readings = h.answer(request_for(node, depth, cfg.levels));
    node_samples(node, at, readings) + if depth < cfg.levels {
        match readings.children {
            Some(entries) => forest_samples(h, cfg, at, node, entries, depth + 1),
            None => Seq::empty(),
        }
    } else {
        Seq::empty()
    }
}

/// The samples of the groups below `parent` in the directories `entries`,
/// which are at depth `depth`, each with all that a pass reaches below it. A
/// group whose name the configured filter does not let through gives
/// nothing, whatever lies below it.
pub open spec fn forest_samples(
    h: HostView,
    cfg: ConfigView,
    at: Timestamp,
    parent: CGroupView,
    entries: Seq<Seq<char>>,
    depth: nat,
) -> Seq<SampleView>
    decreases cfg.levels - depth, 1 + entries.len(),
{
    if entries.len() == 0 || depth > cfg.levels {
        Seq::empty()
    } else {
        let child = parent.child(entries[0]);
        let first = if cfg.groups.contains(child.name) {
            subtree_samples(h, cfg, at, child, depth)
        } else {
            Seq::empty()
        };
        first + forest_samples(h, cfg, at, parent, entries.drop_first(), depth)
    }
}

/// The samples of the groups yet to visit, each with all that a pass reaches
/// below it, in the order of their visits: the last of `pending` first.
pub open spec fn drain_samples(
    h: HostView,
    cfg: ConfigView,
    at: Timestamp,
    pending: Seq<PendingView>,
) -> Seq<SampleView>
    decreases pending.len(),
{
    if pending.len() == 0 {
        Seq::empty()
    } else {
        subtree_samples(h, cfg, at, pending.last().node, pending.last().depth) + drain_samples(
            h,
            cfg,
            at,
            pending.drop_last(),
        )
    }
}

/// What a whole pass returns on the host `h`: the samples of the group it
/// starts from and of all it reaches below, or nothing where the host has no
/// hierarchy to collect from.
pub open spec fn pass_samples(h: HostView, cfg: ConfigView, at: Timestamp, base_dir: Seq<char>) -> Seq<
    SampleView,
> {
    match locate(h, base_dir, cfg.base) {
        Some(root) => subtree_samples(h, cfg, at, root, 1),
        None => Seq::empty(),
    }
}

impl WalkView {
    /// What the walk will have collected at its end when all that is read
    /// from here on is what the host `h` gives.
    pub open spec fn outcome_on(self, h: HostView) -> Seq<SampleView> {
        self.samples + drain_samples(h, self.config, self.timestamp, self.pending)
    }
}

/// The groups put on the stack for a listing give, drained, the samples of
/// the listing, before those of what was on the stack.
proof fn lemma_drain_pushed(
    h: HostView,
    cfg: ConfigView,
    at: Timestamp,
    rest: Seq<PendingView>,
    parent: CGroupView,
    entries: Seq<Seq<char>>,
    depth: nat,
)
    requires
        depth <= cfg.levels,
    ensures
        drain_samples(h, cfg, at, rest + pushed(cfg.groups, parent, entries, depth))
            == forest_samples(h, cfg, at, parent, entries, depth) + drain_samples(h, cfg, at, rest),
    decreases entries.len(),
{
    if entries.len() == 0 {
        assert(rest + pushed(cfg.groups, parent, entries, depth) =~= rest);
        assert(forest_samples(h, cfg, at, parent, entries, depth) + drain_samples(h, cfg, at, rest)
            =~= drain_samples(h, cfg, at, rest));
    } else {
        let later = entries.drop_first();
        let child = parent.child(entries[0]);
        let below = rest + pushed(cfg.groups, parent, later, depth);
        lemma_drain_pushed(h, cfg, at, rest, parent, later, depth);
        if cfg.groups.contains(child.name) {
            let top = PendingView { node: child, depth };
            let all = rest + pushed(cfg.groups, parent, entries, depth);
            assert(all =~= below.push(top));
            assert(all.drop_last() =~= below);
            assert(all.last() == top);
            assert(drain_samples(h, cfg, at, all) == subtree_samples(h, cfg, at, child, depth)
                + drain_samples(h, cfg, at, below));
            assert(drain_samples(h, cfg, at, all) =~= forest_samples(
                h,
                cfg,
                at,
                parent,
                entries,
                depth,
            ) + drain_samples(h, cfg, at, rest));
        } else {
            assert(forest_samples(h, cfg, at, parent, entries, depth) =~= forest_samples(
                h,
                cfg,
                at,
                parent,
                later,
                depth,
            ));
        }
    }
}

/// A walk that has not started will collect, on a host, the samples of the
/// group it starts from and of all that a pass reaches below it.
pub proof fn lemma_start_outcome(
    h: HostView,
    cfg: ConfigView,
    root: Option<CGroupView>,
    at: Timestamp,
)
    ensures
        WalkView::start(cfg, root, at).outcome_on(h) == match root {
            Some(node) => subtree_samples(h, cfg, at, node, 1),
            None => Seq::empty(),
        },
        cfg.levels >= 1 ==> WalkView::start(cfg, root, at).wf(),
{
    let w = WalkView::start(cfg, root, at);
    match root {
        Some(node) => {
            let none = Seq::<PendingView>::empty();
            assert(w.pending.drop_last() =~= none);
            assert(w.pending.last() == (PendingView { node, depth: 1 }));
            assert(drain_samples(h, cfg, at, none) =~= Seq::empty());
            assert(drain_samples(h, cfg, at, w.pending) =~= subtree_samples(h, cfg, at, node, 1));
            assert(w.outcome_on(h) =~= subtree_samples(h, cfg, at, node, 1));
        },
        None => {
            assert(w.outcome_on(h) =~= Seq::empty());
        },
    }
}

/// A visit with what the host gives keeps what the walk will have collected
/// at its end.
pub proof fn lemma_step_keeps_outcome(w: WalkView, h: HostView, readings: ReadingsView)
    requires
        w.done() || h.agrees(w.request(), readings),
    ensures
        w.step(readings).outcome_on(h) == w.outcome_on(h),
{
    if !w.done() {
        let cfg = w.config;
        let at = w.timestamp;
        let top = w.next();
        let rest = w.pending.drop_last();
        let given = h.answer(w.request());
        assert(node_samples(top.node, at, readings) == node_samples(top.node, at, given));
        let below = if top.depth < cfg.levels {
            match given.children {
                Some(entries) => forest_samples(h, cfg, at, top.node, entries, top.depth + 1),
                None => Seq::empty(),
            }
        } else {
            Seq::empty()
        };
        assert(subtree_samples(h, cfg, at, top.node, top.depth) == node_samples(
            top.node,
            at,
            given,
        ) + below);
        assert(drain_samples(h, cfg, at, w.step(readings).pending) == below + drain_samples(
            h,
            cfg,
            at,
            rest,
        )) by {
            if top.depth < cfg.levels && given.children is Some {
                lemma_drain_pushed(
                    h,
                    cfg,
                    at,
                    rest,
                    top.node,
                    given.children->0,
                    top.depth + 1,
                );
            } else {
                assert(w.step(readings).pending =~= rest);
                assert(below + drain_samples(h, cfg, at, rest) =~= drain_samples(h, cfg, at, rest));
            }
        }
        assert(w.step(readings).outcome_on(h) =~= w.outcome_on(h));
    }
}

/// A walk that is done has collected what it was going to collect.
pub proof fn lemma_done_outcome(w: WalkView, h: HostView)
    requires
        w.done(),
    ensures
        w.outcome_on(h) == w.samples,
{
    assert(w.outcome_on(h) =~= w.samples);
}

/// The samples of what a pass reaches below `node`, which is at depth
/// `depth`.
pub open spec fn below_samples(
    h: HostView,
    cfg: ConfigView,
    at: Timestamp,
    node: CGroupView,
    depth: nat,
) -> Seq<SampleView> {
    if depth < cfg.levels {
        match h.list(node.root) {
            Some(entries) => forest_samples(h, cfg, at, node, entries, depth + 1),
            None => Seq::empty(),
        }
    } else {
        Seq::empty()
    }
}

/// The samples of a group and all below it are the group's CPU counters,
/// its memory gauges unless it is the hierarchy's root, and the samples of
/// what a pass reaches below it; each part comes of its own file or listing
/// alone.
pub proof fn lemma_subtree_parts(
    h: HostView,
    cfg: ConfigView,
    at: Timestamp,
    node: CGroupView,
    depth: nat,
)
    ensures
        subtree_samples(h, cfg, at, node, depth) == cpu_samples(
            node.name,
            at,
            h.read(node.cpu_stat_path()),
        ) + if node.is_root() {
            Seq::empty()
        } else {
            memory_current_samples(node.name, at, h.read(node.memory_current_path()))
                + memory_stat_samples(node.name, at, h.read(node.memory_stat_path()))
        } + below_samples(h, cfg, at, node, depth),
{
}

/// Nothing is reached below a group at the last level: it is not even
/// listed.
pub proof fn lemma_nothing_below_last_level(
    h: HostView,
    cfg: ConfigView,
    at: Timestamp,
    node: CGroupView,
    depth: nat,
)
    requires
        depth >= cfg.levels,
    ensures
        request_for(node, depth, cfg.levels).children is None,
        subtree_samples(h, cfg, at, node, depth) == node_samples(
            node,
            at,
            h.answer(request_for(node, depth, cfg.levels)),
        ),
{
    let own = node_samples(node, at, h.answer(request_for(node, depth, cfg.levels)));
    assert(own + Seq::<SampleView>::empty() =~= own);
}

/// A group whose name the filter does not let through gives no samples,
/// neither its own nor those of any group below it: the samples of a listing
/// are those of the listing without it.
pub proof fn lemma_excluded_child_is_silent(
    h: HostView,
    cfg: ConfigView,
    at: Timestamp,
    parent: CGroupView,
    entries: Seq<Seq<char>>,
    depth: nat,
    k: int,
)
    requires
        0 <= k < entries.len(),
        !cfg.groups.contains(parent.child(entries[k]).name),
    ensures
        forest_samples(h, cfg, at, parent, entries, depth) == forest_samples(
            h,
            cfg,
            at,
            parent,
            entries.remove(k),
            depth,
        ),
        pushed(cfg.groups, parent, entries, depth) == pushed(
            cfg.groups,
            parent,
            entries.remove(k),
            depth,
        ),
    decreases k,
{
    if k == 0 {
        assert(entries.remove(0) =~= entries.drop_first());
        let rest = forest_samples(h, cfg, at, parent, entries.drop_first(), depth);
        assert(Seq::<SampleView>::empty() + rest =~= rest);
        if depth > cfg.levels {
            assert(rest =~= Seq::empty());
        }
    } else {
        assert(entries.remove(k)[0] == entries[0]);
        assert(entries.remove(k).drop_first() =~= entries.drop_first().remove(k - 1));
        assert(entries.drop_first()[k - 1] == entries[k]);
        lemma_excluded_child_is_silent(h, cfg, at, parent, entries.drop_first(), depth, k - 1);
    }
}

/// A group whose `memory.stat` cannot be read still gives its CPU counters
/// and the memory it has in use, and the groups below it give their samples.
pub proof fn lemma_failure_is_isolated(
    h: HostView,
    cfg: ConfigView,
    at: Timestamp,
    node: CGroupView,
    depth: nat,
)
    requires
        h.read(node.memory_stat_path()) is None,
    ensures
        subtree_samples(h, cfg, at, node, depth) == cpu_samples(
            node.name,
            at,
            h.read(node.cpu_stat_path()),
        ) + if node.is_root() {
            Seq::empty()
        } else {
            memory_current_samples(node.name, at, h.read(node.memory_current_path()))
        } + below_samples(h, cfg, at, node, depth),
{
    let unread = memory_stat_samples(node.name, at, h.read(node.memory_stat_path()));
    assert(unread =~= Seq::empty());
    let current = memory_current_samples(node.name, at, h.read(node.memory_current_path()));
    assert(current + unread =~= current);
    lemma_subtree_parts(h, cfg, at, node, depth);
}

/// A pass is a search for the group to start from, and a walk from the group
/// that the search ends with: what the two will end with on a host, taken
/// together, is what the pass returns on it.
pub proof fn lemma_pass_is_search_then_walk(
    h: HostView,
    cfg: ConfigView,
    at: Timestamp,
    base_dir: Seq<char>,
)
    ensures
        pass_samples(h, cfg, at, base_dir) == WalkView::start(
            cfg,
            SearchView::start(base_dir, cfg.base).outcome_on(h),
            at,
        ).outcome_on(h),
{
    lemma_start_outcome(h, cfg, locate(h, base_dir, cfg.base), at);
}

/// A host without a hierarchy gives no samples.
pub proof fn lemma_no_hierarchy_no_samples(
    h: HostView,
    cfg: ConfigView,
    at: Timestamp,
    base_dir: Seq<char>,
)
    requires
        locate(h, base_dir, cfg.base) is None,
    ensures
        pass_samples(h, cfg, at, base_dir) == Seq::<SampleView>::empty(),
        WalkView::start(cfg, None, at).done(),
        WalkView::start(cfg, None, at).samples == Seq::<SampleView>::empty(),
{
}

/// Whether every sample of `samples` carries the instant `at`.
pub open spec fn all_at(samples: Seq<SampleView>, at: Timestamp) -> bool {
    forall|i: int| 0 <= i < samples.len() ==> (#[trigger] samples[i]).timestamp == at
}

/// Every sample of a group and of all below it carries the instant of the
/// pass.
pub proof fn lemma_subtree_shares_instant(
    h: HostView,
    cfg: ConfigView,
    at: Timestamp,
    node: CGroupView,
    depth: nat,
)
    ensures
        all_at(subtree_samples(h, cfg, at, node, depth), at),
    decreases cfg.levels - depth, 0nat,
{
    let readings = h.answer(request_for(node, depth, cfg.levels));
    if depth < cfg.levels && readings.children is Some {
        lemma_forest_shares_instant(h, cfg, at, node, readings.children->0, depth + 1);
    }
}

/// Every sample of the groups of a listing and of all below them carries the
/// instant of the pass.
pub proof fn lemma_forest_shares_instant(
    h: HostView,
    cfg: ConfigView,
    at: Timestamp,
    parent: CGroupView,
    entries: Seq<Seq<char>>,
    depth: nat,
)
    ensures
        all_at(forest_samples(h, cfg, at, parent, entries, depth), at),
    decreases cfg.levels - depth, 1 + entries.len(),
{
    if entries.len() != 0 && depth <= cfg.levels {
        let child = parent.child(entries[0]);
        if cfg.groups.contains(child.name) {
            lemma_subtree_shares_instant(h, cfg, at, child, depth);
        }
        lemma_forest_shares_instant(h, cfg, at, parent, entries.drop_first(), depth);
    }
}

/// Every sample of a pass carries the one instant of the pass.
pub proof fn lemma_pass_shares_instant(
    h: HostView,
    cfg: ConfigView,
    at: Timestamp,
    base_dir: Seq<char>,
)
    ensures
        all_at(pass_samples(h, cfg, at, base_dir), at),
{
    match locate(h, base_dir, cfg.base) {
        Some(root) => {
            lemma_subtree_shares_instant(h, cfg, at, root, 1);
        },
        None => {},
    }
}

/// Whether every sample of `samples` that is tagged with the name of the
/// hierarchy's root is a CPU counter.
pub open spec fn root_gives_cpu_only(samples: Seq<SampleView>) -> bool {
    forall|i: int|
        0 <= i < samples.len() && (#[trigger] samples[i]).cgroup == root_name()
            ==> samples[i].name.is_cpu()
}

/// Among the samples of a group and of all below it, those tagged with the
/// name of the hierarchy's root are CPU counters: a group of that name gives
/// no memory gauge, wherever it stands.
pub proof fn lemma_subtree_root_has_no_memory_samples(
    h: HostView,
    cfg: ConfigView,
    at: Timestamp,
    node: CGroupView,
    depth: nat,
)
    ensures
        root_gives_cpu_only(subtree_samples(h, cfg, at, node, depth)),
    decreases cfg.levels - depth, 0nat,
{
    let readings = h.answer(request_for(node, depth, cfg.levels));
    if node.is_root() {
        lemma_root_gives_cpu_only(node, at, readings);
    } else {
        lemma_node_samples_share_instant_and_name(node, at, readings);
    }
    if depth < cfg.levels && readings.children is Some {
        lemma_forest_root_has_no_memory_samples(
            h,
            cfg,
            at,
            node,
            readings.children->0,
            depth + 1,
        );
    }
}

/// Among the samples of the groups of a listing and of all below them, those
/// tagged with the name of the hierarchy's root are CPU counters.
pub proof fn lemma_forest_root_has_no_memory_samples(
    h: HostView,
    cfg: ConfigView,
    at: Timestamp,
    parent: CGroupView,
    entries: Seq<Seq<char>>,
    depth: nat,
)
    ensures
        root_gives_cpu_only(forest_samples(h, cfg, at, parent, entries, depth)),
    decreases cfg.levels - depth, 1 + entries.len(),
{
    if entries.len() != 0 && depth <= cfg.levels {
        let child = parent.child(entries[0]);
        if cfg.groups.contains(child.name) {
            lemma_subtree_root_has_no_memory_samples(h, cfg, at, child, depth);
        }
        lemma_forest_root_has_no_memory_samples(h, cfg, at, parent, entries.drop_first(), depth);
    }
}

/// In the samples of a pass, on any host, those tagged with the name of the
/// hierarchy's root are CPU counters: the root gives no memory gauge.
pub proof fn lemma_root_has_no_memory_samples(
    h: HostView,
    cfg: ConfigView,
    at: Timestamp,
    base_dir: Seq<char>,
)
    ensures
        root_gives_cpu_only(pass_samples(h, cfg, at, base_dir)),
{
    match locate(h, base_dir, cfg.base) {
        Some(root) => {
            lemma_subtree_root_has_no_memory_samples(h, cfg, at, root, 1);
        },
        None => {},
    }
}

} // verus!
