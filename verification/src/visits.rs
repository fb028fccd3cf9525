//! The groups that a pass visits, and that it visits none of them twice.
//!
//! The samples of a pass are the samples of the groups it visits, group by
//! group in the order of the visits. On a host whose listings name each
//! directory once, and by a name that a directory can have, no two of these
//! groups lie at the same path: each is reported once.

use vstd::prelude::*;
use crate::config::ConfigView;
use crate::host::HostView;
use crate::locator::locate;
use crate::node::{node_samples, CGroupView, ReadingsView};
use crate::pass::{forest_samples, pass_samples, subtree_samples};
use crate::sample::{SampleView, Timestamp};
use crate::walk::{pushed, request_for, PendingView, WalkView};

verus! {

/// The groups that a pass visits from `node`, which is at depth `depth`, on
/// the host `h`: the group itself, then those below it that the pass
/// reaches, in the order of their visits.
pub open spec fn subtree_groups(h: HostView, cfg: ConfigView, node: CGroupView, depth: nat) -> Seq<
    CGroupView,
>
    decreases cfg.levels - depth, 0nat,
{
    seq![node] + if depth < cfg.levels {
        match h.list(node.root) {
            Some(entries) => forest_groups(h, cfg, node, entries, depth + 1),
            None => Seq::empty(),
        }
    } else {
        Seq::empty()
    }
}

/// The groups that a pass visits in and below the directories `entries` of
/// `parent`, which are at depth `depth`.
pub open spec fn forest_groups(
    h: HostView,
    cfg: ConfigView,
    parent: CGroupView,
    entries: Seq<Seq<char>>,
    depth: nat,
) -> Seq<CGroupView>
    decreases cfg.levels - depth, 1 + entries.len(),
{
    if entries.len() == 0 || depth > cfg.levels {
        Seq::empty()
    } else {
        let child = parent.child(entries[0]);
        let first = if cfg.groups.contains(child.name) {
            subtree_groups(h, cfg, child, depth)
        } else {
            Seq::empty()
        };
        first + forest_groups(h, cfg, parent, entries.drop_first(), depth)
    }
}

/// The groups that a whole pass visits on the host `h`.
pub open spec fn pass_groups(h: HostView, cfg: ConfigView, base_dir: Seq<char>) -> Seq<CGroupView> {
    match locate(h, base_dir, cfg.base) {
        Some(root) => subtree_groups(h, cfg, root, 1),
        None => Seq::empty(),
    }
}

/// The samples that `node` gives on the host `h`, whatever lies below it.
pub open spec fn own_samples(h: HostView, at: Timestamp, node: CGroupView) -> Seq<SampleView> {
    node_samples(node, at, h.answer(request_for(node, 0, 0)))
}

/// The samples that the groups `groups` give on the host `h`, group by
/// group.
pub open spec fn samples_of(h: HostView, at: Timestamp, groups: Seq<CGroupView>) -> Seq<SampleView>
    decreases groups.len(),
{
    if groups.len() == 0 {
        Seq::empty()
    } else {
        own_samples(h, at, groups[0]) + samples_of(h, at, groups.drop_first())
    }
}

proof fn lemma_samples_of_both(
    h: HostView,
    at: Timestamp,
    first: Seq<CGroupView>,
    second: Seq<CGroupView>,
)
    ensures
        samples_of(h, at, first + second) == samples_of(h, at, first) + samples_of(h, at, second),
    decreases first.len(),
{
    if first.len() == 0 {
        assert(first + second =~= second);
        assert(samples_of(h, at, first) + samples_of(h, at, second) =~= samples_of(h, at, second));
    } else {
        assert((first + second).drop_first() =~= first.drop_first() + second);
        assert((first + second)[0] == first[0]);
        lemma_samples_of_both(h, at, first.drop_first(), second);
        assert(samples_of(h, at, first + second) =~= samples_of(h, at, first) + samples_of(
            h,
            at,
            second,
        ));
    }
}

/// The samples of a group and of all below it are the samples of the groups
/// that the pass visits from it.
pub proof fn lemma_subtree_samples_by_group(
    h: HostView,
    cfg: ConfigView,
    at: Timestamp,
    node: CGroupView,
    depth: nat,
)
    ensures
        subtree_samples(h, cfg, at, node, depth) == samples_of(
            h,
            at,
            subtree_groups(h, cfg, node, depth),
        ),
    decreases cfg.levels - depth, 0nat,
{
    let below = if depth < cfg.levels {
        match h.list(node.root) {
            Some(entries) => forest_groups(h, cfg, node, entries, depth + 1),
            None => Seq::empty(),
        }
    } else {
        Seq::empty()
    };
    if depth < cfg.levels && h.list(node.root) is Some {
        lemma_forest_samples_by_group(h, cfg, at, node, h.list(node.root)->0, depth + 1);
    }
    let alone = seq![node];
    assert(alone.drop_first() =~= Seq::<CGroupView>::empty());
    assert(samples_of(h, at, alone.drop_first()) =~= Seq::<SampleView>::empty());
    assert(samples_of(h, at, alone) =~= own_samples(h, at, node));
    assert(samples_of(h, at, Seq::<CGroupView>::empty()) =~= Seq::<SampleView>::empty());
    lemma_samples_of_both(h, at, alone, below);
    assert(own_samples(h, at, node) == node_samples(
        node,
        at,
        h.answer(request_for(node, depth, cfg.levels)),
    ));
}

/// The samples of the groups of a listing and of all below them are the
/// samples of the groups that the pass visits there.
pub proof fn lemma_forest_samples_by_group(
    h: HostView,
    cfg: ConfigView,
    at: Timestamp,
    parent: CGroupView,
    entries: Seq<Seq<char>>,
    depth: nat,
)
    ensures
        forest_samples(h, cfg, at, parent, entries, depth) == samples_of(
            h,
            at,
            forest_groups(h, cfg, parent, entries, depth),
        ),
    decreases cfg.levels - depth, 1 + entries.len(),
{
    if entries.len() != 0 && depth <= cfg.levels {
        let child = parent.child(entries[0]);
        let first = if cfg.groups.contains(child.name) {
            subtree_groups(h, cfg, child, depth)
        } else {
            Seq::empty()
        };
        if cfg.groups.contains(child.name) {
            lemma_subtree_samples_by_group(h, cfg, at, child, depth);
        }
        lemma_forest_samples_by_group(h, cfg, at, parent, entries.drop_first(), depth);
        lemma_samples_of_both(
            h,
            at,
            first,
            forest_groups(h, cfg, parent, entries.drop_first(), depth),
        );
    }
}

/// Whether `entry` can name a directory: it is not empty and holds no
/// separator.
pub open spec fn plain_name(entry: Seq<char>) -> bool {
    &&& entry.len() > 0
    &&& forall|i: int| 0 <= i < entry.len() ==> entry[i] != '/'
}

/// Whether a listing names each directory once, and by a name that a
/// directory can have.
pub open spec fn sound_listing(entries: Seq<Seq<char>>) -> bool {
    &&& forall|i: int| 0 <= i < entries.len() ==> plain_name(#[trigger] entries[i])
    &&& forall|i: int, j: int|
        0 <= i < j < entries.len() ==> #[trigger] entries[i] != #[trigger] entries[j]
}

impl HostView {
    /// Whether every listing of the host is sound.
    pub open spec fn soundly_listed(self) -> bool {
        forall|dir: Seq<char>|
            self.listings.dom().contains(dir) ==> sound_listing(#[trigger] self.listings[dir])
    }
}

/// The path of the directory `entry` in the directory `dir`.
pub open spec fn entry_path(dir: Seq<char>, entry: Seq<char>) -> Seq<char> {
    dir + seq!['/'] + entry
}

/// Whether `path` is `dir` or lies below it.
pub open spec fn within(dir: Seq<char>, path: Seq<char>) -> bool {
    path == dir || below(dir, path)
}

/// Whether `path` lies below `dir`.
pub open spec fn below(dir: Seq<char>, path: Seq<char>) -> bool {
    &&& path.len() > dir.len()
    &&& path.take(dir.len() as int) == dir
    &&& path[dir.len() as int] == '/'
}

/// Whether the directories of all of `groups` are `dir` or lie below it.
pub open spec fn all_within(dir: Seq<char>, groups: Seq<CGroupView>) -> bool {
    forall|i: int| 0 <= i < groups.len() ==> within(dir, (#[trigger] groups[i]).root)
}

/// Whether none of the directories of `groups` is `dir` or lies below it.
pub open spec fn none_within(dir: Seq<char>, groups: Seq<CGroupView>) -> bool {
    forall|i: int| 0 <= i < groups.len() ==> !within(dir, (#[trigger] groups[i]).root)
}

/// Whether no two of `groups` have the same directory.
pub open spec fn distinct_roots(groups: Seq<CGroupView>) -> bool {
    forall|i: int, j: int|
        0 <= i < j < groups.len() ==> (#[trigger] groups[i]).root != (#[trigger] groups[j]).root
}

proof fn lemma_child_path(parent: CGroupView, entry: Seq<char>)
    requires
        plain_name(entry),
    ensures
        parent.child(entry).root == entry_path(parent.root, entry),
        below(parent.root, entry_path(parent.root, entry)),
{
    let path = entry_path(parent.root, entry);
    assert(entry[0] != '/');
    assert(entry != seq!['/']) by {
        if entry == seq!['/'] {
            assert(entry[0] == '/');
        }
    }
    assert(path.take(parent.root.len() as int) =~= parent.root);
    assert(path[parent.root.len() as int] == '/');
}

proof fn lemma_below_within(a: Seq<char>, b: Seq<char>, c: Seq<char>)
    requires
        below(a, b),
        within(b, c),
    ensures
        below(a, c),
{
    if c != b {
        assert(c.take(a.len() as int) =~= b.take(a.len() as int)) by {
            assert(c.take(b.len() as int) == b);
            assert forall|i: int| 0 <= i < a.len() implies c.take(a.len() as int)[i] == b.take(
                a.len() as int,
            )[i] by {
                assert(c.take(b.len() as int)[i] == c[i]);
            }
        }
        assert(c.take(b.len() as int)[a.len() as int] == c[a.len() as int]);
    }
}

/// Two directories of one directory that have different names have nothing
/// in common: no path is in or below both.
proof fn lemma_siblings_apart(dir: Seq<char>, one: Seq<char>, other: Seq<char>, path: Seq<char>)
    requires
        plain_name(one),
        plain_name(other),
        one != other,
        within(entry_path(dir, one), path),
    ensures
        !within(entry_path(dir, other), path),
{
    let a = entry_path(dir, one);
    let b = entry_path(dir, other);
    let n = dir.len() as int;
    if within(b, path) {
        assert(path.take(a.len() as int) =~= a) by {
            if path == a {
                assert(path.take(a.len() as int) =~= path);
            }
        }
        assert(path.take(b.len() as int) =~= b) by {
            if path == b {
                assert(path.take(b.len() as int) =~= path);
            }
        }
        if one.len() == other.len() {
            assert(a =~= b);
            assert(one =~= other) by {
                assert forall|i: int| 0 <= i < one.len() implies one[i] == other[i] by {
                    assert(a[n + 1 + i] == one[i]);
                    assert(b[n + 1 + i] == other[i]);
                }
            }
        } else if one.len() < other.len() {
            // The longer name holds a separator where the shorter ends.
            assert(path != a);
            assert(path[a.len() as int] == '/');
            assert(path.take(b.len() as int)[a.len() as int] == path[a.len() as int]);
            assert(b[a.len() as int] == other[one.len() as int]);
        } else {
            assert(path != b);
            assert(path[b.len() as int] == '/');
            assert(path.take(a.len() as int)[b.len() as int] == path[b.len() as int]);
            assert(a[b.len() as int] == one[other.len() as int]);
        }
    }
}

proof fn lemma_subtree_within(h: HostView, cfg: ConfigView, node: CGroupView, depth: nat)
    requires
        h.soundly_listed(),
    ensures
        all_within(node.root, subtree_groups(h, cfg, node, depth)),
        subtree_groups(h, cfg, node, depth).len() > 0,
        subtree_groups(h, cfg, node, depth)[0] == node,
        forall|i: int|
            0 < i < subtree_groups(h, cfg, node, depth).len() ==> below(
                node.root,
                (#[trigger] subtree_groups(h, cfg, node, depth)[i]).root,
            ),
    decreases cfg.levels - depth, 0nat,
{
    let all = subtree_groups(h, cfg, node, depth);
    let under = if depth < cfg.levels {
        match h.list(node.root) {
            Some(entries) => forest_groups(h, cfg, node, entries, depth + 1),
            None => Seq::empty(),
        }
    } else {
        Seq::empty()
    };
    if depth < cfg.levels && h.list(node.root) is Some {
        let entries = h.list(node.root)->0;
        assert(sound_listing(h.listings[node.root]));
        lemma_forest_below(h, cfg, node, entries, depth + 1);
    }
    assert(all == seq![node] + under);
    assert(all[0] == node);
    assert forall|i: int| 0 < i < all.len() implies below(node.root, (#[trigger] all[i]).root) by {
        assert(all[i] == under[i - 1]);
    }
    assert forall|i: int| 0 <= i < all.len() implies within(node.root, (#[trigger] all[i]).root) by {
        if i > 0 {
            assert(below(node.root, all[i].root));
        }
    }
}

proof fn lemma_forest_below(
    h: HostView,
    cfg: ConfigView,
    parent: CGroupView,
    entries: Seq<Seq<char>>,
    depth: nat,
)
    requires
        h.soundly_listed(),
        sound_listing(entries),
    ensures
        forall|i: int|
            0 <= i < forest_groups(h, cfg, parent, entries, depth).len() ==> below(
                parent.root,
                (#[trigger] forest_groups(h, cfg, parent, entries, depth)[i]).root,
            ),
    decreases cfg.levels - depth, 1 + entries.len(),
{
    if entries.len() != 0 && depth <= cfg.levels {
        let child = parent.child(entries[0]);
        let later = entries.drop_first();
        let first = if cfg.groups.contains(child.name) {
            subtree_groups(h, cfg, child, depth)
        } else {
            Seq::empty()
        };
        let rest = forest_groups(h, cfg, parent, later, depth);
        let all = forest_groups(h, cfg, parent, entries, depth);
        lemma_sound_rest(entries);
        assert(plain_name(entries[0]));
        lemma_child_path(parent, entries[0]);
        if cfg.groups.contains(child.name) {
            lemma_subtree_within(h, cfg, child, depth);
        }
        lemma_forest_below(h, cfg, parent, later, depth);
        assert forall|i: int| 0 <= i < all.len() implies below(
            parent.root,
            (#[trigger] all[i]).root,
        ) by {
            if i < first.len() {
                assert(all[i] == first[i]);
                assert(within(child.root, first[i].root));
                lemma_below_within(parent.root, child.root, first[i].root);
            } else {
                assert(all[i] == rest[i - first.len()]);
            }
        }
    }
}

proof fn lemma_sound_rest(entries: Seq<Seq<char>>)
    requires
        sound_listing(entries),
        entries.len() > 0,
    ensures
        sound_listing(entries.drop_first()),
        forall|k: int|
            0 <= k < entries.drop_first().len() ==> (#[trigger] entries.drop_first()[k])
                != entries[0],
{
    let later = entries.drop_first();
    assert forall|i: int| 0 <= i < later.len() implies plain_name(#[trigger] later[i]) by {
        assert(later[i] == entries[i + 1]);
    }
    assert forall|i: int, j: int| 0 <= i < j < later.len() implies #[trigger] later[i]
        != #[trigger] later[j] by {
        assert(later[i] == entries[i + 1]);
        assert(later[j] == entries[j + 1]);
    }
    assert forall|k: int| 0 <= k < later.len() implies (#[trigger] later[k]) != entries[0] by {
        assert(later[k] == entries[k + 1]);
    }
}

/// No group that a pass visits in and below the directories of a listing
/// lies in or below a directory of another name.
proof fn lemma_forest_avoids(
    h: HostView,
    cfg: ConfigView,
    parent: CGroupView,
    entries: Seq<Seq<char>>,
    depth: nat,
    other: Seq<char>,
)
    requires
        h.soundly_listed(),
        sound_listing(entries),
        plain_name(other),
        forall|k: int| 0 <= k < entries.len() ==> (#[trigger] entries[k]) != other,
    ensures
        none_within(
            entry_path(parent.root, other),
            forest_groups(h, cfg, parent, entries, depth),
        ),
    decreases entries.len(),
{
    if entries.len() != 0 && depth <= cfg.levels {
        let child = parent.child(entries[0]);
        let later = entries.drop_first();
        let first = if cfg.groups.contains(child.name) {
            subtree_groups(h, cfg, child, depth)
        } else {
            Seq::empty()
        };
        let rest = forest_groups(h, cfg, parent, later, depth);
        let all = forest_groups(h, cfg, parent, entries, depth);
        lemma_sound_rest(entries);
        assert(plain_name(entries[0]));
        assert(entries[0] != other);
        lemma_child_path(parent, entries[0]);
        if cfg.groups.contains(child.name) {
            lemma_subtree_within(h, cfg, child, depth);
        }
        assert forall|k: int| 0 <= k < later.len() implies (#[trigger] later[k]) != other by {
            assert(later[k] == entries[k + 1]);
        }
        lemma_forest_avoids(h, cfg, parent, later, depth, other);
        assert forall|i: int| 0 <= i < all.len() implies !within(
            entry_path(parent.root, other),
            (#[trigger] all[i]).root,
        ) by {
            if i < first.len() {
                assert(all[i] == first[i]);
                assert(within(child.root, first[i].root));
                lemma_siblings_apart(parent.root, entries[0], other, first[i].root);
            } else {
                assert(all[i] == rest[i - first.len()]);
            }
        }
    }
}

/// On a host whose listings are sound, no two of the groups that a pass
/// visits from a group have the same directory.
pub proof fn lemma_subtree_visits_once(h: HostView, cfg: ConfigView, node: CGroupView, depth: nat)
    requires
        h.soundly_listed(),
    ensures
        distinct_roots(subtree_groups(h, cfg, node, depth)),
    decreases cfg.levels - depth, 0nat,
{
    let all = subtree_groups(h, cfg, node, depth);
    lemma_subtree_within(h, cfg, node, depth);
    if depth < cfg.levels && h.list(node.root) is Some {
        let entries = h.list(node.root)->0;
        let under = forest_groups(h, cfg, node, entries, depth + 1);
        assert(sound_listing(h.listings[node.root]));
        lemma_forest_visits_once(h, cfg, node, entries, depth + 1);
        assert forall|i: int, j: int| 0 <= i < j < all.len() implies (#[trigger] all[i]).root != (
        #[trigger] all[j]).root by {
            if i == 0 {
                assert(below(node.root, all[j].root));
            } else {
                assert(all[i] == under[i - 1]);
                assert(all[j] == under[j - 1]);
            }
        }
    }
}

/// On a host whose listings are sound, no two of the groups that a pass
/// visits in and below the directories of a sound listing have the same
/// directory.
pub proof fn lemma_forest_visits_once(
    h: HostView,
    cfg: ConfigView,
    parent: CGroupView,
    entries: Seq<Seq<char>>,
    depth: nat,
)
    requires
        h.soundly_listed(),
        sound_listing(entries),
    ensures
        distinct_roots(forest_groups(h, cfg, parent, entries, depth)),
    decreases cfg.levels - depth, 1 + entries.len(),
{
    if entries.len() != 0 && depth <= cfg.levels {
        let child = parent.child(entries[0]);
        let later = entries.drop_first();
        let first = if cfg.groups.contains(child.name) {
            subtree_groups(h, cfg, child, depth)
        } else {
            Seq::empty()
        };
        let rest = forest_groups(h, cfg, parent, later, depth);
        let all = forest_groups(h, cfg, parent, entries, depth);
        lemma_sound_rest(entries);
        assert(plain_name(entries[0]));
        lemma_child_path(parent, entries[0]);
        if cfg.groups.contains(child.name) {
            lemma_subtree_visits_once(h, cfg, child, depth);
            lemma_subtree_within(h, cfg, child, depth);
        }
        lemma_forest_visits_once(h, cfg, parent, later, depth);
        lemma_forest_avoids(h, cfg, parent, later, depth, entries[0]);
        assert forall|i: int, j: int| 0 <= i < j < all.len() implies (#[trigger] all[i]).root != (
        #[trigger] all[j]).root by {
            if j < first.len() {
                assert(all[i] == first[i]);
                assert(all[j] == first[j]);
            } else if i < first.len() {
                assert(all[i] == first[i]);
                assert(all[j] == rest[j - first.len()]);
                assert(within(child.root, first[i].root));
                assert(!within(entry_path(parent.root, entries[0]), rest[j - first.len()].root));
            } else {
                assert(all[i] == rest[i - first.len()]);
                assert(all[j] == rest[j - first.len()]);
            }
        }
    }
}

/// A pass reports each group once: its samples are those of the groups it
/// visits, group by group, and on a host whose listings are sound no two of
/// these groups have the same directory.
pub proof fn lemma_pass_reports_each_group_once(
    h: HostView,
    cfg: ConfigView,
    at: Timestamp,
    base_dir: Seq<char>,
)
    ensures
        pass_samples(h, cfg, at, base_dir) == samples_of(h, at, pass_groups(h, cfg, base_dir)),
        h.soundly_listed() ==> distinct_roots(pass_groups(h, cfg, base_dir)),
{
    match locate(h, base_dir, cfg.base) {
        Some(root) => {
            lemma_subtree_samples_by_group(h, cfg, at, root, 1);
            if h.soundly_listed() {
                lemma_subtree_visits_once(h, cfg, root, 1);
            }
        },
        None => {},
    }
}

/// The groups of a run of visits, without their depths.
pub open spec fn groups_of(visits: Seq<PendingView>) -> Seq<CGroupView> {
    visits.map_values(|v: PendingView| v.node)
}

/// The groups that a walk has yet to visit on the host `h`, each with those
/// that the pass reaches below it, in the order of their visits: the last of
/// `pending` first.
pub open spec fn drain_groups(h: HostView, cfg: ConfigView, pending: Seq<PendingView>) -> Seq<
    CGroupView,
>
    decreases pending.len(),
{
    if pending.len() == 0 {
        Seq::empty()
    } else {
        subtree_groups(h, cfg, pending.last().node, pending.last().depth) + drain_groups(
            h,
            cfg,
            pending.drop_last(),
        )
    }
}

impl WalkView {
    /// The groups that the walk will have visited at its end when all that
    /// is read from here on is what the host `h` gives.
    pub open spec fn visits_on(self, h: HostView) -> Seq<CGroupView> {
        groups_of(self.visited) + drain_groups(h, self.config, self.pending)
    }
}

proof fn lemma_drain_pushed_groups(
    h: HostView,
    cfg: ConfigView,
    rest: Seq<PendingView>,
    parent: CGroupView,
    entries: Seq<Seq<char>>,
    depth: nat,
)
    requires
        depth <= cfg.levels,
    ensures
        drain_groups(h, cfg, rest + pushed(cfg.groups, parent, entries, depth)) == forest_groups(
            h,
            cfg,
            parent,
            entries,
            depth,
        ) + drain_groups(h, cfg, rest),
    decreases entries.len(),
{
    if entries.len() == 0 {
        assert(rest + pushed(cfg.groups, parent, entries, depth) =~= rest);
        assert(forest_groups(h, cfg, parent, entries, depth) + drain_groups(h, cfg, rest)
            =~= drain_groups(h, cfg, rest));
    } else {
        let later = entries.drop_first();
        let child = parent.child(entries[0]);
        let under = rest + pushed(cfg.groups, parent, later, depth);
        lemma_drain_pushed_groups(h, cfg, rest, parent, later, depth);
        if cfg.groups.contains(child.name) {
            let top = PendingView { node: child, depth };
            let all = rest + pushed(cfg.groups, parent, entries, depth);
            assert(all =~= under.push(top));
            assert(all.drop_last() =~= under);
            assert(all.last() == top);
            assert(drain_groups(h, cfg, all) == subtree_groups(h, cfg, child, depth)
                + drain_groups(h, cfg, under));
            assert(drain_groups(h, cfg, all) =~= forest_groups(h, cfg, parent, entries, depth)
                + drain_groups(h, cfg, rest));
        } else {
            assert(forest_groups(h, cfg, parent, entries, depth) =~= forest_groups(
                h,
                cfg,
                parent,
                later,
                depth,
            ));
        }
    }
}

/// A walk that has not started will visit, on a host, the groups that a
/// pass visits from the group it starts from.
pub proof fn lemma_start_visits(h: HostView, cfg: ConfigView, root: Option<CGroupView>, at: Timestamp)
    ensures
        WalkView::start(cfg, root, at).visits_on(h) == match root {
            Some(node) => subtree_groups(h, cfg, node, 1),
            None => Seq::empty(),
        },
{
    let w = WalkView::start(cfg, root, at);
    let none = Seq::<PendingView>::empty();
    assert(groups_of(w.visited) =~= Seq::empty());
    assert(drain_groups(h, cfg, none) =~= Seq::empty());
    match root {
        Some(node) => {
            assert(w.pending.drop_last() =~= none);
            assert(w.pending.last() == (PendingView { node, depth: 1 }));
            assert(drain_groups(h, cfg, w.pending) =~= subtree_groups(h, cfg, node, 1));
            assert(w.visits_on(h) =~= subtree_groups(h, cfg, node, 1));
        },
        None => {
            assert(w.visits_on(h) =~= Seq::empty());
        },
    }
}

/// A visit with what the host gives keeps the groups that the walk will
/// have visited at its end.
pub proof fn lemma_step_keeps_visits(w: WalkView, h: HostView, readings: ReadingsView)
    requires
        w.done() || h.agrees(w.request(), readings),
    ensures
        w.step(readings).visits_on(h) == w.visits_on(h),
{
    if !w.done() {
        let cfg = w.config;
        let top = w.next();
        let rest = w.pending.drop_last();
        let under = if top.depth < cfg.levels {
            match h.list(top.node.root) {
                Some(entries) => forest_groups(h, cfg, top.node, entries, top.depth + 1),
                None => Seq::empty(),
            }
        } else {
            Seq::empty()
        };
        assert(drain_groups(h, cfg, w.pending) == seq![top.node] + under + drain_groups(
            h,
            cfg,
            rest,
        ));
        assert(drain_groups(h, cfg, w.step(readings).pending) == under + drain_groups(
            h,
            cfg,
            rest,
        )) by {
            if top.depth < cfg.levels && h.list(top.node.root) is Some {
                lemma_drain_pushed_groups(
                    h,
                    cfg,
                    rest,
                    top.node,
                    h.list(top.node.root)->0,
                    top.depth + 1,
                );
            } else {
                assert(w.step(readings).pending =~= rest);
                assert(under + drain_groups(h, cfg, rest) =~= drain_groups(h, cfg, rest));
            }
        }
        assert(groups_of(w.step(readings).visited) =~= groups_of(w.visited).push(top.node));
        assert(w.step(readings).visits_on(h) =~= w.visits_on(h));
    }
}

/// A walk that is done has visited what it was going to visit.
pub proof fn lemma_done_visits(w: WalkView, h: HostView)
    requires
        w.done(),
    ensures
        w.visits_on(h) == groups_of(w.visited),
{
    assert(w.visits_on(h) =~= groups_of(w.visited));
}

/// A walk that is done, and that was going to visit what a walk from its
/// start visits on a host whose listings are sound, has visited no group
/// twice. Visits with what the host gives keep what a walk is going to
/// visit, so this holds of every walk that the host has fed from its start
/// to its end.
pub proof fn lemma_walk_visits_once(
    w: WalkView,
    h: HostView,
    cfg: ConfigView,
    root: Option<CGroupView>,
    at: Timestamp,
)
    requires
        h.soundly_listed(),
        w.done(),
        w.visits_on(h) == WalkView::start(cfg, root, at).visits_on(h),
    ensures
        distinct_roots(groups_of(w.visited)),
{
    lemma_done_visits(w, h);
    lemma_start_visits(h, cfg, root, at);
    match root {
        Some(node) => {
            lemma_subtree_visits_once(h, cfg, node, 1);
        },
        None => {},
    }
}

} // verus!
