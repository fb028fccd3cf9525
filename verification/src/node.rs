//! One group of the hierarchy: where its files lie, what is read for it, and
//! which samples come of what was read.

use vstd::prelude::*;
use vstd::string::*;
use crate::paths::{is_root_name, join_name, join_path, root_name, spec_join_name, spec_join_path};
use crate::sample::{samples_view, MetricName, Sample, SampleView, Timestamp};
use crate::stat::{
    parse_memory_current, spec_parse_memory_current, CpuStat, MemoryStat, ParseError,
};

verus! {

/// A group: the path of its directory, and its name within the hierarchy.
/// The hierarchy's root is named `/`.
#[derive(Clone, Debug)]
pub struct CGroup {
    pub root: String,
    pub name: String,
}

/// A group, with path and name as sequences of characters.
pub struct CGroupView {
    pub root: Seq<char>,
    pub name: Seq<char>,
}

impl CGroupView {
    /// Whether this is the hierarchy's root.
    pub open spec fn is_root(self) -> bool {
        self.name == root_name()
    }

    /// The path of the file `filename` of this group.
    pub open spec fn path_of(self, filename: Seq<char>) -> Seq<char> {
        spec_join_path(self.root, filename)
    }

    pub open spec fn cpu_stat_path(self) -> Seq<char> {
        self.path_of("cpu.stat"@)
    }

    pub open spec fn memory_current_path(self) -> Seq<char> {
        self.path_of("memory.current"@)
    }

    pub open spec fn memory_stat_path(self) -> Seq<char> {
        self.path_of("memory.stat"@)
    }

    /// The group directly below this one whose directory is named `entry`.
    pub open spec fn child(self, entry: Seq<char>) -> CGroupView {
        CGroupView {
            root: spec_join_path(self.root, entry),
            name: spec_join_name(self.name, entry),
        }
    }

    /// The groups directly below this one, for the names of their
    /// directories.
    pub open spec fn children(self, entries: Seq<Seq<char>>) -> Seq<CGroupView> {
        entries.map_values(|e: Seq<char>| self.child(e))
    }
}

impl View for CGroup {
    type V = CGroupView;

    open spec fn view(&self) -> CGroupView {
        CGroupView { root: self.root@, name: self.name@ }
    }
}

/// A group that may be missing, as its view.
pub open spec fn group_view(group: Option<CGroup>) -> Option<CGroupView> {
    match group {
        Some(g) => Some(g@),
        None => None,
    }
}

/// The views of a run of groups.
pub open spec fn cgroups_view(groups: Seq<CGroup>) -> Seq<CGroupView> {
    groups.map_values(|g: CGroup| g@)
}

/// The views of a run of strings.
pub open spec fn strings_view(strings: Seq<String>) -> Seq<Seq<char>> {
    strings.map_values(|s: String| s@)
}

impl CGroup {
    /// Whether this is the hierarchy's root.
    pub fn is_root(&self) -> (b: bool)
        ensures
            b == self@.is_root(),
    {
        is_root_name(self.name.as_str())
    }

    /// The path of the file `filename` of this group.
    pub fn make_path(&self, filename: &str) -> (p: String)
        ensures
            p@ == self@.path_of(filename@),
    {
        join_path(self.root.as_str(), filename)
    }

    /// The group directly below this one whose directory is named `entry`.
    pub fn child(&self, entry: &str) -> (c: CGroup)
        ensures
            c@ == self@.child(entry@),
    {
        CGroup {
            root: join_path(self.root.as_str(), entry),
            name: join_name(self.name.as_str(), entry),
        }
    }

    /// The groups directly below this one, given the names of the directories
    /// in its own, in their order.
    pub fn children(&self, entries: &Vec<String>) -> (c: Vec<CGroup>)
        ensures
            cgroups_view(c@) == self@.children(strings_view(entries@)),
    {
        let mut c: Vec<CGroup> = Vec::new();
        let mut i: usize = 0;
        while i < entries.len()
            invariant
                i <= entries@.len(),
                cgroups_view(c@) == self@.children(strings_view(entries@).take(i as int)),
            decreases entries@.len() - i,
        {
            let ghost before = cgroups_view(c@);
            let ghost names = strings_view(entries@);
            let child = self.child(entries[i].as_str());
            let ghost added = child@;
            c.push(child);
            assert(cgroups_view(c@) =~= before.push(added));
            assert(names.take(i + 1) =~= names.take(i as int).push(names[i as int]));
            assert(self@.children(names.take(i + 1)) =~= self@.children(names.take(i as int)).push(
                self@.child(names[i as int]),
            ));
            i += 1;
        }
        assert(strings_view(entries@).take(i as int) =~= strings_view(entries@));
        c
    }
}

/// Why a statistic of a group could not be had.
#[derive(Clone, Copy, Debug, PartialEq, Eq, Structural)]
pub enum LoadError {
    /// The file could not be opened or read, or the directory not listed.
    Filesystem,
    /// The file was read and does not hold what it should.
    InvalidData(ParseError),
}

/// A parse failure as the failure to load the statistic.
pub fn map_parse_error(error: ParseError) -> (e: LoadError)
    ensures
        e == LoadError::InvalidData(error),
{
    LoadError::InvalidData(error)
}

/// What was read for one group. The text of a file that could not be read is
/// `None`, and so is the listing of a directory that could not be listed; the
/// listing names the directories directly below the group, in the order in
/// which they were found. The texts are borrowed, so that the reader can use
/// its buffers again for the next group.
#[derive(Clone, Debug)]
pub struct NodeReadings<'a> {
    pub cpu_stat: Option<&'a str>,
    pub memory_current: Option<&'a str>,
    pub memory_stat: Option<&'a str>,
    pub children: Option<Vec<String>>,
}

/// What was read for one group, as sequences of characters.
pub struct ReadingsView {
    pub cpu_stat: Option<Seq<char>>,
    pub memory_current: Option<Seq<char>>,
    pub memory_stat: Option<Seq<char>>,
    pub children: Option<Seq<Seq<char>>>,
}

/// A text that may be missing, as a sequence of characters.
pub open spec fn text_view(text: Option<String>) -> Option<Seq<char>> {
    match text {
        Some(t) => Some(t@),
        None => None,
    }
}

/// A borrowed text that may be missing, as a sequence of characters.
pub open spec fn str_view(text: Option<&str>) -> Option<Seq<char>> {
    match text {
        Some(t) => Some(t@),
        None => None,
    }
}

impl<'a> View for NodeReadings<'a> {
    type V = ReadingsView;

    open spec fn view(&self) -> ReadingsView {
        ReadingsView {
            cpu_stat: str_view(self.cpu_stat),
            memory_current: str_view(self.memory_current),
            memory_stat: str_view(self.memory_stat),
            children: match self.children {
                Some(c) => Some(strings_view(c@)),
                None => None,
            },
        }
    }
}

/// The CPU statistics in what was read of `cpu.stat`.
pub open spec fn spec_load_cpu(contents: Option<Seq<char>>) -> Result<CpuStat, LoadError> {
    match contents {
        None => Err(LoadError::Filesystem),
        Some(text) => match CpuStat::spec_parse(text) {
            Ok(stat) => Ok(stat),
            Err(e) => Err(LoadError::InvalidData(e)),
        },
    }
}

/// The memory in use in what was read of `memory.current`.
pub open spec fn spec_load_memory_current(contents: Option<Seq<char>>) -> Result<u64, LoadError> {
    match contents {
        None => Err(LoadError::Filesystem),
        Some(text) => match spec_parse_memory_current(text) {
            Ok(v) => Ok(v),
            Err(e) => Err(LoadError::InvalidData(e)),
        },
    }
}

/// The memory statistics in what was read of `memory.stat`.
pub open spec fn spec_load_memory_stat(contents: Option<Seq<char>>) -> Result<
    MemoryStat,
    LoadError,
> {
    match contents {
        None => Err(LoadError::Filesystem),
        Some(text) => match MemoryStat::spec_parse(text) {
            Ok(stat) => Ok(stat),
            Err(e) => Err(LoadError::InvalidData(e)),
        },
    }
}

impl<'a> NodeReadings<'a> {
    /// The group's CPU statistics.
    pub fn load_cpu(&self) -> (r: Result<CpuStat, LoadError>)
        ensures
            r == spec_load_cpu(self@.cpu_stat),
    {
        match self.cpu_stat {
            None => Err(LoadError::Filesystem),
            Some(text) => match CpuStat::parse(text) {
                Ok(stat) => Ok(stat),
                Err(e) => Err(map_parse_error(e)),
            },
        }
    }

    /// The memory that the group has in use, in bytes.
    pub fn load_memory_current(&self) -> (r: Result<u64, LoadError>)
        ensures
            r == spec_load_memory_current(self@.memory_current),
    {
        match self.memory_current {
            None => Err(LoadError::Filesystem),
            Some(text) => match parse_memory_current(text) {
                Ok(v) => Ok(v),
                Err(e) => Err(map_parse_error(e)),
            },
        }
    }

    /// The group's memory statistics.
    pub fn load_memory_stat(&self) -> (r: Result<MemoryStat, LoadError>)
        ensures
            r == spec_load_memory_stat(self@.memory_stat),
    {
        match self.memory_stat {
            None => Err(LoadError::Filesystem),
            Some(text) => match MemoryStat::parse(text) {
                Ok(stat) => Ok(stat),
                Err(e) => Err(map_parse_error(e)),
            },
        }
    }
}

/// The sample of `name` with the value `value` for the group named `cgroup`.
pub open spec fn sample_of(
    name: MetricName,
    at: Timestamp,
    value: u64,
    cgroup: Seq<char>,
) -> SampleView {
    SampleView { name, timestamp: at, value, cgroup }
}

/// The three CPU counters of a group, or nothing where its `cpu.stat` could
/// not be had.
pub open spec fn cpu_samples(cgroup: Seq<char>, at: Timestamp, contents: Option<Seq<char>>) -> Seq<
    SampleView,
> {
    match spec_load_cpu(contents) {
        Ok(cpu) => seq![
            sample_of(MetricName::CpuUsageSecondsTotal, at, cpu.usage_usec, cgroup),
            sample_of(MetricName::CpuUserSecondsTotal, at, cpu.user_usec, cgroup),
            sample_of(MetricName::CpuSystemSecondsTotal, at, cpu.system_usec, cgroup),
        ],
        Err(_) => Seq::empty(),
    }
}

/// The gauge of the memory that a group has in use, or nothing where its
/// `memory.current` could not be had.
pub open spec fn memory_current_samples(
    cgroup: Seq<char>,
    at: Timestamp,
    contents: Option<Seq<char>>,
) -> Seq<SampleView> {
    match spec_load_memory_current(contents) {
        Ok(current) => seq![sample_of(MetricName::MemoryCurrentBytes, at, current, cgroup)],
        Err(_) => Seq::empty(),
    }
}

/// The two gauges of a group's memory by use, or nothing where its
/// `memory.stat` could not be had.
pub open spec fn memory_stat_samples(
    cgroup: Seq<char>,
    at: Timestamp,
    contents: Option<Seq<char>>,
) -> Seq<SampleView> {
    match spec_load_memory_stat(contents) {
        Ok(stat) => seq![
            sample_of(MetricName::MemoryAnonBytes, at, stat.anon, cgroup),
            sample_of(MetricName::MemoryFileBytes, at, stat.file, cgroup),
        ],
        Err(_) => Seq::empty(),
    }
}

/// The samples of one group: its CPU counters and, unless it is the
/// hierarchy's root, its memory gauges. Each statistic that could be had
/// gives its samples, whatever became of the others.
pub open spec fn node_samples(node: CGroupView, at: Timestamp, readings: ReadingsView) -> Seq<
    SampleView,
> {
    cpu_samples(node.name, at, readings.cpu_stat) + if node.is_root() {
        Seq::empty()
    } else {
        memory_current_samples(node.name, at, readings.memory_current) + memory_stat_samples(
            node.name,
            at,
            readings.memory_stat,
        )
    }
}

/// A statistic of a group.
#[derive(Clone, Copy, Debug, PartialEq, Eq, Structural)]
pub enum Statistic {
    Cpu,
    MemoryCurrent,
    MemoryStat,
    Children,
}

impl Statistic {
    /// What to say when the statistic could not be had.
    pub fn failure_message(&self) -> (m: &'static str)
        ensures
            m@ == match *self {
                Statistic::Cpu => "Failed to load/parse cgroups CPU statistics"@,
                Statistic::MemoryCurrent => "Failed to load/parse cgroups current memory"@,
                Statistic::MemoryStat => "Failed to load/parse cgroups memory statistics"@,
                Statistic::Children => "Failed to load cgroups children"@,
            },
    {
        match self {
            Statistic::Cpu => "Failed to load/parse cgroups CPU statistics",
            Statistic::MemoryCurrent => "Failed to load/parse cgroups current memory",
            Statistic::MemoryStat => "Failed to load/parse cgroups memory statistics",
            Statistic::Children => "Failed to load cgroups children",
        }
    }
}

/// A statistic of a group that could not be had, and why.
#[derive(Clone, Copy, Debug, PartialEq, Eq, Structural)]
pub struct Failure {
    pub statistic: Statistic,
    pub error: LoadError,
}

/// The failure to have `statistic`, if `result` is one.
pub open spec fn failure_of<T>(statistic: Statistic, result: Result<T, LoadError>) -> Seq<
    Failure,
> {
    match result {
        Ok(_) => Seq::empty(),
        Err(error) => seq![Failure { statistic, error }],
    }
}

/// The statistics of one group that could not be had, in the order in which
/// they are taken up. The root's memory is not asked for and so cannot fail.
pub open spec fn node_failures(node: CGroupView, readings: ReadingsView) -> Seq<Failure> {
    failure_of(Statistic::Cpu, spec_load_cpu(readings.cpu_stat)) + if node.is_root() {
        Seq::empty()
    } else {
        failure_of(Statistic::MemoryCurrent, spec_load_memory_current(readings.memory_current))
            + failure_of(Statistic::MemoryStat, spec_load_memory_stat(readings.memory_stat))
    }
}

fn push_sample(
    output: &mut Vec<Sample>,
    name: MetricName,
    at: Timestamp,
    value: u64,
    node: &CGroup,
)
    ensures
        samples_view(final(output)@) == samples_view(old(output)@).push(
            sample_of(name, at, value, node@.name),
        ),
{
    output.push(Sample { name, timestamp: at, value, cgroup: node.name.clone() });
    assert(samples_view(output@) =~= samples_view(old(output)@).push(
        sample_of(name, at, value, node@.name),
    ));
}

/// Takes up what was read for `node`: appends its samples to `output`, and
/// what could not be had to `failures`.
pub fn collect_node(
    node: &CGroup,
    at: Timestamp,
    readings: &NodeReadings,
    output: &mut Vec<Sample>,
    failures: &mut Vec<Failure>,
)
    ensures
        samples_view(final(output)@) == samples_view(old(output)@) + node_samples(
            node@,
            at,
            readings@,
        ),
        final(failures)@ == old(failures)@ + node_failures(node@, readings@),
{
    let ghost out0 = samples_view(output@);
    let ghost fail0 = failures@;
    match readings.load_cpu() {
        Ok(cpu) => {
            push_sample(output, MetricName::CpuUsageSecondsTotal, at, cpu.usage_usec, node);
            push_sample(output, MetricName::CpuUserSecondsTotal, at, cpu.user_usec, node);
            push_sample(output, MetricName::CpuSystemSecondsTotal, at, cpu.system_usec, node);
        },
        Err(error) => {
            failures.push(Failure { statistic: Statistic::Cpu, error });
        },
    }
    assert(samples_view(output@) =~= out0 + cpu_samples(node@.name, at, readings@.cpu_stat));
    assert(failures@ =~= fail0 + failure_of(Statistic::Cpu, spec_load_cpu(readings@.cpu_stat)));
    if !node.is_root() {
        let ghost out1 = samples_view(output@);
        let ghost fail1 = failures@;
        match readings.load_memory_current() {
            Ok(current) => {
                push_sample(output, MetricName::MemoryCurrentBytes, at, current, node);
            },
            Err(error) => {
                failures.push(Failure { statistic: Statistic::MemoryCurrent, error });
            },
        }
        let ghost out2 = samples_view(output@);
        let ghost fail2 = failures@;
        assert(out2 =~= out1 + memory_current_samples(
            node@.name,
            at,
            readings@.memory_current,
        ));
        assert(fail2 =~= fail1 + failure_of(
            Statistic::MemoryCurrent,
            spec_load_memory_current(readings@.memory_current),
        ));
        match readings.load_memory_stat() {
            Ok(stat) => {
                push_sample(output, MetricName::MemoryAnonBytes, at, stat.anon, node);
                push_sample(output, MetricName::MemoryFileBytes, at, stat.file, node);
            },
            Err(error) => {
                failures.push(Failure { statistic: Statistic::MemoryStat, error });
            },
        }
        assert(samples_view(output@) =~= out2 + memory_stat_samples(
            node@.name,
            at,
            readings@.memory_stat,
        ));
        assert(failures@ =~= fail2 + failure_of(
            Statistic::MemoryStat,
            spec_load_memory_stat(readings@.memory_stat),
        ));
        assert(samples_view(output@) =~= out0 + node_samples(node@, at, readings@));
        assert(failures@ =~= fail0 + node_failures(node@, readings@));
    } else {
        assert(samples_view(output@) =~= out0 + node_samples(node@, at, readings@));
        assert(failures@ =~= fail0 + node_failures(node@, readings@));
    }
}

/// Every sample of a group carries the instant of the pass and the group's
/// name.
pub proof fn lemma_node_samples_share_instant_and_name(
    node: CGroupView,
    at: Timestamp,
    readings: ReadingsView,
)
    ensures
        forall|i: int|
            0 <= i < node_samples(node, at, readings).len() ==> {
                &&& (#[trigger] node_samples(node, at, readings)[i]).timestamp == at
                &&& node_samples(node, at, readings)[i].cgroup == node.name
            },
{
}

/// The hierarchy's root gives its CPU counters and no memory gauge: all
/// three counters where its `cpu.stat` could be had, whatever was read of
/// memory.
pub proof fn lemma_root_gives_cpu_only(node: CGroupView, at: Timestamp, readings: ReadingsView)
    requires
        node.is_root(),
    ensures
        node_samples(node, at, readings) == cpu_samples(node.name, at, readings.cpu_stat),
        spec_load_cpu(readings.cpu_stat) is Ok ==> node_samples(node, at, readings).len() == 3,
        forall|i: int|
            0 <= i < node_samples(node, at, readings).len() ==> (#[trigger] node_samples(
                node,
                at,
                readings,
            )[i]).name.is_cpu(),
{
    assert(node_samples(node, at, readings) =~= cpu_samples(node.name, at, readings.cpu_stat));
}

/// A statistic that could not be had takes only its own samples with it: a
/// group whose `memory.stat` failed still gives its CPU counters and the
/// memory it has in use.
pub proof fn lemma_memory_stat_fails_alone(node: CGroupView, at: Timestamp, readings: ReadingsView)
    requires
        spec_load_memory_stat(readings.memory_stat) is Err,
    ensures
        node_samples(node, at, readings) == cpu_samples(node.name, at, readings.cpu_stat)
            + if node.is_root() {
            Seq::empty()
        } else {
            memory_current_samples(node.name, at, readings.memory_current)
        },
{
    assert(memory_stat_samples(node.name, at, readings.memory_stat) =~= Seq::empty());
    assert(node_samples(node, at, readings) =~= cpu_samples(node.name, at, readings.cpu_stat)
        + if node.is_root() {
        Seq::empty()
    } else {
        memory_current_samples(node.name, at, readings.memory_current)
    });
}

} // verus!
