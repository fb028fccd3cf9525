//! Metric samples: what a collection pass hands back.

use vstd::prelude::*;
use vstd::string::*;

verus! {

/// Whether a metric only ever grows, or is read anew each time.
#[derive(Clone, Copy, Debug, PartialEq, Eq, Structural)]
pub enum MetricKind {
    Counter,
    Gauge,
}

/// What the value of a sample counts.
#[derive(Clone, Copy, Debug, PartialEq, Eq, Structural)]
pub enum Unit {
    /// Microseconds; the metric itself is in seconds, a millionth of the value.
    Microseconds,
    /// Bytes; the metric is the value.
    Bytes,
}

/// The six metrics of a group.
#[derive(Clone, Copy, Debug, PartialEq, Eq, Structural)]
pub enum MetricName {
    CpuUsageSecondsTotal,
    CpuUserSecondsTotal,
    CpuSystemSecondsTotal,
    MemoryCurrentBytes,
    MemoryAnonBytes,
    MemoryFileBytes,
}

impl MetricName {
    /// The metric's name as it is reported.
    pub open spec fn spec_text(self) -> Seq<char> {
        match self {
            MetricName::CpuUsageSecondsTotal => "cgroup_cpu_usage_seconds_total"@,
            MetricName::CpuUserSecondsTotal => "cgroup_cpu_user_seconds_total"@,
            MetricName::CpuSystemSecondsTotal => "cgroup_cpu_system_seconds_total"@,
            MetricName::MemoryCurrentBytes => "cgroup_memory_current_bytes"@,
            MetricName::MemoryAnonBytes => "cgroup_memory_anon_bytes"@,
            MetricName::MemoryFileBytes => "cgroup_memory_file_bytes"@,
        }
    }

    /// Whether the metric is one of the three that come from `cpu.stat`.
    pub open spec fn is_cpu(self) -> bool {
        self is CpuUsageSecondsTotal || self is CpuUserSecondsTotal
            || self is CpuSystemSecondsTotal
    }

    /// CPU metrics are counters, memory metrics are gauges.
    pub open spec fn spec_kind(self) -> MetricKind {
        if self.is_cpu() {
            MetricKind::Counter
        } else {
            MetricKind::Gauge
        }
    }

    /// CPU metrics count microseconds, memory metrics count bytes.
    pub open spec fn spec_unit(self) -> Unit {
        if self.is_cpu() {
            Unit::Microseconds
        } else {
            Unit::Bytes
        }
    }

    /// The metric's name as it is reported.
    pub fn as_str(&self) -> (s: &'static str)
        ensures
            s@ == self.spec_text(),
    {
        match self {
            MetricName::CpuUsageSecondsTotal => "cgroup_cpu_usage_seconds_total",
            MetricName::CpuUserSecondsTotal => "cgroup_cpu_user_seconds_total",
            MetricName::CpuSystemSecondsTotal => "cgroup_cpu_system_seconds_total",
            MetricName::MemoryCurrentBytes => "cgroup_memory_current_bytes",
            MetricName::MemoryAnonBytes => "cgroup_memory_anon_bytes",
            MetricName::MemoryFileBytes => "cgroup_memory_file_bytes",
        }
    }

    pub fn kind(&self) -> (k: MetricKind)
        ensures
            k == self.spec_kind(),
    {
        match self {
            MetricName::CpuUsageSecondsTotal
            | MetricName::CpuUserSecondsTotal
            | MetricName::CpuSystemSecondsTotal => MetricKind::Counter,
            _ => MetricKind::Gauge,
        }
    }

    pub fn unit(&self) -> (u: Unit)
        ensures
            u == self.spec_unit(),
    {
        match self {
            MetricName::CpuUsageSecondsTotal
            | MetricName::CpuUserSecondsTotal
            | MetricName::CpuSystemSecondsTotal => Unit::Microseconds,
            _ => Unit::Bytes,
        }
    }
}

/// An instant: seconds since the Unix epoch, and nanoseconds within the second.
#[derive(Clone, Copy, Debug, PartialEq, Eq, Structural)]
pub struct Timestamp {
    pub secs: i64,
    pub nanos: u32,
}

/// One reading of one metric of one group.
///
/// `value` is the count as the kernel gave it, in the metric's unit.
#[derive(Clone, Debug)]
pub struct Sample {
    pub name: MetricName,
    pub timestamp: Timestamp,
    pub value: u64,
    pub cgroup: String,
}

/// A sample, with the group's name as a sequence of characters.
pub struct SampleView {
    pub name: MetricName,
    pub timestamp: Timestamp,
    pub value: u64,
    pub cgroup: Seq<char>,
}

impl View for Sample {
    type V = SampleView;

    open spec fn view(&self) -> SampleView {
        SampleView {
            name: self.name,
            timestamp: self.timestamp,
            value: self.value,
            cgroup: self.cgroup@,
        }
    }
}

/// The views of a run of samples.
pub open spec fn samples_view(s: Seq<Sample>) -> Seq<SampleView> {
    s.map_values(|x: Sample| x@)
}

impl Sample {
    pub fn kind(&self) -> (k: MetricKind)
        ensures
            k == self.name.spec_kind(),
    {
        self.name.kind()
    }

    pub fn unit(&self) -> (u: Unit)
        ensures
            u == self.name.spec_unit(),
    {
        self.name.unit()
    }

    /// The sample's tags, ordered by key: the group's name under `cgroup`, and
    /// `cgroups` under `collector`.
    pub fn tags(&self) -> (t: Vec<(String, String)>)
        ensures
            t@.len() == 2,
            t@[0].0@ == "cgroup"@,
            t@[0].1@ == self.cgroup@,
            t@[1].0@ == "collector"@,
            t@[1].1@ == "cgroups"@,
    {
        let mut t: Vec<(String, String)> = Vec::new();
        t.push((String::from_str("cgroup"), self.cgroup.clone()));
        t.push((String::from_str("collector"), String::from_str("cgroups")));
        t
    }
}

} // verus!
