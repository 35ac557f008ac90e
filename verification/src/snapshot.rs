//! Snapshot types delivered by the collectors once per evaluation cycle.
//! All readings are integer-valued: percentages, counts, and sizes.

use vstd::prelude::*;

verus! {

/// One line of log output, already parsed into its display fields.
#[derive(Debug)]
pub struct LogEntry {
    pub timestamp: String,
    pub level: String,
    pub service: String,
    pub message: String,
}

/// Mathematical image of [`LogEntry`], with strings as character sequences.
#[verifier::ext_equal]
pub struct LogEntryView {
    pub timestamp: Seq<char>,
    pub level: Seq<char>,
    pub service: Seq<char>,
    pub message: Seq<char>,
}

impl View for LogEntry {
    type V = LogEntryView;

    open spec fn view(&self) -> LogEntryView {
        LogEntryView {
            timestamp: self.timestamp@,
            level: self.level@,
            service: self.service@,
            message: self.message@,
        }
    }
}

/// One reading of the host's system metrics. Percentages are whole
/// percents, memory sizes whole gigabytes, throughput whole megabytes
/// per second.
#[derive(Debug, Clone, Copy, PartialEq, Eq, Structural)]
pub struct SystemMetrics {
    pub cpu_usage: u32,
    pub memory_used_gb: u32,
    pub memory_total_gb: u32,
    pub disk_read_mb_s: u32,
    pub disk_write_mb_s: u32,
    pub disk_usage_percent: u32,
    pub load_avg: u32,
    pub uptime_seconds: u64,
}

impl Default for SystemMetrics {
    /// An all-zero reading, used when no collector output is available.
    fn default() -> (r: Self)
        ensures
            r == (SystemMetrics {
                cpu_usage: 0,
                memory_used_gb: 0,
                memory_total_gb: 0,
                disk_read_mb_s: 0,
                disk_write_mb_s: 0,
                disk_usage_percent: 0,
                load_avg: 0,
                uptime_seconds: 0,
            }),
    {
        SystemMetrics {
            cpu_usage: 0,
            memory_used_gb: 0,
            memory_total_gb: 0,
            disk_read_mb_s: 0,
            disk_write_mb_s: 0,
            disk_usage_percent: 0,
            load_avg: 0,
            uptime_seconds: 0,
        }
    }
}

/// Memory usage as a whole percentage of total memory, `0` when the
/// total is zero so that a degenerate reading never divides by zero.
pub open spec fn memory_percent(m: SystemMetrics) -> int {
    if m.memory_total_gb > 0 {
        (m.memory_used_gb * 100) / (m.memory_total_gb as int)
    } else {
        0
    }
}

impl SystemMetrics {
    /// Memory usage as a whole percentage of total memory; `0` when the
    /// total is zero.
    pub fn memory_percent_of(&self) -> (r: u64)
        ensures
            r as int == memory_percent(*self),
    {
        if self.memory_total_gb > 0 {
            (self.memory_used_gb as u64) * 100 / (self.memory_total_gb as u64)
        } else {
            0
        }
    }
}

/// One reading of the Kubernetes cluster state.
#[derive(Debug, Clone, Copy, PartialEq, Eq, Structural)]
pub struct K8sClusterInfo {
    pub nodes_ready: u32,
    pub nodes_total: u32,
    pub pods_running: u32,
    pub services: u32,
}

/// One reading of the KubeVirt virtual machine state.
#[derive(Debug, Clone, Copy, PartialEq, Eq, Structural)]
pub struct KubeVirtInfo {
    pub vms_running: u32,
    pub vms_stopped: u32,
    pub vms_migrating: u32,
}

} // verus!
