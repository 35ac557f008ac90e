//! Rule evaluators: stateless functions that turn one metric snapshot plus
//! its threshold configuration into zero or more alert candidates.

use vstd::prelude::*;
use vstd::string::StringExecFns;

use crate::alert::{Alert, AlertCategory, AlertId, AlertLevel, AlertMetadataView, AlertStatus, AlertView};
use crate::snapshot::{memory_percent, K8sClusterInfo, KubeVirtInfo, SystemMetrics};
use crate::text::{dec_nat, join3, join5, num_join};

verus! {

/// A single configurable threshold; retained as part of the public
/// configuration surface.
#[derive(Debug, Clone, Copy, PartialEq, Eq, Structural)]
pub struct ThresholdRule {
    pub enabled: bool,
    pub level: AlertLevel,
    pub threshold: u32,
    pub duration_seconds: u64,
}

impl Default for ThresholdRule {
    /// An enabled warning threshold of 80 that must persist for a minute.
    fn default() -> (r: Self)
        ensures
            r == (ThresholdRule {
                enabled: true,
                level: AlertLevel::Warning,
                threshold: 80,
                duration_seconds: 60,
            }),
    {
        ThresholdRule { enabled: true, level: AlertLevel::Warning, threshold: 80, duration_seconds: 60 }
    }
}

/// Per-dimension warning/critical thresholds and enable flags for the
/// system metrics evaluator. Thresholds are whole percents, except the
/// load thresholds, which are whole load-average units.
#[derive(Debug, Clone, Copy, PartialEq, Eq, Structural)]
pub struct SystemAlert {
    pub cpu_warning_threshold: u32,
    pub cpu_critical_threshold: u32,
    pub cpu_enabled: bool,
    pub memory_warning_threshold: u32,
    pub memory_critical_threshold: u32,
    pub memory_enabled: bool,
    pub disk_warning_threshold: u32,
    pub disk_critical_threshold: u32,
    pub disk_enabled: bool,
    pub load_warning_threshold: u32,
    pub load_critical_threshold: u32,
    pub load_enabled: bool,
}

/// The default threshold configuration: cpu 80/95, memory 85/95,
/// disk 85/95, load 10/20, every dimension enabled.
pub open spec fn default_system_alert() -> SystemAlert {
    SystemAlert {
        cpu_warning_threshold: 80,
        cpu_critical_threshold: 95,
        cpu_enabled: true,
        memory_warning_threshold: 85,
        memory_critical_threshold: 95,
        memory_enabled: true,
        disk_warning_threshold: 85,
        disk_critical_threshold: 95,
        disk_enabled: true,
        load_warning_threshold: 10,
        load_critical_threshold: 20,
        load_enabled: true,
    }
}

impl Default for SystemAlert {
    fn default() -> (r: Self)
        ensures
            r == default_system_alert(),
    {
        SystemAlert {
            cpu_warning_threshold: 80,
            cpu_critical_threshold: 95,
            cpu_enabled: true,
            memory_warning_threshold: 85,
            memory_critical_threshold: 95,
            memory_enabled: true,
            disk_warning_threshold: 85,
            disk_critical_threshold: 95,
            disk_enabled: true,
            load_warning_threshold: 10,
            load_critical_threshold: 20,
            load_enabled: true,
        }
    }
}

/// The condition a rule observed; retained as part of the public alert
/// vocabulary.
#[derive(Debug, Clone)]
pub enum AlertCondition {
    CpuHigh { value: i64, threshold: i64 },
    MemoryHigh { value: i64, threshold: i64 },
    DiskHigh { value: i64, threshold: i64 },
    LoadHigh { value: i64, threshold: i64 },
    NodeDown { ready: u32, total: u32 },
    PodsFailing { count: u32 },
    ServiceDown { name: String },
    VMFailed { name: String },
    NetworkDown { interface: String },
}

/// What a rule proposes before the manager has seen it: the alert's
/// content, without the identifier, timestamps, or lifecycle state that
/// admission adds.
#[verifier::ext_equal]
pub struct Candidate {
    pub level: AlertLevel,
    pub category: AlertCategory,
    pub title: Seq<char>,
    pub message: Seq<char>,
    pub source: Seq<char>,
    pub value: Option<i64>,
    pub threshold: Option<i64>,
}

/// The content of an alert, forgetting its identifier, timestamps, and
/// lifecycle state.
pub open spec fn cand_of(a: AlertView) -> Candidate {
    Candidate {
        level: a.level,
        category: a.category,
        title: a.title,
        message: a.message,
        source: a.metadata.source,
        value: a.metadata.value,
        threshold: a.metadata.threshold,
    }
}

/// The alert that admitting candidate `c` at time `now_ms` under nonce
/// `nonce` places in the active set.
pub open spec fn alert_of_candidate(c: Candidate, now_ms: i64, nonce: u32) -> AlertView {
    AlertView {
        id: AlertId { category: c.category, at_ms: now_ms, nonce },
        level: c.level,
        category: c.category,
        status: AlertStatus::Active,
        title: c.title,
        message: c.message,
        triggered_at: now_ms,
        acknowledged_at: Option::None,
        resolved_at: Option::None,
        metadata: AlertMetadataView {
            source: c.source,
            value: c.value,
            threshold: c.threshold,
            node_name: Option::None,
            pod_name: Option::None,
            vm_name: Option::None,
        },
    }
}

/// A vector of alerts realises a candidate sequence when it has one
/// freshly created alert per candidate, in order.
pub open spec fn realises(r: Seq<Alert>, cs: Seq<Candidate>, now_ms: i64) -> bool {
    &&& r.len() == cs.len()
    &&& forall|i: int| 0 <= i < r.len() ==>
        #[trigger] r[i]@ == alert_of_candidate(cs[i], now_ms, r[i].id.nonce)
}

/// Candidates of the cpu dimension: one critical or one warning alert
/// with source `"cpu"` when the usage meets a threshold.
pub open spec fn cpu_candidates(m: SystemMetrics, c: SystemAlert) -> Seq<Candidate> {
    if !c.cpu_enabled {
        Seq::empty()
    } else if m.cpu_usage >= c.cpu_critical_threshold {
        seq![Candidate {
            level: AlertLevel::Critical,
            category: AlertCategory::System,
            title: "Critical CPU Usage"@,
            message: "CPU usage is critically high at "@ + dec_nat(m.cpu_usage as nat) + "%"@,
            source: "cpu"@,
            value: Option::Some(m.cpu_usage as i64),
            threshold: Option::Some(c.cpu_critical_threshold as i64),
        }]
    } else if m.cpu_usage >= c.cpu_warning_threshold {
        seq![Candidate {
            level: AlertLevel::Warning,
            category: AlertCategory::System,
            title: "High CPU Usage"@,
            message: "CPU usage is high at "@ + dec_nat(m.cpu_usage as nat) + "%"@,
            source: "cpu"@,
            value: Option::Some(m.cpu_usage as i64),
            threshold: Option::Some(c.cpu_warning_threshold as i64),
        }]
    } else {
        Seq::empty()
    }
}

/// Candidates of the memory dimension, judged on the computed memory
/// percentage.
pub open spec fn memory_candidates(m: SystemMetrics, c: SystemAlert) -> Seq<Candidate> {
    if !c.memory_enabled {
        Seq::empty()
    } else if memory_percent(m) >= c.memory_critical_threshold {
        seq![Candidate {
            level: AlertLevel::Critical,
            category: AlertCategory::System,
            title: "Critical Memory Usage"@,
            message: "Memory usage is critically high at "@ + dec_nat(memory_percent(m) as nat)
                + "% ("@ + dec_nat(m.memory_used_gb as nat) + "/"@
                + dec_nat(m.memory_total_gb as nat) + " GB)"@,
            source: "memory"@,
            value: Option::Some(memory_percent(m) as i64),
            threshold: Option::Some(c.memory_critical_threshold as i64),
        }]
    } else if memory_percent(m) >= c.memory_warning_threshold {
        seq![Candidate {
            level: AlertLevel::Warning,
            category: AlertCategory::System,
            title: "High Memory Usage"@,
            message: "Memory usage is high at "@ + dec_nat(memory_percent(m) as nat)
                + "% ("@ + dec_nat(m.memory_used_gb as nat) + "/"@
                + dec_nat(m.memory_total_gb as nat) + " GB)"@,
            source: "memory"@,
            value: Option::Some(memory_percent(m) as i64),
            threshold: Option::Some(c.memory_warning_threshold as i64),
        }]
    } else {
        Seq::empty()
    }
}

/// Candidates of the disk dimension.
pub open spec fn disk_candidates(m: SystemMetrics, c: SystemAlert) -> Seq<Candidate> {
    if !c.disk_enabled {
        Seq::empty()
    } else if m.disk_usage_percent >= c.disk_critical_threshold {
        seq![Candidate {
            level: AlertLevel::Critical,
            category: AlertCategory::System,
            title: "Critical Disk Usage"@,
            message: "Disk usage is critically high at "@ + dec_nat(m.disk_usage_percent as nat) + "%"@,
            source: "disk"@,
            value: Option::Some(m.disk_usage_percent as i64),
            threshold: Option::Some(c.disk_critical_threshold as i64),
        }]
    } else if m.disk_usage_percent >= c.disk_warning_threshold {
        seq![Candidate {
            level: AlertLevel::Warning,
            category: AlertCategory::System,
            title: "High Disk Usage"@,
            message: "Disk usage is high at "@ + dec_nat(m.disk_usage_percent as nat) + "%"@,
            source: "disk"@,
            value: Option::Some(m.disk_usage_percent as i64),
            threshold: Option::Some(c.disk_warning_threshold as i64),
        }]
    } else {
        Seq::empty()
    }
}

/// Candidates of the load dimension.
pub open spec fn load_candidates(m: SystemMetrics, c: SystemAlert) -> Seq<Candidate> {
    if !c.load_enabled {
        Seq::empty()
    } else if m.load_avg >= c.load_critical_threshold {
        seq![Candidate {
            level: AlertLevel::Critical,
            category: AlertCategory::System,
            title: "Critical Load Average"@,
            message: "Load average is critically high at "@ + dec_nat(m.load_avg as nat),
            source: "load"@,
            value: Option::Some(m.load_avg as i64),
            threshold: Option::Some(c.load_critical_threshold as i64),
        }]
    } else if m.load_avg >= c.load_warning_threshold {
        seq![Candidate {
            level: AlertLevel::Warning,
            category: AlertCategory::System,
            title: "High Load Average"@,
            message: "Load average is high at "@ + dec_nat(m.load_avg as nat),
            source: "load"@,
            value: Option::Some(m.load_avg as i64),
            threshold: Option::Some(c.load_warning_threshold as i64),
        }]
    } else {
        Seq::empty()
    }
}

/// Every candidate of the system metrics evaluator, in the fixed order
/// cpu, memory, disk, load.
pub open spec fn system_candidates(m: SystemMetrics, c: SystemAlert) -> Seq<Candidate> {
    cpu_candidates(m, c) + memory_candidates(m, c) + disk_candidates(m, c) + load_candidates(m, c)
}

/// Unready node count of a cluster reading, as an integer (negative when
/// the reading is inconsistent, in which case no node alert is raised).
pub open spec fn unhealthy_nodes(k: K8sClusterInfo) -> int {
    k.nodes_total - k.nodes_ready
}

/// Candidates of the Kubernetes evaluator: a node-health alert with
/// source `"k8s-nodes"` (critical when at least half the nodes are
/// unready), and a cluster-unreachable alert with source `"k8s-cluster"`.
/// Both can fire in the same cycle.
pub open spec fn kubernetes_candidates(k: K8sClusterInfo, enabled: bool) -> Seq<Candidate> {
    if !enabled {
        Seq::empty()
    } else {
        let nodes_part: Seq<Candidate> = if k.nodes_total > 0 && unhealthy_nodes(k) > 0 {
            seq![Candidate {
                level: if unhealthy_nodes(k) >= k.nodes_total / 2 {
                    AlertLevel::Critical
                } else {
                    AlertLevel::Warning
                },
                category: AlertCategory::Kubernetes,
                title: dec_nat(unhealthy_nodes(k) as nat) + " Nodes Not Ready"@,
                message: dec_nat(unhealthy_nodes(k) as nat) + " of "@
                    + dec_nat(k.nodes_total as nat) + " cluster nodes are not in Ready state"@,
                source: "k8s-nodes"@,
                value: Option::None,
                threshold: Option::None,
            }]
        } else {
            Seq::empty()
        };
        let cluster_part: Seq<Candidate> = if k.nodes_total == 0 && k.pods_running == 0 {
            seq![Candidate {
                level: AlertLevel::Critical,
                category: AlertCategory::Kubernetes,
                title: "Cluster Unreachable"@,
                message: "Unable to connect to Kubernetes cluster or cluster has no nodes"@,
                source: "k8s-cluster"@,
                value: Option::None,
                threshold: Option::None,
            }]
        } else {
            Seq::empty()
        };
        nodes_part + cluster_part
    }
}

/// Candidates of the KubeVirt evaluator: an informational alert with
/// source `"kubevirt-migration"` while any virtual machine is migrating.
pub open spec fn kubevirt_candidates(v: KubeVirtInfo, enabled: bool) -> Seq<Candidate> {
    if enabled && v.vms_migrating > 0 {
        seq![Candidate {
            level: AlertLevel::Info,
            category: AlertCategory::KubeVirt,
            title: dec_nat(v.vms_migrating as nat) + " VMs Migrating"@,
            message: dec_nat(v.vms_migrating as nat)
                + " virtual machines are currently migrating"@,
            source: "kubevirt-migration"@,
            value: Option::None,
            threshold: Option::None,
        }]
    } else {
        Seq::empty()
    }
}

/// Alerts of the cpu dimension at time `now_ms`.
fn cpu_alerts(m: &SystemMetrics, c: &SystemAlert, now_ms: i64) -> (r: Vec<Alert>)
    ensures
        realises(r@, cpu_candidates(*m, *c), now_ms),
{
    let mut out: Vec<Alert> = Vec::new();
    if c.cpu_enabled {
        if m.cpu_usage >= c.cpu_critical_threshold {
            let a = Alert::new(
                AlertLevel::Critical,
                AlertCategory::System,
                String::from_str("Critical CPU Usage"),
                join3("CPU usage is critically high at ", m.cpu_usage as u64, "%"),
                String::from_str("cpu"),
                now_ms,
            ).with_value(m.cpu_usage as i64, c.cpu_critical_threshold as i64);
            proof {
                assert(a@ =~~= alert_of_candidate(cpu_candidates(*m, *c)[0], now_ms, a.id.nonce));
            }
            out.push(a);
        } else if m.cpu_usage >= c.cpu_warning_threshold {
            let a = Alert::new(
                AlertLevel::Warning,
                AlertCategory::System,
                String::from_str("High CPU Usage"),
                join3("CPU usage is high at ", m.cpu_usage as u64, "%"),
                String::from_str("cpu"),
                now_ms,
            ).with_value(m.cpu_usage as i64, c.cpu_warning_threshold as i64);
            proof {
                assert(a@ =~~= alert_of_candidate(cpu_candidates(*m, *c)[0], now_ms, a.id.nonce));
            }
            out.push(a);
        }
    }
    out
}

/// Alerts of the memory dimension at time `now_ms`.
fn memory_alerts(m: &SystemMetrics, c: &SystemAlert, now_ms: i64) -> (r: Vec<Alert>)
    ensures
        realises(r@, memory_candidates(*m, *c), now_ms),
{
    let mut out: Vec<Alert> = Vec::new();
    if c.memory_enabled {
        let pct = m.memory_percent_of();
        if pct >= c.memory_critical_threshold as u64 {
            let a = Alert::new(
                AlertLevel::Critical,
                AlertCategory::System,
                String::from_str("Critical Memory Usage"),
                memory_message("Memory usage is critically high at ", pct, m),
                String::from_str("memory"),
                now_ms,
            ).with_value(pct as i64, c.memory_critical_threshold as i64);
            proof {
                assert(a@ =~~= alert_of_candidate(memory_candidates(*m, *c)[0], now_ms, a.id.nonce));
            }
            out.push(a);
        } else if pct >= c.memory_warning_threshold as u64 {
            let a = Alert::new(
                AlertLevel::Warning,
                AlertCategory::System,
                String::from_str("High Memory Usage"),
                memory_message("Memory usage is high at ", pct, m),
                String::from_str("memory"),
                now_ms,
            ).with_value(pct as i64, c.memory_warning_threshold as i64);
            proof {
                assert(a@ =~~= alert_of_candidate(memory_candidates(*m, *c)[0], now_ms, a.id.nonce));
            }
            out.push(a);
        }
    }
    out
}

/// The memory alert message: the percentage, then used and total
/// gigabytes in parentheses.
fn memory_message(prefix: &str, pct: u64, m: &SystemMetrics) -> (r: String)
    ensures
        r@ == prefix@ + dec_nat(pct as nat) + "% ("@ + dec_nat(m.memory_used_gb as nat) + "/"@
            + dec_nat(m.memory_total_gb as nat) + " GB)"@,
{
    let mut s = join5(prefix, pct, "% (", m.memory_used_gb as u64, "/");
    s.append(crate::text::format_u64(m.memory_total_gb as u64).as_str());
    s.append(" GB)");
    s
}

/// Alerts of the disk dimension at time `now_ms`.
fn disk_alerts(m: &SystemMetrics, c: &SystemAlert, now_ms: i64) -> (r: Vec<Alert>)
    ensures
        realises(r@, disk_candidates(*m, *c), now_ms),
{
    let mut out: Vec<Alert> = Vec::new();
    if c.disk_enabled {
        if m.disk_usage_percent >= c.disk_critical_threshold {
            let a = Alert::new(
                AlertLevel::Critical,
                AlertCategory::System,
                String::from_str("Critical Disk Usage"),
                join3("Disk usage is critically high at ", m.disk_usage_percent as u64, "%"),
                String::from_str("disk"),
                now_ms,
            ).with_value(m.disk_usage_percent as i64, c.disk_critical_threshold as i64);
            proof {
                assert(a@ =~~= alert_of_candidate(disk_candidates(*m, *c)[0], now_ms, a.id.nonce));
            }
            out.push(a);
        } else if m.disk_usage_percent >= c.disk_warning_threshold {
            let a = Alert::new(
                AlertLevel::Warning,
                AlertCategory::System,
                String::from_str("High Disk Usage"),
                join3("Disk usage is high at ", m.disk_usage_percent as u64, "%"),
                String::from_str("disk"),
                now_ms,
            ).with_value(m.disk_usage_percent as i64, c.disk_warning_threshold as i64);
            proof {
                assert(a@ =~~= alert_of_candidate(disk_candidates(*m, *c)[0], now_ms, a.id.nonce));
            }
            out.push(a);
        }
    }
    out
}

/// Alerts of the load dimension at time `now_ms`.
fn load_alerts(m: &SystemMetrics, c: &SystemAlert, now_ms: i64) -> (r: Vec<Alert>)
    ensures
        realises(r@, load_candidates(*m, *c), now_ms),
{
    let mut out: Vec<Alert> = Vec::new();
    if c.load_enabled {
        if m.load_avg >= c.load_critical_threshold {
            let a = Alert::new(
                AlertLevel::Critical,
                AlertCategory::System,
                String::from_str("Critical Load Average"),
                crate::text::join2("Load average is critically high at ", m.load_avg as u64),
                String::from_str("load"),
                now_ms,
            ).with_value(m.load_avg as i64, c.load_critical_threshold as i64);
            proof {
                assert(a@ =~~= alert_of_candidate(load_candidates(*m, *c)[0], now_ms, a.id.nonce));
            }
            out.push(a);
        } else if m.load_avg >= c.load_warning_threshold {
            let a = Alert::new(
                AlertLevel::Warning,
                AlertCategory::System,
                String::from_str("High Load Average"),
                crate::text::join2("Load average is high at ", m.load_avg as u64),
                String::from_str("load"),
                now_ms,
            ).with_value(m.load_avg as i64, c.load_warning_threshold as i64);
            proof {
                assert(a@ =~~= alert_of_candidate(load_candidates(*m, *c)[0], now_ms, a.id.nonce));
            }
            out.push(a);
        }
    }
    out
}

/// The system metrics rule: judges one metrics snapshot against its
/// threshold configuration.
pub struct SystemMetricsRule {
    pub metrics: SystemMetrics,
    pub config: SystemAlert,
}

impl SystemMetricsRule {
    /// Emits one freshly created alert per system candidate, in the
    /// fixed order cpu, memory, disk, load.
    pub fn evaluate(&self, now_ms: i64) -> (r: Vec<Alert>)
        ensures
            realises(r@, system_candidates(self.metrics, self.config), now_ms),
    {
        let mut r = cpu_alerts(&self.metrics, &self.config, now_ms);
        let mut v = memory_alerts(&self.metrics, &self.config, now_ms);
        r.append(&mut v);
        let mut v = disk_alerts(&self.metrics, &self.config, now_ms);
        r.append(&mut v);
        let mut v = load_alerts(&self.metrics, &self.config, now_ms);
        r.append(&mut v);
        r
    }

    /// Name of this rule.
    pub fn name(&self) -> (r: &str)
        ensures
            r@ == "system_metrics"@,
    {
        "system_metrics"
    }
}

/// The Kubernetes cluster rule: judges one cluster reading.
pub struct KubernetesRule {
    pub cluster_info: K8sClusterInfo,
    pub enabled: bool,
}

impl KubernetesRule {
    /// Emits one freshly created alert per Kubernetes candidate.
    pub fn evaluate(&self, now_ms: i64) -> (r: Vec<Alert>)
        ensures
            realises(r@, kubernetes_candidates(self.cluster_info, self.enabled), now_ms),
    {
        let mut out: Vec<Alert> = Vec::new();
        if !self.enabled {
            return out;
        }
        let k = &self.cluster_info;
        let unhealthy: i64 = (k.nodes_total as i64) - (k.nodes_ready as i64);
        if k.nodes_total > 0 && unhealthy > 0 {
            let level = if unhealthy >= (k.nodes_total / 2) as i64 {
                AlertLevel::Critical
            } else {
                AlertLevel::Warning
            };
            let a = Alert::new(
                level,
                AlertCategory::Kubernetes,
                num_join(unhealthy as u64, " Nodes Not Ready"),
                join5("", unhealthy as u64, " of ", k.nodes_total as u64,
                    " cluster nodes are not in Ready state"),
                String::from_str("k8s-nodes"),
                now_ms,
            );
            proof {
                reveal_strlit("");
                assert(a@.message =~= dec_nat(unhealthy_nodes(*k) as nat) + " of "@
                    + dec_nat(k.nodes_total as nat) + " cluster nodes are not in Ready state"@);
                assert(a@ =~~= alert_of_candidate(
                    kubernetes_candidates(self.cluster_info, self.enabled)[0], now_ms, a.id.nonce));
            }
            out.push(a);
        }
        if k.nodes_total == 0 && k.pods_running == 0 {
            let ghost idx: int = out@.len() as int;
            let a = Alert::new(
                AlertLevel::Critical,
                AlertCategory::Kubernetes,
                String::from_str("Cluster Unreachable"),
                String::from_str("Unable to connect to Kubernetes cluster or cluster has no nodes"),
                String::from_str("k8s-cluster"),
                now_ms,
            );
            proof {
                assert(a@ =~~= alert_of_candidate(
                    kubernetes_candidates(self.cluster_info, self.enabled)[idx], now_ms, a.id.nonce));
            }
            out.push(a);
        }
        out
    }

    /// Name of this rule.
    pub fn name(&self) -> (r: &str)
        ensures
            r@ == "kubernetes_cluster"@,
    {
        "kubernetes_cluster"
    }
}

/// The KubeVirt rule: judges one virtual machine reading.
pub struct KubeVirtRule {
    pub kubevirt_info: KubeVirtInfo,
    pub enabled: bool,
}

impl KubeVirtRule {
    /// Emits one freshly created alert per KubeVirt candidate.
    pub fn evaluate(&self, now_ms: i64) -> (r: Vec<Alert>)
        ensures
            realises(r@, kubevirt_candidates(self.kubevirt_info, self.enabled), now_ms),
    {
        let mut out: Vec<Alert> = Vec::new();
        if self.enabled && self.kubevirt_info.vms_migrating > 0 {
            let n = self.kubevirt_info.vms_migrating;
            let a = Alert::new(
                AlertLevel::Info,
                AlertCategory::KubeVirt,
                num_join(n as u64, " VMs Migrating"),
                num_join(n as u64, " virtual machines are currently migrating"),
                String::from_str("kubevirt-migration"),
                now_ms,
            );
            proof {
                assert(a@ =~~= alert_of_candidate(
                    kubevirt_candidates(self.kubevirt_info, self.enabled)[0], now_ms, a.id.nonce));
            }
            out.push(a);
        }
        out
    }

    /// Name of this rule.
    pub fn name(&self) -> (r: &str)
        ensures
            r@ == "kubevirt_vms"@,
    {
        "kubevirt_vms"
    }
}

} // verus!
