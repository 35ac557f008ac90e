//! Verified core of a hypervisor monitoring dashboard: the alerting engine.
//!
//! Rule evaluators turn metric snapshots into alert candidates; the alert
//! manager deduplicates them, tracks alert lifecycle, auto-resolves cleared
//! conditions with hysteresis, and keeps a bounded history. All temporal
//! logic takes the current time as an argument, so behaviour is deterministic
//! and fully specified.

pub mod alert;
pub mod laws;
pub mod logs;
pub mod manager;
pub mod rules;
pub mod snapshot;
pub mod text;

pub use alert::{Alert, AlertCategory, AlertId, AlertLevel, AlertMetadata, AlertStatus};
pub use logs::LogCollector;
pub use manager::AlertManager;
pub use rules::{AlertCondition, KubeVirtRule, KubernetesRule, SystemAlert, SystemMetricsRule, ThresholdRule};
pub use snapshot::{K8sClusterInfo, KubeVirtInfo, LogEntry, SystemMetrics};
