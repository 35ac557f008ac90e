//! Alert entity model: severity levels, categories, lifecycle status, and
//! the alert record itself.

use vstd::prelude::*;

verus! {

/// Severity of an alert, ordered from least to most severe:
/// `Info < Warning < Error < Critical`.
#[derive(Debug, Clone, Copy, PartialEq, Eq, Structural)]
pub enum AlertLevel {
    Info,
    Warning,
    Error,
    Critical,
}

/// Subsystem classification of an alert; part of the deduplication key.
#[derive(Debug, Clone, Copy, PartialEq, Eq, Structural)]
pub enum AlertCategory {
    System,
    Network,
    Kubernetes,
    KubeVirt,
    Service,
}

/// Lifecycle state of an alert. `Active` is the initial state;
/// `Dismissed` and `Resolved` are terminal.
#[derive(Debug, Clone, Copy, PartialEq, Eq, Structural)]
pub enum AlertStatus {
    Active,
    Acknowledged,
    Dismissed,
    Resolved,
}

/// Numeric rank of a severity level; greater means more severe.
pub open spec fn level_rank(level: AlertLevel) -> int {
    match level {
        AlertLevel::Info => 0,
        AlertLevel::Warning => 1,
        AlertLevel::Error => 2,
        AlertLevel::Critical => 3,
    }
}

impl AlertLevel {
    /// Upper-case display name of the level.
    pub fn as_str(&self) -> (r: &str)
        ensures
            *self == AlertLevel::Info ==> r@ == "INFO"@,
            *self == AlertLevel::Warning ==> r@ == "WARNING"@,
            *self == AlertLevel::Error ==> r@ == "ERROR"@,
            *self == AlertLevel::Critical ==> r@ == "CRITICAL"@,
    {
        match self {
            AlertLevel::Info => "INFO",
            AlertLevel::Warning => "WARNING",
            AlertLevel::Error => "ERROR",
            AlertLevel::Critical => "CRITICAL",
        }
    }

    /// Numeric rank of this level; greater means more severe.
    pub fn rank(&self) -> (r: u8)
        ensures
            r as int == level_rank(*self),
    {
        match self {
            AlertLevel::Info => 0,
            AlertLevel::Warning => 1,
            AlertLevel::Error => 2,
            AlertLevel::Critical => 3,
        }
    }
}

impl AlertCategory {
    /// Lower-case display name of the category.
    pub fn as_str(&self) -> (r: &str)
        ensures
            *self == AlertCategory::System ==> r@ == "system"@,
            *self == AlertCategory::Network ==> r@ == "network"@,
            *self == AlertCategory::Kubernetes ==> r@ == "kubernetes"@,
            *self == AlertCategory::KubeVirt ==> r@ == "kubevirt"@,
            *self == AlertCategory::Service ==> r@ == "service"@,
    {
        match self {
            AlertCategory::System => "system",
            AlertCategory::Network => "network",
            AlertCategory::Kubernetes => "kubernetes",
            AlertCategory::KubeVirt => "kubevirt",
            AlertCategory::Service => "service",
        }
    }
}

/// Unique identifier of an alert: the category it was raised under, the
/// millisecond timestamp of its creation, and a random nonce. A fresh
/// identifier is generated for every newly admitted alert.
#[derive(Debug, Clone, Copy, PartialEq, Eq, Structural)]
pub struct AlertId {
    pub category: AlertCategory,
    pub at_ms: i64,
    pub nonce: u32,
}

/// Relies on `rand::random`: draws a value from the thread-local generator.
/// Nothing is promised of the result; every caller is verified for every
/// possible outcome.
pub assume_specification<T>[ rand::random::<T> ]() -> (r: T)
    where
        rand::distributions::Standard: rand::distributions::Distribution<T>,
;

/// Descriptive details attached to an alert. The `source` tag names the
/// metric dimension or subsystem concerned (for example `"cpu"` or
/// `"k8s-nodes"`) and is the dispatch key for deduplication and
/// auto-resolution.
#[derive(Debug, Clone)]
pub struct AlertMetadata {
    pub source: String,
    pub value: Option<i64>,
    pub threshold: Option<i64>,
    pub node_name: Option<String>,
    pub pod_name: Option<String>,
    pub vm_name: Option<String>,
}

/// Mathematical image of [`AlertMetadata`], with strings as character
/// sequences.
#[verifier::ext_equal]
pub struct AlertMetadataView {
    pub source: Seq<char>,
    pub value: Option<i64>,
    pub threshold: Option<i64>,
    pub node_name: Option<Seq<char>>,
    pub pod_name: Option<Seq<char>>,
    pub vm_name: Option<Seq<char>>,
}

/// View of an optional string as an optional character sequence.
pub open spec fn opt_str_view(o: Option<String>) -> Option<Seq<char>> {
    match o {
        Option::Some(s) => Option::Some(s@),
        Option::None => Option::None,
    }
}

impl View for AlertMetadata {
    type V = AlertMetadataView;

    open spec fn view(&self) -> AlertMetadataView {
        AlertMetadataView {
            source: self.source@,
            value: self.value,
            threshold: self.threshold,
            node_name: opt_str_view(self.node_name),
            pod_name: opt_str_view(self.pod_name),
            vm_name: opt_str_view(self.vm_name),
        }
    }
}

/// A derived health alert. The trigger timestamp is set once at creation;
/// the acknowledge and resolve timestamps are set exactly once, at the
/// corresponding lifecycle transition.
#[derive(Debug, Clone)]
pub struct Alert {
    pub id: AlertId,
    pub level: AlertLevel,
    pub category: AlertCategory,
    pub status: AlertStatus,
    pub title: String,
    pub message: String,
    pub triggered_at: i64,
    pub acknowledged_at: Option<i64>,
    pub resolved_at: Option<i64>,
    pub metadata: AlertMetadata,
}

/// Mathematical image of [`Alert`], with strings as character sequences.
#[verifier::ext_equal]
pub struct AlertView {
    pub id: AlertId,
    pub level: AlertLevel,
    pub category: AlertCategory,
    pub status: AlertStatus,
    pub title: Seq<char>,
    pub message: Seq<char>,
    pub triggered_at: i64,
    pub acknowledged_at: Option<i64>,
    pub resolved_at: Option<i64>,
    pub metadata: AlertMetadataView,
}

impl View for Alert {
    type V = AlertView;

    open spec fn view(&self) -> AlertView {
        AlertView {
            id: self.id,
            level: self.level,
            category: self.category,
            status: self.status,
            title: self.title@,
            message: self.message@,
            triggered_at: self.triggered_at,
            acknowledged_at: self.acknowledged_at,
            resolved_at: self.resolved_at,
            metadata: self.metadata@,
        }
    }
}

/// The alert that a rule raises at time `now_ms` with nonce `nonce`:
/// freshly `Active`, with no timestamps but the trigger time and no
/// metadata beyond the source tag.
pub open spec fn fresh_alert(
    level: AlertLevel,
    category: AlertCategory,
    title: Seq<char>,
    message: Seq<char>,
    source: Seq<char>,
    now_ms: i64,
    nonce: u32,
) -> AlertView {
    AlertView {
        id: AlertId { category, at_ms: now_ms, nonce },
        level,
        category,
        status: AlertStatus::Active,
        title,
        message,
        triggered_at: now_ms,
        acknowledged_at: Option::None,
        resolved_at: Option::None,
        metadata: AlertMetadataView {
            source,
            value: Option::None,
            threshold: Option::None,
            node_name: Option::None,
            pod_name: Option::None,
            vm_name: Option::None,
        },
    }
}

/// The image of an alert after acknowledgement at `now_ms`: only an
/// `Active` alert changes, gaining status `Acknowledged` and an
/// acknowledge timestamp.
pub open spec fn acknowledged_view(a: AlertView, now_ms: i64) -> AlertView {
    if a.status == AlertStatus::Active {
        AlertView {
            status: AlertStatus::Acknowledged,
            acknowledged_at: Option::Some(now_ms),
            ..a
        }
    } else {
        a
    }
}

/// The image of an alert after dismissal: status `Dismissed`, everything
/// else untouched.
pub open spec fn dismissed_view(a: AlertView) -> AlertView {
    AlertView { status: AlertStatus::Dismissed, ..a }
}

/// The image of an alert after auto-resolution at `now_ms`: status
/// `Resolved` and a resolve timestamp.
pub open spec fn resolved_view(a: AlertView, now_ms: i64) -> AlertView {
    AlertView {
        status: AlertStatus::Resolved,
        resolved_at: Option::Some(now_ms),
        ..a
    }
}

/// Minutes elapsed from `start_ms` to `end_ms`, truncated toward zero;
/// negative when `end_ms` lies before `start_ms`.
pub open spec fn minutes_between(start_ms: i64, end_ms: i64) -> int {
    if end_ms >= start_ms {
        (end_ms - start_ms) / 60000
    } else {
        -((start_ms - end_ms) / 60000)
    }
}

impl Alert {
    /// Creates a fresh `Active` alert triggered at `now_ms`, under an
    /// identifier derived from the category, the trigger time, and a
    /// random nonce.
    pub fn new(
        level: AlertLevel,
        category: AlertCategory,
        title: String,
        message: String,
        source: String,
        now_ms: i64,
    ) -> (r: Self)
        ensures
            r@ == fresh_alert(level, category, title@, message@, source@, now_ms, r.id.nonce),
    {
        let nonce = rand::random::<u32>();
        Self {
            id: AlertId { category, at_ms: now_ms, nonce },
            level,
            category,
            status: AlertStatus::Active,
            title,
            message,
            triggered_at: now_ms,
            acknowledged_at: None,
            resolved_at: None,
            metadata: AlertMetadata {
                source,
                value: None,
                threshold: None,
                node_name: None,
                pod_name: None,
                vm_name: None,
            },
        }
    }

    /// Records the observed value and the threshold it crossed.
    pub fn with_value(self, value: i64, threshold: i64) -> (r: Self)
        ensures
            r@ == (AlertView {
                metadata: AlertMetadataView {
                    value: Option::Some(value),
                    threshold: Option::Some(threshold),
                    ..self@.metadata
                },
                ..self@
            }),
    {
        let mut a = self;
        a.metadata.value = Some(value);
        a.metadata.threshold = Some(threshold);
        a
    }

    /// Records the node the alert concerns.
    pub fn with_node(self, node_name: String) -> (r: Self)
        ensures
            r@ == (AlertView {
                metadata: AlertMetadataView {
                    node_name: Option::Some(node_name@),
                    ..self@.metadata
                },
                ..self@
            }),
    {
        let mut a = self;
        a.metadata.node_name = Some(node_name);
        a
    }

    /// Records the pod the alert concerns.
    pub fn with_pod(self, pod_name: String) -> (r: Self)
        ensures
            r@ == (AlertView {
                metadata: AlertMetadataView {
                    pod_name: Option::Some(pod_name@),
                    ..self@.metadata
                },
                ..self@
            }),
    {
        let mut a = self;
        a.metadata.pod_name = Some(pod_name);
        a
    }

    /// Records the virtual machine the alert concerns.
    pub fn with_vm(self, vm_name: String) -> (r: Self)
        ensures
            r@ == (AlertView {
                metadata: AlertMetadataView {
                    vm_name: Option::Some(vm_name@),
                    ..self@.metadata
                },
                ..self@
            }),
    {
        let mut a = self;
        a.metadata.vm_name = Some(vm_name);
        a
    }

    /// Acknowledges the alert at `now_ms`: an `Active` alert becomes
    /// `Acknowledged` with an acknowledge timestamp; any other state is
    /// left untouched.
    pub fn acknowledge(&mut self, now_ms: i64)
        ensures
            final(self)@ == acknowledged_view(old(self)@, now_ms),
    {
        if self.status == AlertStatus::Active {
            self.status = AlertStatus::Acknowledged;
            self.acknowledged_at = Some(now_ms);
        }
    }

    /// Marks the alert `Dismissed`.
    pub fn dismiss(&mut self)
        ensures
            final(self)@ == dismissed_view(old(self)@),
    {
        self.status = AlertStatus::Dismissed;
    }

    /// Marks the alert `Resolved` at `now_ms`, stamping the resolve time.
    pub fn resolve(&mut self, now_ms: i64)
        ensures
            final(self)@ == resolved_view(old(self)@, now_ms),
    {
        self.status = AlertStatus::Resolved;
        self.resolved_at = Some(now_ms);
    }

    /// Whether the alert still occupies the active set, that is, has not
    /// reached a terminal state.
    pub fn is_active(&self) -> (r: bool)
        ensures
            r == (self.status == AlertStatus::Active
                || self.status == AlertStatus::Acknowledged),
    {
        matches!(self.status, AlertStatus::Active | AlertStatus::Acknowledged)
    }

    /// Minutes from the trigger time to the resolve time, or to `now_ms`
    /// for an unresolved alert.
    pub fn duration_minutes(&self, now_ms: i64) -> (r: i64)
        ensures
            r as int == match self.resolved_at {
                Option::Some(end) => minutes_between(self.triggered_at, end),
                Option::None => minutes_between(self.triggered_at, now_ms),
            },
    {
        let end: i64 = match self.resolved_at {
            Some(t) => t,
            None => now_ms,
        };
        if end >= self.triggered_at {
            let diff: i128 = (end as i128) - (self.triggered_at as i128);
            (diff / 60000) as i64
        } else {
            let diff: i128 = (self.triggered_at as i128) - (end as i128);
            -((diff / 60000) as i64)
        }
    }
}

} // verus!
