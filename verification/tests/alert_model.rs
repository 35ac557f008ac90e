use hypervisor_core::{Alert, AlertCategory, AlertLevel, AlertStatus};

fn sample_alert(now_ms: i64) -> Alert {
    Alert::new(
        AlertLevel::Warning,
        AlertCategory::System,
        "High CPU Usage".to_string(),
        "CPU usage is high at 85%".to_string(),
        "cpu".to_string(),
        now_ms,
    )
}

#[test]
fn new_alert_starts_active_with_trigger_time() {
    let a = sample_alert(1_000);
    assert_eq!(a.status, AlertStatus::Active);
    assert_eq!(a.triggered_at, 1_000);
    assert_eq!(a.acknowledged_at, None);
    assert_eq!(a.resolved_at, None);
    assert_eq!(a.metadata.source, "cpu");
    assert_eq!(a.metadata.value, None);
    assert_eq!(a.metadata.threshold, None);
    assert_eq!(a.id.category, AlertCategory::System);
    assert_eq!(a.id.at_ms, 1_000);
}

#[test]
fn builders_fill_metadata() {
    let a = sample_alert(5)
        .with_value(85, 80)
        .with_node("node-a".to_string())
        .with_pod("pod-b".to_string())
        .with_vm("vm-c".to_string());
    assert_eq!(a.metadata.value, Some(85));
    assert_eq!(a.metadata.threshold, Some(80));
    assert_eq!(a.metadata.node_name.as_deref(), Some("node-a"));
    assert_eq!(a.metadata.pod_name.as_deref(), Some("pod-b"));
    assert_eq!(a.metadata.vm_name.as_deref(), Some("vm-c"));
}

#[test]
fn acknowledge_only_applies_to_active() {
    let mut a = sample_alert(0);
    a.acknowledge(42);
    assert_eq!(a.status, AlertStatus::Acknowledged);
    assert_eq!(a.acknowledged_at, Some(42));
    // A second acknowledge does not restamp the time.
    a.acknowledge(99);
    assert_eq!(a.acknowledged_at, Some(42));
}

#[test]
fn resolve_stamps_time_and_dismiss_does_not() {
    let mut a = sample_alert(0);
    a.resolve(7_000);
    assert_eq!(a.status, AlertStatus::Resolved);
    assert_eq!(a.resolved_at, Some(7_000));

    let mut b = sample_alert(0);
    b.dismiss();
    assert_eq!(b.status, AlertStatus::Dismissed);
    assert_eq!(b.resolved_at, None);
}

#[test]
fn is_active_tracks_lifecycle() {
    let mut a = sample_alert(0);
    assert!(a.is_active());
    a.acknowledge(1);
    assert!(a.is_active());
    a.dismiss();
    assert!(!a.is_active());
    let mut b = sample_alert(0);
    b.resolve(1);
    assert!(!b.is_active());
}

#[test]
fn duration_minutes_uses_resolve_time_or_now() {
    let mut a = sample_alert(60_000);
    // Unresolved: measured against the supplied current time.
    assert_eq!(a.duration_minutes(60_000 + 180_000), 3);
    a.resolve(60_000 + 120_000);
    // Resolved: measured against the resolve time, whatever now is.
    assert_eq!(a.duration_minutes(999_999_999), 2);
    // A clock that went backwards yields a negative duration.
    let b = sample_alert(600_000);
    assert_eq!(b.duration_minutes(480_000), -2);
}

#[test]
fn level_and_category_names() {
    assert_eq!(AlertLevel::Info.as_str(), "INFO");
    assert_eq!(AlertLevel::Warning.as_str(), "WARNING");
    assert_eq!(AlertLevel::Error.as_str(), "ERROR");
    assert_eq!(AlertLevel::Critical.as_str(), "CRITICAL");
    assert_eq!(AlertCategory::System.as_str(), "system");
    assert_eq!(AlertCategory::Network.as_str(), "network");
    assert_eq!(AlertCategory::Kubernetes.as_str(), "kubernetes");
    assert_eq!(AlertCategory::KubeVirt.as_str(), "kubevirt");
    assert_eq!(AlertCategory::Service.as_str(), "service");
}

#[test]
fn decimal_rendering_is_exact() {
    assert_eq!(hypervisor_core::text::format_u64(0), "0");
    assert_eq!(hypervisor_core::text::format_u64(7), "7");
    assert_eq!(hypervisor_core::text::format_u64(95), "95");
    assert_eq!(hypervisor_core::text::format_u64(18446744073709551615), "18446744073709551615");
    assert_eq!(hypervisor_core::text::format_i64(-1), "-1");
    assert_eq!(hypervisor_core::text::format_i64(-9223372036854775808), "-9223372036854775808");
    assert_eq!(hypervisor_core::text::format_i64(1000), "1000");
}
