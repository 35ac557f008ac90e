use hypervisor_core::{
    AlertLevel, AlertManager, AlertStatus, K8sClusterInfo, KubeVirtInfo, SystemAlert,
    SystemMetrics,
};

fn quiet_metrics() -> SystemMetrics {
    SystemMetrics::default()
}

fn metrics_with_cpu(cpu: u32) -> SystemMetrics {
    SystemMetrics { cpu_usage: cpu, ..SystemMetrics::default() }
}

fn healthy_cluster() -> K8sClusterInfo {
    K8sClusterInfo { nodes_ready: 3, nodes_total: 3, pods_running: 40, services: 5 }
}

fn idle_vms() -> KubeVirtInfo {
    KubeVirtInfo { vms_running: 2, vms_stopped: 0, vms_migrating: 0 }
}

#[test]
fn evaluation_admits_a_cpu_alert() {
    let mut m = AlertManager::new();
    m.evaluate(&metrics_with_cpu(97), &healthy_cluster(), &idle_vms(), 1_000);
    assert_eq!(m.active_count(), 1);
    assert!(m.has_active_alerts());
    assert!(m.has_critical_alerts());
    let active = m.get_active_alerts();
    assert_eq!(active[0].level, AlertLevel::Critical);
    assert_eq!(active[0].metadata.source, "cpu");
    assert_eq!(active[0].triggered_at, 1_000);
}

#[test]
fn dedup_window_suppresses_the_second_alert() {
    let mut m = AlertManager::new();
    m.evaluate(&metrics_with_cpu(97), &healthy_cluster(), &idle_vms(), 0);
    // One minute later, still inside the 300 s window: no second alert.
    m.evaluate(&metrics_with_cpu(97), &healthy_cluster(), &idle_vms(), 60_000);
    assert_eq!(m.active_count(), 1);
    let (critical, error, warning, info) = m.get_alert_counts();
    assert_eq!((critical, error, warning, info), (1, 0, 0, 0));
}

#[test]
fn expired_dedup_window_admits_a_second_independent_alert() {
    let mut m = AlertManager::new();
    m.evaluate(&metrics_with_cpu(97), &healthy_cluster(), &idle_vms(), 0);
    // 301 s later the window has elapsed: a new, independently tracked
    // alert joins the still-active first one.
    m.evaluate(&metrics_with_cpu(97), &healthy_cluster(), &idle_vms(), 301_000);
    assert_eq!(m.active_count(), 2);
}

#[test]
fn hysteresis_keeps_and_then_resolves_a_warning() {
    let mut m = AlertManager::new();
    m.evaluate(&metrics_with_cpu(85), &healthy_cluster(), &idle_vms(), 0);
    assert_eq!(m.active_count(), 1);
    assert_eq!(m.get_active_alerts()[0].level, AlertLevel::Warning);
    assert_eq!(m.get_active_alerts()[0].metadata.threshold, Some(80));

    // 76 is not yet below the cutoff of 75: the alert stays active.
    m.evaluate(&metrics_with_cpu(76), &healthy_cluster(), &idle_vms(), 10_000);
    assert_eq!(m.active_count(), 1);
    assert_eq!(m.get_history().len(), 0);

    // 74 is below the cutoff: the alert auto-resolves into history.
    m.evaluate(&metrics_with_cpu(74), &healthy_cluster(), &idle_vms(), 20_000);
    assert_eq!(m.active_count(), 0);
    let history = m.get_history();
    assert_eq!(history.len(), 1);
    assert_eq!(history[0].status, AlertStatus::Resolved);
    assert_eq!(history[0].resolved_at, Some(20_000));
}

#[test]
fn alert_without_threshold_metadata_never_auto_resolves() {
    let mut m = AlertManager::new();
    // A node-health alert carries no threshold metadata; its own
    // resolve predicate clears it when all nodes are ready again.
    let degraded = K8sClusterInfo { nodes_ready: 2, nodes_total: 3, pods_running: 40, services: 5 };
    m.evaluate(&quiet_metrics(), &degraded, &idle_vms(), 0);
    assert_eq!(m.active_count(), 1);
    m.evaluate(&quiet_metrics(), &healthy_cluster(), &idle_vms(), 10_000);
    assert_eq!(m.active_count(), 0);
    assert_eq!(m.get_history().len(), 1);
    assert_eq!(m.get_history()[0].status, AlertStatus::Resolved);
}

#[test]
fn history_cap_keeps_the_most_recent_thousand() {
    let mut m = AlertManager::new();
    let mut t: i64 = 0;
    let mut trigger_times = Vec::new();
    for _ in 0..1001 {
        m.evaluate(&metrics_with_cpu(97), &healthy_cluster(), &idle_vms(), t);
        assert_eq!(m.active_count(), 1);
        let id = m.get_active_alerts()[0].id;
        trigger_times.push(t);
        m.dismiss_alert(&id);
        assert_eq!(m.active_count(), 0);
        t += 301_000;
    }
    assert_eq!(m.get_history().len(), 1001);
    // The next retention pass trims the history to the cap, dropping
    // the oldest entry first. 1 s after the last cycle nothing new is
    // admitted (dedup window) and nothing has aged out.
    m.evaluate(&metrics_with_cpu(97), &healthy_cluster(), &idle_vms(), t - 301_000 + 1_000);
    let history = m.get_history();
    assert_eq!(history.len(), 1000);
    assert_eq!(history[0].triggered_at, trigger_times[1]);
    assert_eq!(history[999].triggered_at, trigger_times[1000]);
}

#[test]
fn history_entries_older_than_seven_days_are_purged() {
    let mut m = AlertManager::new();
    m.evaluate(&metrics_with_cpu(97), &healthy_cluster(), &idle_vms(), 0);
    let id = m.get_active_alerts()[0].id;
    m.dismiss_alert(&id);
    assert_eq!(m.get_history().len(), 1);
    // Just under seven days later the entry survives retention.
    let almost = 7 * 24 * 3600 * 1000 - 1;
    m.evaluate(&quiet_metrics(), &healthy_cluster(), &idle_vms(), almost);
    assert_eq!(m.get_history().len(), 1);
    // Past seven days it is purged even though the cap is far away.
    let past = 7 * 24 * 3600 * 1000 + 1;
    m.evaluate(&quiet_metrics(), &healthy_cluster(), &idle_vms(), past);
    assert_eq!(m.get_history().len(), 0);
}

#[test]
fn active_alerts_sort_critical_first_then_most_recent() {
    let mut m = AlertManager::new();
    // Critical cpu and an informational migration alert at t=0.
    let migrating = KubeVirtInfo { vms_running: 2, vms_stopped: 0, vms_migrating: 1 };
    m.evaluate(&metrics_with_cpu(100), &healthy_cluster(), &migrating, 0);
    // A warning disk alert 10 s later, inside every dedup window.
    let disky = SystemMetrics { cpu_usage: 100, disk_usage_percent: 86, ..SystemMetrics::default() };
    m.evaluate(&disky, &healthy_cluster(), &migrating, 10_000);
    assert_eq!(m.active_count(), 3);
    let active = m.get_active_alerts();
    assert_eq!(active[0].level, AlertLevel::Critical);
    assert_eq!(active[1].level, AlertLevel::Warning);
    assert_eq!(active[2].level, AlertLevel::Info);
}

#[test]
fn equal_levels_sort_most_recent_first() {
    let mut m = AlertManager::new();
    let disky = SystemMetrics { disk_usage_percent: 86, ..SystemMetrics::default() };
    m.evaluate(&disky, &healthy_cluster(), &idle_vms(), 0);
    // Disk stays high so the first alert neither re-fires (dedup) nor
    // auto-resolves; the load dimension fires a second warning.
    let loady = SystemMetrics { disk_usage_percent: 86, load_avg: 12, ..SystemMetrics::default() };
    m.evaluate(&loady, &healthy_cluster(), &idle_vms(), 10_000);
    let active = m.get_active_alerts();
    assert_eq!(active.len(), 2);
    assert_eq!(active[0].metadata.source, "load");
    assert_eq!(active[0].triggered_at, 10_000);
    assert_eq!(active[1].metadata.source, "disk");
    assert_eq!(active[1].triggered_at, 0);
}

#[test]
fn acknowledge_then_dismiss_preserves_the_acknowledge_stamp() {
    let mut m = AlertManager::new();
    m.evaluate(&metrics_with_cpu(97), &healthy_cluster(), &idle_vms(), 0);
    let id = m.get_active_alerts()[0].id;

    m.acknowledge_alert(&id, 5_000);
    let a = m.get_alert(&id).expect("alert should still be active");
    assert_eq!(a.status, AlertStatus::Acknowledged);
    assert_eq!(a.acknowledged_at, Some(5_000));
    // An acknowledged critical alert no longer counts as critical.
    assert!(!m.has_critical_alerts());
    assert!(m.has_active_alerts());

    m.dismiss_alert(&id);
    assert_eq!(m.active_count(), 0);
    assert!(m.get_alert(&id).is_none());
    let history = m.get_history();
    assert_eq!(history.len(), 1);
    assert_eq!(history[0].status, AlertStatus::Dismissed);
    assert_eq!(history[0].acknowledged_at, Some(5_000));
    assert_eq!(history[0].resolved_at, None);
}

#[test]
fn acknowledge_and_dismiss_of_unknown_ids_are_no_ops() {
    let mut m = AlertManager::new();
    m.evaluate(&metrics_with_cpu(97), &healthy_cluster(), &idle_vms(), 0);
    let mut bogus = m.get_active_alerts()[0].id;
    bogus.nonce = bogus.nonce.wrapping_add(1);
    m.acknowledge_alert(&bogus, 1_000);
    m.dismiss_alert(&bogus);
    assert_eq!(m.active_count(), 1);
    assert_eq!(m.get_history().len(), 0);
    assert_eq!(m.get_active_alerts()[0].status, AlertStatus::Active);
}

#[test]
fn dismiss_all_moves_everything_to_history() {
    let mut m = AlertManager::new();
    let busy = SystemMetrics {
        cpu_usage: 97,
        disk_usage_percent: 86,
        load_avg: 25,
        ..SystemMetrics::default()
    };
    m.evaluate(&busy, &healthy_cluster(), &idle_vms(), 0);
    assert_eq!(m.active_count(), 3);
    m.dismiss_all();
    assert_eq!(m.active_count(), 0);
    assert!(!m.has_active_alerts());
    let history = m.get_history();
    assert_eq!(history.len(), 3);
    assert!(history.iter().all(|a| a.status == AlertStatus::Dismissed));
}

#[test]
fn get_alerts_by_level_filters_in_order() {
    let mut m = AlertManager::new();
    let busy = SystemMetrics {
        cpu_usage: 97,
        disk_usage_percent: 86,
        load_avg: 12,
        ..SystemMetrics::default()
    };
    m.evaluate(&busy, &healthy_cluster(), &idle_vms(), 0);
    let warnings = m.get_alerts_by_level(AlertLevel::Warning);
    assert_eq!(warnings.len(), 2);
    assert_eq!(warnings[0].metadata.source, "disk");
    assert_eq!(warnings[1].metadata.source, "load");
    assert_eq!(m.get_alerts_by_level(AlertLevel::Critical).len(), 1);
    assert_eq!(m.get_alerts_by_level(AlertLevel::Error).len(), 0);
}

#[test]
fn builders_configure_the_manager() {
    let config = SystemAlert { cpu_warning_threshold: 50, cpu_critical_threshold: 60, ..SystemAlert::default() };
    let mut m = AlertManager::new()
        .with_system_config(config)
        .with_kubernetes_enabled(false)
        .with_kubevirt_enabled(false);
    let migrating = KubeVirtInfo { vms_running: 0, vms_stopped: 0, vms_migrating: 4 };
    let dead = K8sClusterInfo { nodes_ready: 0, nodes_total: 0, pods_running: 0, services: 0 };
    m.evaluate(&metrics_with_cpu(55), &dead, &migrating, 0);
    // Only the lowered cpu warning fires: both cluster evaluators are off.
    assert_eq!(m.active_count(), 1);
    let active = m.get_active_alerts();
    assert_eq!(active[0].level, AlertLevel::Warning);
    assert_eq!(active[0].metadata.source, "cpu");
    assert_eq!(active[0].metadata.threshold, Some(50));
}

#[test]
fn both_cluster_conditions_can_fire_in_one_cycle() {
    let mut m = AlertManager::new();
    // No nodes and no pods: unreachable. (With zero nodes there is no
    // node-health alert, so seed one first with a degraded cluster.)
    let degraded = K8sClusterInfo { nodes_ready: 1, nodes_total: 3, pods_running: 5, services: 1 };
    m.evaluate(&quiet_metrics(), &degraded, &idle_vms(), 0);
    assert_eq!(m.active_count(), 1);
    let dead = K8sClusterInfo { nodes_ready: 0, nodes_total: 0, pods_running: 0, services: 0 };
    m.evaluate(&quiet_metrics(), &dead, &idle_vms(), 10_000);
    // The node alert stays (it only resolves when all nodes are ready
    // and the total is positive) and the unreachable alert joins it.
    assert_eq!(m.active_count(), 2);
}
