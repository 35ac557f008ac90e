use hypervisor_core::{
    AlertCategory, AlertLevel, K8sClusterInfo, KubeVirtInfo, KubeVirtRule, KubernetesRule,
    SystemAlert, SystemMetrics, SystemMetricsRule,
};

fn metrics_with_cpu(cpu: u32) -> SystemMetrics {
    SystemMetrics { cpu_usage: cpu, ..SystemMetrics::default() }
}

fn system_rule(metrics: SystemMetrics) -> SystemMetricsRule {
    SystemMetricsRule { metrics, config: SystemAlert::default() }
}

#[test]
fn cpu_at_or_above_critical_yields_one_critical() {
    for cpu in [95, 96, 100, 250] {
        let alerts = system_rule(metrics_with_cpu(cpu)).evaluate(1_000);
        assert_eq!(alerts.len(), 1, "cpu={}", cpu);
        assert_eq!(alerts[0].level, AlertLevel::Critical);
        assert_eq!(alerts[0].metadata.source, "cpu");
        assert_eq!(alerts[0].metadata.value, Some(cpu as i64));
        assert_eq!(alerts[0].metadata.threshold, Some(95));
    }
}

#[test]
fn cpu_between_warning_and_critical_yields_one_warning() {
    for cpu in [80, 85, 94] {
        let alerts = system_rule(metrics_with_cpu(cpu)).evaluate(1_000);
        assert_eq!(alerts.len(), 1, "cpu={}", cpu);
        assert_eq!(alerts[0].level, AlertLevel::Warning);
        assert_eq!(alerts[0].metadata.source, "cpu");
        assert_eq!(alerts[0].metadata.threshold, Some(80));
    }
}

#[test]
fn cpu_below_warning_yields_nothing() {
    for cpu in [0, 50, 79] {
        let alerts = system_rule(metrics_with_cpu(cpu)).evaluate(1_000);
        assert!(alerts.is_empty(), "cpu={}", cpu);
    }
}

#[test]
fn cpu_messages_interpolate_the_observed_value() {
    let alerts = system_rule(metrics_with_cpu(97)).evaluate(0);
    assert_eq!(alerts[0].title, "Critical CPU Usage");
    assert_eq!(alerts[0].message, "CPU usage is critically high at 97%");
    let alerts = system_rule(metrics_with_cpu(85)).evaluate(0);
    assert_eq!(alerts[0].title, "High CPU Usage");
    assert_eq!(alerts[0].message, "CPU usage is high at 85%");
}

#[test]
fn disabled_dimension_stays_silent() {
    let config = SystemAlert { cpu_enabled: false, ..SystemAlert::default() };
    let rule = SystemMetricsRule { metrics: metrics_with_cpu(100), config };
    assert!(rule.evaluate(0).is_empty());
}

#[test]
fn memory_percent_is_computed_from_used_and_total() {
    let metrics = SystemMetrics {
        memory_used_gb: 96,
        memory_total_gb: 100,
        ..SystemMetrics::default()
    };
    let alerts = system_rule(metrics).evaluate(0);
    assert_eq!(alerts.len(), 1);
    assert_eq!(alerts[0].level, AlertLevel::Critical);
    assert_eq!(alerts[0].metadata.source, "memory");
    assert_eq!(alerts[0].metadata.value, Some(96));
    assert_eq!(alerts[0].message, "Memory usage is critically high at 96% (96/100 GB)");

    // 7/8 is 87% after integer truncation: a warning, not a critical.
    let metrics = SystemMetrics {
        memory_used_gb: 7,
        memory_total_gb: 8,
        ..SystemMetrics::default()
    };
    let alerts = system_rule(metrics).evaluate(0);
    assert_eq!(alerts.len(), 1);
    assert_eq!(alerts[0].level, AlertLevel::Warning);
    assert_eq!(alerts[0].metadata.value, Some(87));
    assert_eq!(alerts[0].message, "Memory usage is high at 87% (7/8 GB)");
}

#[test]
fn zero_total_memory_reads_as_zero_percent() {
    let metrics = SystemMetrics {
        memory_used_gb: 42,
        memory_total_gb: 0,
        ..SystemMetrics::default()
    };
    assert!(system_rule(metrics).evaluate(0).is_empty());
}

#[test]
fn disk_and_load_thresholds_fire_independently() {
    let metrics = SystemMetrics {
        disk_usage_percent: 97,
        load_avg: 12,
        ..SystemMetrics::default()
    };
    let alerts = system_rule(metrics).evaluate(0);
    assert_eq!(alerts.len(), 2);
    assert_eq!(alerts[0].metadata.source, "disk");
    assert_eq!(alerts[0].level, AlertLevel::Critical);
    assert_eq!(alerts[0].message, "Disk usage is critically high at 97%");
    assert_eq!(alerts[1].metadata.source, "load");
    assert_eq!(alerts[1].level, AlertLevel::Warning);
    assert_eq!(alerts[1].message, "Load average is high at 12");
}

#[test]
fn one_node_unready_in_four_is_a_warning() {
    // 1 unready of 4 stays below the critical cutoff of total/2 = 2.
    let rule = KubernetesRule {
        cluster_info: K8sClusterInfo { nodes_ready: 3, nodes_total: 4, pods_running: 10, services: 2 },
        enabled: true,
    };
    let alerts = rule.evaluate(0);
    assert_eq!(alerts.len(), 1);
    assert_eq!(alerts[0].level, AlertLevel::Warning);
    assert_eq!(alerts[0].category, AlertCategory::Kubernetes);
    assert_eq!(alerts[0].metadata.source, "k8s-nodes");
    assert_eq!(alerts[0].title, "1 Nodes Not Ready");
    assert_eq!(alerts[0].message, "1 of 4 cluster nodes are not in Ready state");
}

#[test]
fn one_node_unready_in_three_meets_the_half_cutoff() {
    // With integer division, 1 unready of 3 already meets total/2 = 1,
    // so the node-health alert escalates to critical.
    let rule = KubernetesRule {
        cluster_info: K8sClusterInfo { nodes_ready: 2, nodes_total: 3, pods_running: 10, services: 2 },
        enabled: true,
    };
    let alerts = rule.evaluate(0);
    assert_eq!(alerts.len(), 1);
    assert_eq!(alerts[0].level, AlertLevel::Critical);
    assert_eq!(alerts[0].message, "1 of 3 cluster nodes are not in Ready state");
}

#[test]
fn half_or_more_nodes_unready_is_critical() {
    let rule = KubernetesRule {
        cluster_info: K8sClusterInfo { nodes_ready: 0, nodes_total: 4, pods_running: 1, services: 0 },
        enabled: true,
    };
    let alerts = rule.evaluate(0);
    assert_eq!(alerts.len(), 1);
    assert_eq!(alerts[0].level, AlertLevel::Critical);
    assert_eq!(alerts[0].title, "4 Nodes Not Ready");
}

#[test]
fn unreachable_cluster_is_critical() {
    let rule = KubernetesRule {
        cluster_info: K8sClusterInfo { nodes_ready: 0, nodes_total: 0, pods_running: 0, services: 0 },
        enabled: true,
    };
    let alerts = rule.evaluate(0);
    assert_eq!(alerts.len(), 1);
    assert_eq!(alerts[0].level, AlertLevel::Critical);
    assert_eq!(alerts[0].metadata.source, "k8s-cluster");
    assert_eq!(alerts[0].title, "Cluster Unreachable");
    assert_eq!(
        alerts[0].message,
        "Unable to connect to Kubernetes cluster or cluster has no nodes"
    );
}

#[test]
fn healthy_cluster_raises_nothing() {
    let rule = KubernetesRule {
        cluster_info: K8sClusterInfo { nodes_ready: 3, nodes_total: 3, pods_running: 40, services: 5 },
        enabled: true,
    };
    assert!(rule.evaluate(0).is_empty());
    let disabled = KubernetesRule {
        cluster_info: K8sClusterInfo { nodes_ready: 0, nodes_total: 0, pods_running: 0, services: 0 },
        enabled: false,
    };
    assert!(disabled.evaluate(0).is_empty());
}

#[test]
fn migrating_vms_raise_an_info_alert() {
    let rule = KubeVirtRule {
        kubevirt_info: KubeVirtInfo { vms_running: 5, vms_stopped: 1, vms_migrating: 2 },
        enabled: true,
    };
    let alerts = rule.evaluate(0);
    assert_eq!(alerts.len(), 1);
    assert_eq!(alerts[0].level, AlertLevel::Info);
    assert_eq!(alerts[0].category, AlertCategory::KubeVirt);
    assert_eq!(alerts[0].metadata.source, "kubevirt-migration");
    assert_eq!(alerts[0].title, "2 VMs Migrating");
    assert_eq!(alerts[0].message, "2 virtual machines are currently migrating");

    let idle = KubeVirtRule {
        kubevirt_info: KubeVirtInfo { vms_running: 5, vms_stopped: 1, vms_migrating: 0 },
        enabled: true,
    };
    assert!(idle.evaluate(0).is_empty());
}

#[test]
fn rule_names_are_stable() {
    let s = system_rule(SystemMetrics::default());
    assert_eq!(s.name(), "system_metrics");
    let k = KubernetesRule {
        cluster_info: K8sClusterInfo { nodes_ready: 0, nodes_total: 0, pods_running: 0, services: 0 },
        enabled: true,
    };
    assert_eq!(k.name(), "kubernetes_cluster");
    let v = KubeVirtRule {
        kubevirt_info: KubeVirtInfo { vms_running: 0, vms_stopped: 0, vms_migrating: 0 },
        enabled: true,
    };
    assert_eq!(v.name(), "kubevirt_vms");
}
