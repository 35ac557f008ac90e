use hypervisor_core::{LogCollector, LogEntry};

fn entry(level: &str, service: &str, message: &str) -> LogEntry {
    LogEntry {
        timestamp: "Jan 01 00:00:00".to_string(),
        level: level.to_string(),
        service: service.to_string(),
        message: message.to_string(),
    }
}

#[test]
fn new_collector_watches_the_default_services() {
    let c = LogCollector::new();
    let services: Vec<&str> = c.services().iter().map(|s| s.as_str()).collect();
    assert_eq!(
        services,
        ["k3s", "k3s-agent", "kubelet", "containerd", "virt-handler", "virt-launcher", "docker"]
    );
    assert_eq!(c.capacity(), 1000);
    assert!(c.snapshot().is_empty());
}

#[test]
fn with_services_and_buffer_size_reconfigure() {
    let c = LogCollector::new()
        .with_services(vec!["sshd".to_string()])
        .with_buffer_size(3);
    assert_eq!(c.services().len(), 1);
    assert_eq!(c.services()[0], "sshd");
    assert_eq!(c.capacity(), 3);
}

#[test]
fn absorb_keeps_at_most_the_capacity_dropping_oldest() {
    let mut c = LogCollector::new().with_buffer_size(3);
    c.absorb(vec![
        entry("INFO", "k3s", "one"),
        entry("INFO", "k3s", "two"),
        entry("INFO", "k3s", "three"),
        entry("INFO", "k3s", "four"),
        entry("INFO", "k3s", "five"),
    ]);
    let kept = c.snapshot();
    assert_eq!(kept.len(), 3);
    assert_eq!(kept[0].message, "three");
    assert_eq!(kept[1].message, "four");
    assert_eq!(kept[2].message, "five");
    // A second batch keeps rolling the buffer.
    c.absorb(vec![entry("WARN", "k3s", "six")]);
    let kept = c.snapshot();
    assert_eq!(kept[0].message, "four");
    assert_eq!(kept[2].message, "six");
}

#[test]
fn filter_is_case_insensitive_over_all_fields() {
    let mut c = LogCollector::new();
    c.absorb(vec![
        entry("INFO", "kubelet", "Node Ready"),
        entry("ERROR", "k3s", "Disk Failure imminent"),
        entry("WARN", "containerd", "image pull slow"),
    ]);
    // Message match, folded case on both sides.
    let hits = c.filter("disk failure");
    assert_eq!(hits.len(), 1);
    assert_eq!(hits[0].service, "k3s");
    // Service match.
    let hits = c.filter("KUBELET");
    assert_eq!(hits.len(), 1);
    assert_eq!(hits[0].message, "Node Ready");
    // Level match.
    let hits = c.filter("warn");
    assert_eq!(hits.len(), 1);
    assert_eq!(hits[0].service, "containerd");
    // No match.
    assert!(c.filter("network").is_empty());
    // The empty query matches everything.
    assert_eq!(c.filter("").len(), 3);
}

#[test]
fn filter_by_level_ignores_ascii_case() {
    let mut c = LogCollector::new();
    c.absorb(vec![
        entry("ERROR", "k3s", "first"),
        entry("info", "k3s", "second"),
        entry("error", "k3s", "third"),
    ]);
    let errors = c.filter_by_level("Error");
    assert_eq!(errors.len(), 2);
    assert_eq!(errors[0].message, "first");
    assert_eq!(errors[1].message, "third");
    assert_eq!(c.filter_by_level("INFO").len(), 1);
    assert_eq!(c.filter_by_level("debug").len(), 0);
}
