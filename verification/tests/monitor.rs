use glance::metrics::{
    interface_is_counted, mac_memory_reading, memory_percent, traffic_totals, vm_used_bytes,
    InterfaceSample, Metrics, MonitorState, Platform, Sample,
};

fn iface(name: &str, received: u64, transmitted: u64) -> InterfaceSample {
    InterfaceSample { name: name.to_string(), received, transmitted }
}

fn linux_sample() -> Sample {
    Sample {
        cpu_percent: 12,
        memory: Some((50, 200)),
        interfaces: vec![
            iface("lo", 100, 100),
            iface("eth0", 1000, 2000),
            iface("wlan0", 10, 20),
            iface("enp3s0", 1, 2),
            iface("docker0", 5, 5),
        ],
    }
}

#[test]
fn first_refresh_reports_zero_rates_then_totals() {
    let mut state = MonitorState::new();
    assert!(!state.has_net_history);
    let sample = linux_sample();
    let first = state.collect_metrics(Platform::Linux, &sample);
    assert_eq!(first, Metrics { cpu_percent: 12, mem_percent: 25, download_bps: 0, upload_bps: 0 });
    assert!(state.has_net_history);
    let second = state.collect_metrics(Platform::Linux, &sample);
    assert_eq!(second, Metrics { cpu_percent: 12, mem_percent: 25, download_bps: 1011, upload_bps: 2022 });
}

#[test]
fn macos_counts_only_en_interfaces() {
    let ifs = vec![iface("en0", 7, 8), iface("en1", 1, 1), iface("lo0", 50, 50), iface("utun0", 3, 3)];
    assert_eq!(traffic_totals(Platform::MacOs, &ifs), Some((8, 9)));
}

#[test]
fn windows_skips_loopback_and_unnamed_interfaces() {
    let ifs = vec![
        iface("Loopback Pseudo-Interface 1", 500, 500),
        iface("Ethernet", 10, 20),
        iface("", 7, 7),
        iface("Wi-Fi", 1, 2),
        iface("MY LOOPBACK ADAPTER", 9, 9),
    ];
    assert_eq!(traffic_totals(Platform::Windows, &ifs), Some((11, 22)));
}

#[test]
fn interface_rule_per_platform() {
    assert!(interface_is_counted(Platform::MacOs, "en0", "en0"));
    assert!(!interface_is_counted(Platform::MacOs, "eth0", "eth0"));
    assert!(interface_is_counted(Platform::Linux, "eth0", "eth0"));
    assert!(interface_is_counted(Platform::Linux, "wlp2s0", "wlp2s0"));
    assert!(!interface_is_counted(Platform::Linux, "lo", "lo"));
    assert!(!interface_is_counted(Platform::Windows, "Loopback", "loopback"));
    assert!(interface_is_counted(Platform::Windows, "Loopback", "Loopback"));
    assert!(!interface_is_counted(Platform::Windows, "", ""));
}

#[test]
fn overflowing_traffic_is_refused_and_leaves_the_monitor_unchanged() {
    let ifs = vec![iface("Ethernet", u64::MAX, 1), iface("Wi-Fi", 1, 1)];
    assert_eq!(traffic_totals(Platform::Windows, &ifs), None);
    let mut state = MonitorState::new();
    let sample = Sample { cpu_percent: 3, memory: Some((1, 2)), interfaces: ifs };
    assert_eq!(state.try_collect_metrics(Platform::Windows, &sample), None);
    assert!(!state.has_net_history);
    // the same interfaces do not count on macOS, so nothing overflows there
    assert!(state.try_collect_metrics(Platform::MacOs, &sample).is_some());
    assert!(state.has_net_history);
}

#[test]
fn overflowing_memory_figures_are_refused() {
    let mut state = MonitorState::new();
    let sample = Sample { cpu_percent: 3, memory: Some((u64::MAX / 100 + 1, 1)), interfaces: vec![] };
    assert_eq!(state.try_collect_metrics(Platform::Linux, &sample), None);
    let sample = Sample { cpu_percent: 3, memory: Some((u64::MAX / 100 + 1, 0)), interfaces: vec![] };
    let m = state.try_collect_metrics(Platform::Linux, &sample).unwrap();
    assert_eq!(m.mem_percent, 0);
}

#[test]
fn memory_percentages() {
    assert_eq!(memory_percent(50, 200), 25);
    assert_eq!(memory_percent(199, 200), 99);
    assert_eq!(memory_percent(200, 200), 100);
    assert_eq!(memory_percent(7, 0), 0);
    let mut state = MonitorState::new();
    let sample = Sample { cpu_percent: 0, memory: None, interfaces: vec![] };
    assert_eq!(state.collect_metrics(Platform::MacOs, &sample).mem_percent, 0);
}

#[test]
fn macos_vm_statistics() {
    assert_eq!(vm_used_bytes(100, 50, 25, 16384), 2_867_200);
    assert_eq!(mac_memory_reading(0, 100, 50, 25, 16384, 8_000_000), Some((2_867_200, 8_000_000)));
    assert_eq!(mac_memory_reading(5, 100, 50, 25, 16384, 8_000_000), None);
}
