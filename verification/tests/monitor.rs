use led_badge::font::Font;
use led_badge::monitor::{
    collect_all_alerts, collect_cpu_alert, collect_disk_alert, collect_gpu_alert,
    collect_memory_alert, collect_ollama_alert, get_idle_message, top_alert_index, Alert,
    AlertLevel, DiskUsage, MonitorAction, MonitorConfig, MonitorState, SystemReadings,
};
use led_badge::payload::{compose_payload_at, prepare_badge_write};
use led_badge::protocol::{ClockReading, MessageConfig};
use led_badge::usb::UsbConnection;

fn root(pct: u8) -> DiskUsage {
    DiskUsage { mount_point: Some("/".to_string()), total: 1000, usage_pct: pct }
}

#[test]
fn config_defaults() {
    let c = MonitorConfig::default();
    assert_eq!(c.interval_secs, 5);
    assert_eq!((c.cpu_warn, c.cpu_crit), (80, 95));
    assert_eq!((c.mem_warn, c.mem_crit), (80, 95));
    assert_eq!((c.disk_warn, c.disk_crit), (80, 95));
    assert_eq!((c.gpu_warn, c.gpu_crit), (80, 95));
    assert_eq!(c.ollama_url, "http://localhost:11434");
    assert!(c.idle_message.is_none());
}

#[test]
fn badge_message_format() {
    let a = Alert::critical(4, "cpu", " CRIT 97%".to_string());
    assert_eq!(a.to_badge_message(), ":cpu: CRIT 97%");
    let n = Alert::normal("hello".to_string());
    assert_eq!(n.to_badge_message(), "hello");
    assert_eq!(n.priority, 255);
    assert_eq!(Alert::info(5, "info", " x".to_string()).level, AlertLevel::Info);
    assert_eq!(Alert::warning(9, "disk", " 81%".to_string()).level, AlertLevel::Warning);
}

#[test]
fn cpu_thresholds() {
    let c = MonitorConfig::default();
    assert!(collect_cpu_alert(79, &c).is_none());
    let w = collect_cpu_alert(80, &c).unwrap();
    assert_eq!((w.priority, w.level, w.message.as_str()), (8, AlertLevel::Warning, " 80%"));
    let k = collect_cpu_alert(95, &c).unwrap();
    assert_eq!((k.priority, k.level, k.message.as_str()), (4, AlertLevel::Critical, " CRIT 95%"));
    assert_eq!(k.icon, "cpu");
}

#[test]
fn memory_thresholds() {
    let c = MonitorConfig::default();
    assert!(collect_memory_alert(0, 100, &c).is_none());
    let w = collect_memory_alert(16, 85, &c).unwrap();
    assert_eq!((w.priority, w.icon, w.message.as_str()), (6, "memory", " 85%"));
    let k = collect_memory_alert(16, 100, &c).unwrap();
    assert_eq!((k.priority, k.message.as_str()), (2, " CRIT 100%"));
}

#[test]
fn disk_thresholds() {
    let c = MonitorConfig::default();
    assert!(collect_disk_alert(&vec![root(10)], &c).is_none());
    let w = collect_disk_alert(&vec![root(81)], &c).unwrap();
    assert_eq!((w.priority, w.icon, w.message.as_str()), (9, "disk", " 81%"));
    let k = collect_disk_alert(&vec![root(99)], &c).unwrap();
    assert_eq!((k.priority, k.message.as_str(), k.level), (1, " FULL!", AlertLevel::Critical));
    let home = DiskUsage { mount_point: Some("/home".to_string()), total: 10, usage_pct: 99 };
    let empty = DiskUsage { mount_point: Some("/".to_string()), total: 0, usage_pct: 99 };
    assert!(collect_disk_alert(&vec![home, empty], &c).is_none());
    let first = collect_disk_alert(&vec![root(5), root(90), root(99)], &c).unwrap();
    assert_eq!(first.priority, 9);
}

#[test]
fn gpu_thresholds() {
    let c = MonitorConfig::default();
    assert!(collect_gpu_alert(None, &c).is_none());
    assert!(collect_gpu_alert(Some(50), &c).is_none());
    let w = collect_gpu_alert(Some(80), &c).unwrap();
    assert_eq!((w.priority, w.icon, w.message.as_str()), (7, "gpu", " 80%"));
    let k = collect_gpu_alert(Some(96), &c).unwrap();
    assert_eq!((k.priority, k.message.as_str()), (3, " CRIT 96%"));
    // utilization is read as a byte
    assert!(collect_gpu_alert(Some(256 + 10), &c).is_none());
}

#[test]
fn ollama_model_name() {
    assert!(collect_ollama_alert(&None).is_none());
    assert!(collect_ollama_alert(&Some(vec![])).is_none());
    let a = collect_ollama_alert(&Some(vec!["llama3:8b".to_string(), "other".to_string()])).unwrap();
    assert_eq!((a.priority, a.icon, a.message.as_str(), a.level), (5, "info", " llama3", AlertLevel::Info));
    let b = collect_ollama_alert(&Some(vec!["mistral".to_string()])).unwrap();
    assert_eq!(b.to_badge_message(), ":info: mistral");
}

fn readings() -> SystemReadings {
    SystemReadings {
        cpu_usage_pct: 85,
        memory_total: 100,
        memory_usage_pct: 96,
        disks: vec![root(82)],
        gpu_utilization: None,
        ollama_models: Some(vec!["phi:2".to_string()]),
    }
}

#[test]
fn alerts_in_source_order_and_priority() {
    let c = MonitorConfig::default();
    let alerts = collect_all_alerts(&readings(), &c);
    let priorities: Vec<u8> = alerts.iter().map(|a| a.priority).collect();
    assert_eq!(priorities, vec![8, 2, 9, 5]);
    let top = top_alert_index(&alerts).unwrap();
    assert_eq!(alerts[top].to_badge_message(), ":memory: CRIT 96%");
    assert!(top_alert_index(&vec![]).is_none());
}

#[test]
fn first_of_equal_priorities_wins() {
    let alerts = vec![
        Alert::warning(6, "memory", " a".to_string()),
        Alert::warning(6, "memory", " b".to_string()),
    ];
    assert_eq!(top_alert_index(&alerts), Some(0));
}

#[test]
fn monitor_updates_only_on_change() {
    let c = MonitorConfig::default();
    let idle = get_idle_message(&c);
    let mut state = MonitorState::new();
    let alerts = collect_all_alerts(&readings(), &c);
    match state.step(&alerts, &idle) {
        MonitorAction::Show { level, message } => {
            assert_eq!(level, AlertLevel::Critical);
            assert_eq!(message, ":memory: CRIT 96%");
        }
        _ => panic!("expected the alert to be shown"),
    }
    assert!(matches!(state.step(&alerts, &idle), MonitorAction::Unchanged));
    match state.step(&vec![], &idle) {
        MonitorAction::ShowIdle(m) => assert_eq!(m, idle),
        _ => panic!("expected the idle message"),
    }
    assert_eq!(state.last_alert, Some(idle.clone()));
    assert!(matches!(state.step(&vec![], &idle), MonitorAction::Unchanged));
}

#[test]
fn monitor_idle_message() {
    let mut c = MonitorConfig::default();
    c.idle_message = Some("MY SERVER".to_string());
    let idle = get_idle_message(&c);
    assert_eq!(idle, "MY SERVER");
    let mut state = MonitorState::new();
    match state.step(&vec![], &idle) {
        MonitorAction::ShowIdle(m) => assert_eq!(m, "MY SERVER"),
        _ => panic!("expected the idle message"),
    }
    assert!(matches!(state.step(&vec![], &idle), MonitorAction::Unchanged));
}

#[test]
fn default_idle_message_is_shown() {
    let c = MonitorConfig::default();
    let idle = get_idle_message(&c);
    let mut state = MonitorState::new();
    match state.step(&vec![], &idle) {
        MonitorAction::ShowIdle(m) => assert_eq!(m, idle),
        _ => panic!("expected the host name as idle message"),
    }
}

#[test]
fn idle_message_defaults_to_host_name() {
    let c = MonitorConfig::default();
    let name = get_idle_message(&c);
    assert!(!name.is_empty());
}

#[test]
fn level_tags() {
    assert_eq!(AlertLevel::Critical.tag(), "CRIT");
    assert_eq!(AlertLevel::Warning.tag(), "WARN");
    assert_eq!(AlertLevel::Info.tag(), "INFO");
    assert_eq!(AlertLevel::Normal.tag(), "IDLE");
}

#[test]
fn payload_is_header_then_data() {
    let mut font = Font::new();
    font.add_glyph('a', [7; 11]);
    let t = ClockReading { year: 2025, month: 1, day: 2, hour: 3, minute: 4, second: 5 };
    let messages = vec!["a".to_string(), "ab".to_string()];
    let payload = compose_payload_at(&font, &messages, 50, MessageConfig::default(), t);
    assert_eq!(payload.len(), 64 + 3 * 11);
    assert_eq!(&payload[0..4], &[0x77, 0x61, 0x6e, 0x67]);
    assert_eq!(payload[5], 0x20);
    assert_eq!(&payload[16..20], &[0, 1, 0, 2]);
    assert_eq!(&payload[64..75], &[7; 11]);
    assert_eq!(&payload[86..97], &[0; 11]);
}

#[test]
fn badge_write_for_monitor() {
    let font = Font::new();
    let conn = UsbConnection::new().unwrap();
    let request = prepare_badge_write(&conn, &font, &"ok".to_string()).unwrap();
    // 64 header bytes and 22 data bytes make two reports
    assert_eq!(request.reports.len(), 2);
    assert_eq!(&request.reports[0][1..5], &[0x77, 0x61, 0x6e, 0x67]);
    assert_eq!(request.reports[0][1 + 8], 0x30);
    assert_eq!(request.reports[0][1 + 17], 2);
}
