use aura_core::api::{task_event, TaskEvent};
use aura_core::config::{BandwidthConfig, GeneralConfig, StorageConfig, ThemeConfig, VpnConfig};
use aura_core::orchestrator::Event;
use aura_core::port_mapping::gateway_guess;
use aura_core::power::{PowerAction, PowerManager};
use aura_core::storage::WriteQueue;
use aura_core::throttler::{refill_tokens, tokens_for, REFILLS_PER_SECOND};
use aura_core::vpn::{kill_switch_triggered, InterfaceMonitor, VpnProvider, VpnStatus};
use aura_core::{Error, TaskId};

#[test]
fn test_power_manager_state() {
    let mut manager = PowerManager::new();
    assert!(!manager.is_active);
    assert!(!manager.held);

    assert_eq!(manager.set_active(true), PowerAction::Acquire);
    assert!(manager.is_active);
    assert!(manager.held);

    assert_eq!(manager.set_active(true), PowerAction::Keep);
    assert!(manager.is_active);

    assert_eq!(manager.set_active(false), PowerAction::Release);
    assert!(!manager.is_active);
    assert!(!manager.held);
}

#[test]
fn power_assertion_follows_activity_over_many_changes() {
    let mut manager = PowerManager::new();
    for active in [false, true, true, false, false, true, false] {
        manager.set_active(active);
        assert_eq!(manager.held, active);
        assert_eq!(manager.is_active, active);
    }
}

#[test]
fn test_task_handle_events() {
    let id = TaskId(123);
    let e1 = task_event(
        id,
        Event::MetadataResolved {
            id,
            final_uri: "http://example.com".to_string(),
            total_length: 1000,
            name: Some("test".to_string()),
        },
    );
    match e1 {
        Some(TaskEvent::MetadataResolved { total_length, .. }) => assert_eq!(total_length, 1000),
        _ => panic!("Expected MetadataResolved"),
    }
    let e2 = task_event(id, Event::TaskProgress { id, completed_bytes: 500, total_bytes: 1000 });
    match e2 {
        Some(TaskEvent::Progress { completed_bytes, .. }) => assert_eq!(completed_bytes, 500),
        _ => panic!("Expected Progress"),
    }
    let other = task_event(id, Event::TaskProgress { id: TaskId(456), completed_bytes: 100, total_bytes: 1000 });
    assert!(other.is_none());
    assert!(matches!(task_event(id, Event::TaskCompleted(id)), Some(TaskEvent::Completed)));
    assert!(task_event(id, Event::TaskAdded(id)).is_none());
    match task_event(id, Event::TaskError { id, message: "boom".to_string() }) {
        Some(TaskEvent::Error(m)) => assert_eq!(m, "boom"),
        _ => panic!("Expected Error"),
    }
}

#[test]
fn storage_test_storage_engine_sequential_aggregation() {
    let mut q = WriteQueue::new();
    // Out of order: kept until the gap before it is filled.
    let first = q.write(10, 5, b"world".to_vec());
    assert!(first.is_empty());
    let second = q.write(0, 10, b"hello_seq_".to_vec());
    assert_eq!(second, vec![(0, b"hello_seq_".to_vec()), (10, b"world".to_vec())]);
    let mut content = Vec::new();
    for (_, d) in &second {
        content.extend_from_slice(d);
    }
    assert_eq!(content, b"hello_seq_world".to_vec());
    assert_eq!(q.next_offset, 15);
    assert!(q.pending.is_empty());
}

#[test]
fn mod_test_storage_engine_sequential_aggregation() {
    let mut q = WriteQueue::new();
    let mut content = Vec::new();
    for (_, d) in q.write(10, 5, b"world".to_vec()) {
        content.extend_from_slice(&d);
    }
    for (_, d) in q.write(0, 10, b"hello_seq_".to_vec()) {
        content.extend_from_slice(&d);
    }
    for (_, d) in q.flush_all() {
        content.extend_from_slice(&d);
    }
    assert_eq!(String::from_utf8(content).unwrap(), "hello_seq_world");
}

#[test]
fn storage_flush_writes_what_is_left_in_offset_order() {
    let mut q = WriteQueue::new();
    assert!(q.write(30, 2, b"cc".to_vec()).is_empty());
    assert!(q.write(20, 2, b"bb".to_vec()).is_empty());
    let out = q.flush_all();
    assert_eq!(out, vec![(20, b"bb".to_vec()), (30, b"cc".to_vec())]);
    assert!(q.pending.is_empty());
}

#[test]
fn storage_unregistered_drops_out_of_order_blocks() {
    let mut q = WriteQueue::unregistered();
    assert!(q.write(5, 1, b"x".to_vec()).is_empty());
    assert!(q.pending.is_empty());
    assert_eq!(q.write(0, 5, b"abcde".to_vec()), vec![(0, b"abcde".to_vec())]);
    assert_eq!(q.next_offset, 5);
}

#[test]
fn throttler_tokens() {
    assert_eq!(REFILLS_PER_SECOND, 10);
    assert_eq!(tokens_for(0, 500, 100), 0);
    assert_eq!(tokens_for(1000, 50, 100), 50);
    assert_eq!(tokens_for(1000, 500, 100), 100);
    assert_eq!(refill_tokens(1000, 1000, 0), 100);
    assert_eq!(refill_tokens(1000, 1000, 950), 50);
    assert_eq!(refill_tokens(1000, 1000, 1000), 0);
}

#[test]
fn vpn_monitor_and_kill_switch() {
    let m = InterfaceMonitor::new("tun0".to_string());
    assert_eq!(m.name(), "interface-monitor");
    assert_eq!(m.interface(), Some("tun0".to_string()));
    assert_eq!(m.status_among(&vec!["eth0".to_string(), "tun0".to_string()]), VpnStatus::Connected);
    assert_eq!(m.status_among(&vec!["eth0".to_string()]), VpnStatus::Disconnected);
    assert!(kill_switch_triggered(&Ok(VpnStatus::Disconnected)));
    assert!(kill_switch_triggered(&Ok(VpnStatus::Error("x".to_string()))));
    assert!(!kill_switch_triggered(&Ok(VpnStatus::Connected)));
    assert!(!kill_switch_triggered(&Ok(VpnStatus::Connecting)));
    assert!(!kill_switch_triggered(&Err(Error::Config("no state".to_string()))));
}

#[test]
fn nat_gateway_is_host_one() {
    assert_eq!(gateway_guess([192, 168, 1, 57]), [192, 168, 1, 1]);
}

#[test]
fn config_defaults() {
    let b = BandwidthConfig::default();
    assert_eq!(b.global_download_limit, 0);
    let s = StorageConfig::default();
    assert_eq!(s.download_dir, ".");
    assert_eq!(s.cache_size_mb, 16);
    assert_eq!(s.allocation_mode, "falloc");
    assert_eq!(s.read_ahead_kb, 128);
    assert_eq!(s.write_buffer_kb, 4096);
    let v = VpnConfig::default();
    assert!(v.vpn_type.is_none());
    assert_eq!(v.check_interval_secs, 5);
    let g = GeneralConfig::default();
    assert_eq!(g.log_level, "info");
    assert_eq!(g.event_poll_interval_ms, 500);
    assert_eq!(g.theme.primary, "#0000FF");
    let m = ThemeConfig::matrix();
    assert_eq!(m.accent, "#00FF41");
    assert_eq!(ThemeConfig::galactic().warning, "#FFFF00");
}
