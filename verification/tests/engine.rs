use std::collections::HashMap;

use galactic_tamer::app::{App, ProcessInfo, SortBy, SortOrder};
use galactic_tamer::classify::{classify_sample, cpu_alert_message, mem_alert_message, AlertConfig};
use galactic_tamer::monitor::tick;
use galactic_tamer::process_data::ProcessData;

fn info(pid: u64, name: &str, cpu: u64, memory: u64) -> ProcessInfo {
    ProcessInfo { pid, name: name.to_string(), cpu, memory }
}

fn config(cpu_thr: u64, mem_thr: u64, cpu_floor: u64, mem_floor: u64) -> AlertConfig {
    AlertConfig {
        cpu_threshold_milli: cpu_thr,
        mem_threshold_milli: mem_thr,
        min_cpu_centi: cpu_floor,
        min_mem_bytes: mem_floor,
    }
}

#[test]
fn window_keeps_most_recent_samples() {
    let mut d = ProcessData::with_capacity(2);
    d.add_sample(1, 10);
    assert_eq!(d.cpu_usage_history, vec![1]);
    d.add_sample(2, 20);
    d.add_sample(3, 30);
    assert_eq!(d.cpu_usage_history, vec![2, 3]);
    assert_eq!(d.memory_usage_history, vec![20, 30]);
    d.add_sample(4, 40);
    assert_eq!(d.cpu_usage_history, vec![3, 4]);
    assert_eq!(d.memory_usage_history, vec![30, 40]);
}

#[test]
fn average_empty_and_single_sample() {
    let mut d = ProcessData::new();
    assert_eq!(d.cpu_average(), 0);
    assert_eq!(d.memory_average(), 0);
    d.add_sample(1234, 777);
    assert_eq!(d.cpu_average(), 1234);
    assert_eq!(d.memory_average(), 777);
}

#[test]
fn window_average_after_eviction() {
    let mut d = ProcessData::with_capacity(3);
    d.add_sample(1000, 1);
    d.add_sample(2000, 1);
    d.add_sample(9000, 1);
    assert_eq!(d.cpu_average(), 4000);
    d.add_sample(500, 1);
    assert_eq!(d.cpu_average(), 3833);
}

#[test]
fn alert_log_keeps_last_three() {
    let mut app = App::new();
    app.add_alert("m1".to_string());
    app.add_alert("m2".to_string());
    app.add_alert("m3".to_string());
    app.add_alert("m4".to_string());
    assert_eq!(app.alerts.len(), 3);
    assert_eq!(app.alerts, vec!["m4".to_string(), "m3".to_string(), "m2".to_string()]);
}

#[test]
fn alert_log_rotation_scenario() {
    let mut app = App::new();
    for m in ["A", "B", "C", "D"] {
        app.add_alert(m.to_string());
    }
    assert_eq!(app.alerts, vec!["D".to_string(), "C".to_string(), "B".to_string()]);
}

#[test]
fn ordering_toggle_and_reset() {
    let mut app = App::new();
    assert!(matches!(app.sort_by, SortBy::Cpu));
    assert!(matches!(app.sort_order, SortOrder::Desc));
    app.set_sort_by(SortBy::Cpu);
    assert!(matches!(app.sort_by, SortBy::Cpu));
    assert!(matches!(app.sort_order, SortOrder::Asc));
    app.set_sort_by(SortBy::Cpu);
    assert!(matches!(app.sort_order, SortOrder::Desc));
    app.set_sort_by(SortBy::Name);
    assert!(matches!(app.sort_by, SortBy::Name));
    assert!(matches!(app.sort_order, SortOrder::Desc));
}

#[test]
fn resort_is_a_permutation_and_reverses() {
    let snapshot = vec![
        info(30, "a", 5, 5),
        info(10, "b", 7, 7),
        info(20, "c", 6, 6),
    ];
    let mut app = App::new();
    app.set_sort_by(SortBy::Pid);
    app.sort_processes(&snapshot);
    assert_eq!(app.processes, vec![30, 20, 10]);
    app.set_sort_by(SortBy::Pid);
    app.sort_processes(&snapshot);
    assert_eq!(app.processes, vec![10, 20, 30]);
}

#[test]
fn equal_keys_keep_snapshot_order() {
    let snapshot = vec![info(5, "x", 100, 1), info(6, "y", 100, 1)];
    let mut app = App::new();
    app.set_sort_by(SortBy::Cpu);
    app.sort_processes(&snapshot);
    assert_eq!(app.processes, vec![5, 6]);
    app.set_sort_by(SortBy::Cpu);
    app.sort_processes(&snapshot);
    assert_eq!(app.processes, vec![6, 5]);
}

#[test]
fn sort_by_name_ascending_then_descending() {
    let snapshot = vec![info(1, "b", 0, 0), info(2, "a", 0, 0), info(3, "c", 0, 0)];
    let mut app = App::new();
    app.set_sort_by(SortBy::Name);
    app.set_sort_by(SortBy::Name);
    assert!(matches!(app.sort_order, SortOrder::Asc));
    app.sort_processes(&snapshot);
    assert_eq!(app.processes, vec![2, 1, 3]);
    app.set_sort_by(SortBy::Name);
    app.sort_processes(&snapshot);
    assert_eq!(app.processes, vec![3, 1, 2]);
}

#[test]
fn classifier_threshold_scenarios() {
    // A baseline of two samples at 50%; the current sample joins the
    // window before classification.
    let cases: [(u64, u64, bool); 3] = [
        (6500, 1200, false),
        (6100, 1200, false),
        (6100, 1100, true),
    ];
    for (current, thr, fires) in cases {
        let mut d = ProcessData::with_capacity(180);
        d.add_sample(5000, 0);
        d.add_sample(5000, 0);
        d.add_sample(current, 0);
        let avg = d.cpu_average();
        let cfg = config(thr, 1200, 1000, 0);
        let (cpu, mem) = classify_sample("p", 1, current, avg, 0, 0, &cfg);
        assert_eq!(cpu.is_some(), fires);
        assert!(mem.is_none());
    }
}

#[test]
fn classifier_respects_absolute_floor() {
    let cfg = config(1200, 1200, 1000, 1024);
    let (cpu, mem) = classify_sample("p", 1, 900, 0, 512, 0, &cfg);
    assert!(cpu.is_none());
    assert!(mem.is_none());
}

#[test]
fn cpu_message_format() {
    let m = cpu_alert_message("proc", 42, 1234);
    assert_eq!(m, "High CPU usage for proc (42): 12.34%");
}

#[test]
fn mem_message_format() {
    let m = mem_alert_message("x", 1, 536870912);
    assert_eq!(m, "High Memory usage for x (1): 512 MiB");
}

#[test]
fn sort_by_memory_descending() {
    let snapshot = vec![info(1, "a", 0, 30), info(2, "b", 0, 10), info(3, "c", 0, 20)];
    let mut app = App::new();
    app.set_sort_by(SortBy::Memory);
    app.sort_processes(&snapshot);
    assert_eq!(app.processes, vec![1, 3, 2]);
}

#[test]
fn tick_with_empty_snapshot() {
    let mut registry: HashMap<u64, ProcessData> = HashMap::new();
    let mut app = App::new();
    let cfg = config(1200, 1200, 1000, 1048576);
    tick(&mut registry, &mut app, &Vec::new(), &cfg);
    assert!(app.alerts.is_empty());
    assert!(app.processes.is_empty());
    assert!(registry.is_empty());
}

#[test]
fn tick_reports_memory_spike() {
    let mut registry: HashMap<u64, ProcessData> = HashMap::new();
    let mut app = App::new();
    let cfg = config(1200, 1200, 1000, 1048576);

    let first = vec![info(7, "gamma", 0, 10 * 1048576)];
    tick(&mut registry, &mut app, &first, &cfg);
    assert!(app.alerts.is_empty());

    let second = vec![info(7, "gamma", 0, 50 * 1048576)];
    tick(&mut registry, &mut app, &second, &cfg);
    assert_eq!(app.alerts, vec!["High Memory usage for gamma (7): 50 MiB".to_string()]);
}

#[test]
fn tick_updates_windows_alerts_and_view() {
    let mut registry: HashMap<u64, ProcessData> = HashMap::new();
    let mut app = App::new();
    let cfg = config(1200, 1200, 1000, 1048576);

    let first = vec![
        info(1, "alpha", 1000, 2 * 1048576),
        info(2, "beta", 2000, 1048576),
    ];
    tick(&mut registry, &mut app, &first, &cfg);
    assert!(app.alerts.is_empty());
    assert_eq!(app.processes, vec![2, 1]);
    assert_eq!(registry.get(&1).unwrap().cpu_usage_history, vec![1000]);

    let second = vec![
        info(1, "alpha", 9000, 2 * 1048576),
        info(2, "beta", 2000, 1048576),
    ];
    tick(&mut registry, &mut app, &second, &cfg);
    assert_eq!(app.alerts, vec!["High CPU usage for alpha (1): 90.00%".to_string()]);
    assert_eq!(app.processes, vec![1, 2]);
    assert_eq!(registry.get(&1).unwrap().cpu_usage_history, vec![1000, 9000]);
    assert_eq!(registry.get(&2).unwrap().memory_usage_history, vec![1048576, 1048576]);
}
