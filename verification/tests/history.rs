use witr_rs::history::{History, Rate, Reading, SAMPLES};
use witr_rs::model::{Pid, Process};

const MS: u64 = 1_000_000;
const SECOND: u64 = 1_000 * MS;

fn proc(pid: Pid, exe: &str, cpu_ms: Option<u64>) -> Process {
    Process {
        pid,
        name: "worker".into(),
        exe: Some(exe.into()),
        user: Some("u".into()),
        cpu_time_ms: cpu_ms,
        ..Default::default()
    }
}

#[test]
fn restart_detection() {
    let mut h = History::new();
    h.update(&[proc(100, "/bin/worker", None)], 0);
    assert_eq!(h.total_restarts(100), 0);
    // same identity reappears as pid 200 → one restart
    h.update(&[proc(200, "/bin/worker", None)], 1);
    assert_eq!(h.total_restarts(200), 1);
    h.update(&[proc(300, "/bin/worker", None)], 2);
    assert_eq!(h.total_restarts(300), 2);
    assert_eq!(h.recent_restarts(300), Some(2));
    // a different process isn't affected
    h.update(&[proc(400, "/bin/other", None)], 3);
    assert_eq!(h.total_restarts(400), 0);
}

#[test]
fn cpu_delta_sampling() {
    let mut h = History::new();
    h.update(&[proc(10, "/bin/w", Some(1_000))], 0);
    assert!(h.cpu_now.get(&10).is_none(), "first sample has no delta");
    h.update(&[proc(10, "/bin/w", Some(1_120))], 120 * MS);
    // 120ms cpu in 120ms wall → 100%
    let v = match h.cpu_now.get(&10) {
        Some(r) => r.cpu_ms as f64 / r.wall_ms as f64 * 100.0,
        None => -1.0,
    };
    assert!(v > 40.0, "expected high instantaneous cpu, got {v}");
    assert_eq!(h.cpu_now[&10], Rate { cpu_ms: 120, wall_ms: 120 });
    assert!(h.spark(10).is_some());
}

#[test]
fn vanished_processes_are_pruned() {
    let mut h = History::new();
    h.update(&[proc(1, "/bin/a", None)], 0);
    assert_eq!(h.followed(), 1);
    h.update(&[], 1);
    assert!(h.cpu_now.is_empty());
    assert_eq!(h.followed(), 0);
}

#[test]
fn old_restarts_leave_the_window() {
    let mut h = History::new();
    h.update(&[proc(1, "/bin/a", None)], 0);
    h.update(&[proc(2, "/bin/a", None)], SECOND);
    assert_eq!(h.recent_restarts(2), Some(1));
    // five minutes later the event no longer counts as recent
    h.update(&[proc(2, "/bin/a", None)], 302 * SECOND);
    assert_eq!(h.recent_restarts(2), None);
    assert_eq!(h.total_restarts(2), 1);
}

#[test]
fn sparkline_keeps_the_last_samples() {
    let mut h = History::new();
    for i in 0..20u64 {
        h.update(&[proc(1, "/bin/a", Some(i * 500))], i * SECOND);
    }
    let s = h.spark(1).unwrap();
    assert_eq!(s.chars().count(), SAMPLES);
}

#[test]
fn display_falls_back_to_the_average() {
    let mut h = History::new();
    let mut p = proc(1, "/bin/a", Some(0));
    p.cpu = Some(1.5f64.to_bits());
    h.update(&[p.clone()], 0);
    assert_eq!(h.display_cpu(&p), Some(Reading::Average(1.5f64.to_bits())));
    p.cpu_time_ms = Some(250);
    h.update(&[p.clone()], SECOND);
    assert_eq!(h.display_cpu(&p), Some(Reading::Now(Rate { cpu_ms: 250, wall_ms: 1000 })));
    assert_eq!(h.display_cpu(&proc(9, "/bin/b", None)), None);
}

#[test]
fn live_siblings_are_no_restart() {
    let mut h = History::new();
    let both = [proc(100, "/bin/w", None), proc(200, "/bin/w", None)];
    for i in 0..3 {
        h.update(&both, i * SECOND);
        assert_eq!(h.total_restarts(100), 0);
        assert_eq!(h.total_restarts(200), 0);
        assert_eq!(h.recent_restarts(200), None);
    }
    // one more beside those that live on
    let three =
        [proc(300, "/bin/w", None), proc(100, "/bin/w", None), proc(200, "/bin/w", None)];
    h.update(&three, 3 * SECOND);
    assert_eq!(h.total_restarts(300), 0);
    // all of them gone, and back under new pids
    h.update(&[proc(400, "/bin/w", None), proc(500, "/bin/w", None)], 4 * SECOND);
    assert_eq!(h.total_restarts(400), 1);
    assert_eq!(h.total_restarts(500), 1);
    assert_eq!(h.recent_restarts(500), Some(1));
}

#[test]
fn a_pid_that_comes_back_is_no_restart() {
    let mut h = History::new();
    h.update(&[proc(100, "/bin/w", None)], 0);
    h.update(&[], SECOND);
    h.update(&[proc(100, "/bin/w", None)], 2 * SECOND);
    assert_eq!(h.total_restarts(100), 0);
    // a pid that another program had is new to this one
    h.update(&[proc(100, "/bin/w", None), proc(7, "/bin/sh", None)], 3 * SECOND);
    h.update(&[proc(7, "/bin/w", None)], 4 * SECOND);
    assert_eq!(h.total_restarts(7), 1);
    // back after a while under another pid
    h.update(&[], 5 * SECOND);
    h.update(&[proc(8, "/bin/w", None)], 6 * SECOND);
    assert_eq!(h.total_restarts(8), 2);
}

#[test]
fn rates_stop_at_four_cores() {
    let mut h = History::new();
    h.update(&[proc(1, "/bin/a", Some(0))], 0);
    h.update(&[proc(1, "/bin/a", Some(9_000))], SECOND);
    assert_eq!(h.cpu_now[&1], Rate { cpu_ms: 4_000, wall_ms: 1_000 });
    assert_eq!(h.spark(1), Some("█"));
    // a new process beside it has no rate yet
    h.update(&[proc(1, "/bin/a", Some(9_250)), proc(2, "/bin/b", Some(5))], 2 * SECOND);
    assert_eq!(h.cpu_now[&1], Rate { cpu_ms: 250, wall_ms: 1_000 });
    assert_eq!(h.spark(1), Some("█▃"));
    assert!(!h.cpu_now.contains_key(&2));
    assert_eq!(h.spark(2), None);
    // and one that is gone has none any more
    h.update(&[proc(2, "/bin/b", Some(5))], 3 * SECOND);
    assert!(!h.cpu_now.contains_key(&1));
    assert_eq!(h.spark(1), None);
}

#[test]
fn a_replaced_sibling_is_a_restart() {
    let mut h = History::new();
    h.update(&[proc(100, "/bin/w", None), proc(200, "/bin/w", None)], 0);
    h.update(&[proc(100, "/bin/w", None), proc(300, "/bin/w", None)], SECOND);
    assert_eq!(h.total_restarts(300), 1);
    assert_eq!(h.total_restarts(100), 1);
    // one that only ends is none
    h.update(&[proc(100, "/bin/w", None)], 2 * SECOND);
    assert_eq!(h.total_restarts(100), 1);
}
