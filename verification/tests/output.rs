use std::collections::HashMap;

use witr_rs::calendar::{civil_from_days, days_from_civil};
use witr_rs::cli::{exit_code, Cli, Mode};
use witr_rs::model::{Child, Pid, Process, Socket, Source, TargetReport, TargetSpec};
use witr_rs::num::{dec_i64, parse_i64, parse_u16};
use witr_rs::order::{field_of_text, key_of_one, positions, sort};
use witr_rs::pipeline::report;
use witr_rs::platform::Os;
use witr_rs::render::report::{render_export, render_short, render_standard, render_tree};
use witr_rs::render::{
    render, render_process_forest, render_process_table, Clock, Format, Painter,
};
use witr_rs::risk::Risk;
use witr_rs::text::{chars_of, joined, string_of};
use witr_rs::util::{
    basename, clipboard_outcome, clipboard_tools, fmt_age, fmt_time, fmt_time_utc,
    parse_etime_to_secs, parse_utc_offset, split_host_port, strip_deleted_suffix, Users,
};

#[test]
fn etime_formats() {
    assert_eq!(parse_etime_to_secs("42"), Some(42));
    assert_eq!(parse_etime_to_secs("12:05"), Some(725));
    assert_eq!(parse_etime_to_secs("03:10:31"), Some(11431));
    assert_eq!(parse_etime_to_secs("1-03:10:31"), Some(97831));
    assert_eq!(parse_etime_to_secs("bad"), None);
}

#[test]
fn deleted_suffix() {
    let (p, deleted) = strip_deleted_suffix("/usr/bin/foo (deleted)");
    assert_eq!(p, "/usr/bin/foo");
    assert!(deleted);
    let (p, deleted) = strip_deleted_suffix("/usr/bin/foo");
    assert_eq!(p, "/usr/bin/foo");
    assert!(!deleted);
}

#[test]
fn age_format() {
    assert_eq!(fmt_age(42), "42s");
    assert_eq!(fmt_age(312), "5m 12s");
    assert_eq!(fmt_age(8000), "2h 13m");
    assert_eq!(fmt_age(265_000), "3d 1h");
}

#[test]
fn epoch() {
    // pure UTC formatting (no local offset applied)
    assert_eq!(fmt_time_utc(0), "1970-01-01 00:00:00");
    assert_eq!(fmt_time_utc(1_000_000_000), "2001-09-09 01:46:40");
    // fmt_time must differ from UTC by exactly the machine's offset
    let now = 1_700_000_000;
    let offset = parse_utc_offset("+0800");
    assert_eq!(fmt_time_utc(now + offset), fmt_time(now, offset));
}

#[test]
fn times_before_the_epoch() {
    assert_eq!(fmt_time_utc(-1), "1969-12-31 23:59:59");
    assert_eq!(fmt_age(-5), "0s");
    assert_eq!(parse_utc_offset("+0530\n"), 19_800);
    assert_eq!(parse_utc_offset("-0330"), -12_600);
    assert_eq!(parse_utc_offset("later"), 0);
}

#[test]
fn days_and_dates_convert_both_ways() {
    assert_eq!(civil_from_days(0), (1970, 1, 1));
    assert_eq!(civil_from_days(19_723), (2024, 1, 1));
    assert_eq!(days_from_civil(2024, 2, 29), 19_782);
    for z in [-800_000, -1, 0, 59, 60, 365, 11_016, 19_782, 2_000_000] {
        let (y, m, d) = civil_from_days(z);
        assert_eq!(days_from_civil(y, m, d), z);
    }
}

#[test]
fn numbers_read_back() {
    for n in [0, 7, -7, i64::MAX, i64::MIN] {
        assert_eq!(parse_i64(&chars_of(&dec_i64(n))), Some(n));
    }
    assert_eq!(parse_u16(&chars_of("65535")), Some(65535));
    assert_eq!(parse_u16(&chars_of("65536")), None);
    assert_eq!(parse_u16(&chars_of("")), None);
}

#[test]
fn texts_join() {
    assert_eq!(joined(&vec!["a".into(), "b".into()], ", "), "a, b");
    assert_eq!(string_of(&chars_of("wörd")), "wörd");
}

#[test]
fn equal_keys_keep_their_order() {
    let keys: Vec<Vec<Vec<i64>>> =
        ["b", "a", "b", "a"].iter().map(|s| key_of_one(field_of_text(s))).collect();
    assert_eq!(sort(&positions(4), &keys, false), [1, 3, 0, 2]);
    assert_eq!(sort(&positions(4), &keys, true), [0, 2, 1, 3]);
}

#[test]
fn hosts_and_names() {
    assert_eq!(split_host_port("127.0.0.1:80"), Some(("127.0.0.1".into(), 80)));
    assert_eq!(split_host_port("[::1]:443"), Some(("::1".into(), 443)));
    assert_eq!(split_host_port("nothing"), None);
    assert_eq!(basename("/usr/bin/nginx"), "nginx");
    let mut users = Users::load("root:x:0:0\nbad\n");
    assert_eq!(users.name_for(0, None).as_deref(), Some("root"));
    assert_eq!(users.name_for(9, Some("  nine \n")).as_deref(), Some("nine"));
    // the first answer stays
    assert_eq!(users.name_for(9, Some("other")).as_deref(), Some("nine"));
    assert_eq!(users.name_for(10, None), None);
    assert!(users.knows(10));
}

#[test]
fn clipboard_tools_by_system() {
    assert_eq!(clipboard_tools(Os::MacOs), [["pbcopy"]]);
    assert_eq!(clipboard_tools(Os::Linux)[1], ["xclip", "-selection", "clipboard"]);
    assert_eq!(clipboard_tools(Os::Windows), [["clip"]]);
    assert_eq!(clipboard_outcome(&vec![false, true], 5), Ok(5));
    assert!(clipboard_outcome(&vec![false], 5).is_err());
}

// ---------- command line ----------

fn cli() -> Cli {
    Cli {
        names: vec![],
        pids: vec![],
        ports: vec![],
        files: vec![],
        exact: false,
        tree: false,
        short: false,
        json: false,
        env: false,
        no_color: false,
        list: false,
        export: false,
    }
}

#[test]
fn modes_of_the_command_line() {
    assert_eq!(cli().mode(true), Mode::Interactive);
    assert_eq!(cli().mode(false), Mode::Listing);
    assert_eq!(Cli { list: true, ..cli() }.mode(true), Mode::Listing);
    assert_eq!(Cli { tree: true, ..cli() }.mode(true), Mode::Listing);
    assert_eq!(Cli { json: true, ..cli() }.mode(true), Mode::Listing);
    assert_eq!(Cli { pids: vec![1], ..cli() }.mode(true), Mode::Trace);
    let c = Cli { json: true, short: true, tree: true, ..cli() };
    assert_eq!(c.report_format(), Format::Json);
    assert_eq!(Cli { short: true, tree: true, ..cli() }.report_format(), Format::Short);
    assert_eq!(Cli { short: true, tree: true, ..cli() }.listing_format(), Format::Tree);
    assert!(!Cli { no_color: true, ..cli() }.color(true, Format::Tree));
    assert!(cli().color(true, Format::Tree));
    assert!(!cli().color(true, Format::Json));
    assert!(Cli { export: true, ..cli() }.options().want_env);
}

#[test]
fn targets_come_in_their_order() {
    let c = Cli {
        names: vec!["nginx".into()],
        pids: vec![1, 2],
        ports: vec![80],
        files: vec!["/x".into()],
        exact: true,
        ..cli()
    };
    let words: Vec<String> = c.targets().iter().map(|t| t.describe()).collect();
    assert_eq!(words, ["process named \"nginx\" (exact)", "pid 1", "pid 2", "port 80", "file /x"]);
}

#[test]
fn exit_codes() {
    let gone = || TargetReport::not_found(TargetSpec::Pid { pid: 1 }, "gone".into());
    let broken = TargetReport::not_found(
        TargetSpec::Pid { pid: 1 },
        "cannot list processes: x".into(),
    );
    assert_eq!(exit_code(&[]), 0);
    assert_eq!(exit_code(&[gone()]), 2);
    assert_eq!(exit_code(&[gone(), broken]), 5);
    assert_eq!(exit_code(&[sample()]), 1);
    let clean = TargetReport { warnings: vec![], ..sample() };
    assert_eq!(exit_code(&[clean]), 0);
}

// ---------- reports ----------

/// 2026-09-12 23:56:55
const STARTED: i64 = 1_789_257_415;

const CLOCK: Clock = Clock { now: STARTED + 3, offset: 0 };

fn link(pid: Pid, ppid: Option<Pid>, name: &str, user: &str) -> Process {
    Process { pid, ppid, name: name.into(), user: Some(user.into()), ..Default::default() }
}

fn python() -> Process {
    Process {
        started: Some(STARTED),
        cwd: Some("/Users/yaojack/work".into()),
        exe: Some("/Users/yaojack/anaconda3/bin/python3.11".into()),
        cmdline: vec!["python3".into(), "-m".into(), "http.server".into(), "8919".into()],
        ..link(57097, Some(57095), "python3", "yaojack")
    }
}

fn sample() -> TargetReport {
    let map: HashMap<Pid, Process> = [
        link(1, None, "launchd", "root"),
        link(57095, Some(1), "zsh", "yaojack"),
        python(),
    ]
    .into_iter()
    .map(|p| (p.pid, p))
    .collect();
    let sockets = vec![Socket {
        proto: "tcp6".into(),
        local_addr: "*".into(),
        local_port: 8919,
        peer_addr: None,
        peer_port: None,
        state: "LISTEN".into(),
        pid: Some(57097),
    }];
    report(
        &map,
        &TargetSpec::Port { port: 8919 },
        57097,
        &sockets,
        &vec![],
        python(),
        None,
        None,
    )
}

#[test]
fn sample_report() {
    let want = "\
== port 8919 ==
python3 — pid 57097 (user yaojack)
  started 2026-09-12 23:56:55 (3s ago)
  cwd /Users/yaojack/work
  exe /Users/yaojack/anaconda3/bin/python3.11
  cmd python3 -m http.server 8919

  started by:
    shell zsh — started from a zsh shell (pid 57095)

  chain (root → this):
    launchd            pid 1      root
    └─ zsh             pid 57095  yaojack
       └─ python3      pid 57097  yaojack  ← this

  sockets:
    tcp6  *:8919 LISTEN

  warnings:
  ⚠ pid 57097 listens on all interfaces (*:8919)
";
    assert_eq!(render_standard(&sample(), &Painter::new(false), CLOCK), want);
    assert_eq!(render(&[sample()], Format::Standard, false, CLOCK).as_deref(), Some(want));
}

#[test]
fn formats_differ() {
    let plain = Painter::new(false);
    let r = sample();
    let short = render_short(&r, &plain, CLOCK);
    assert_eq!(short.lines().count(), 1);
    assert!(short.contains("57097"));
    let tree = render_tree(&r, &plain);
    assert!(tree.contains("launchd"));
    assert!(tree.contains("python3"));
    assert_eq!(render(&[sample()], Format::Json, false, CLOCK), None);
    let painted = render_standard(&r, &Painter::new(true), CLOCK);
    assert!(painted.contains("\x1b[1m"));
    assert_ne!(painted, render_standard(&r, &plain, CLOCK));
}

#[test]
fn missing_target_says_why() {
    let r = TargetReport::not_found(TargetSpec::Pid { pid: 9 }, "gone".into());
    assert_eq!(render_standard(&r, &Painter::new(false), CLOCK), "== pid 9 ==\n  gone\n");
}

#[test]
fn risk_and_children_are_shown() {
    let mut r = sample();
    r.risk = Some(Risk { score: 3, signals: vec!["a".into(), "b".into()] });
    r.children = vec![Child { pid: 9, name: "sub".into(), command: "sub".into() }];
    let s = render_standard(&r, &Painter::new(false), CLOCK);
    assert!(s.contains("risk 3/10: a; b"));
    assert!(s.contains("  children (1):\n    pid 9       sub\n"));
    let t = render_tree(&r, &Painter::new(false));
    assert!(t.contains("sub"));
}

#[test]
fn export_lists_values() {
    let mut r = sample();
    r.matches[0].env = Some(vec![("HOME".into(), "/Users/yaojack".into())]);
    let files = vec![(57097, vec!["/var/log/x".to_string()])];
    let s = render_export(&[r], &files, CLOCK);
    assert!(s.starts_with("== witr-rs report: port 8919 ==\n"));
    assert!(s.contains("pid:      57097\n"));
    assert!(s.contains("HOME=/Users/yaojack"));
    assert!(s.contains("/var/log/x"));
}

#[test]
fn process_table_is_sorted_by_pid() {
    let procs =
        vec![link(20, Some(1), "b", "me"), Process { started: Some(STARTED), ..link(1, None, "a", "root") }];
    let s = render_process_table(&procs, &Painter::new(false), CLOCK);
    let want = "\
PID  PPID  USER  AGE  NAME
  1     -  root   3s  a
 20     1  me      -  b

2 process(es)
";
    assert_eq!(s, want);
}

#[test]
fn forest_shows_every_process() {
    let procs = vec![
        link(1, None, "init", "root"),
        link(3, Some(1), "b", "me"),
        link(2, Some(1), "a", "me"),
        link(4, Some(2), "c", "me"),
        link(9, Some(77), "lost", "me"),
    ];
    let s = render_process_forest(&procs, &Painter::new(false));
    let want = "\
init (pid 1, root)
├─ a (pid 2, me)
│  └─ c (pid 4, me)
└─ b (pid 3, me)
lost (pid 9, me)

5 process(es)
";
    assert_eq!(s, want);
}

#[test]
fn painter_wraps_only_when_enabled() {
    assert_eq!(Painter::new(false).bold("x"), "x");
    assert_eq!(Painter::new(true).bold("x"), "\x1b[1mx\x1b[0m");
    assert_eq!(Painter::new(true).dim("x"), "\x1b[2mx\x1b[0m");
    assert_eq!(Painter::new(true).yellow("x"), "\x1b[33mx\x1b[0m");
    assert_eq!(Painter::new(true).green("x"), "\x1b[32mx\x1b[0m");
    let s = Source { kind: "cron".into(), label: None, detail: None };
    assert_eq!(s.clone().kind, "cron");
}

#[test]
fn forest_breaks_circles_at_the_lowest_pid() {
    let bare = |pid: Pid, ppid: Option<Pid>, name: &str| Process {
        pid,
        ppid,
        name: name.into(),
        ..Default::default()
    };
    let procs = vec![
        bare(11, Some(10), "b"),
        bare(10, Some(11), "a"),
        bare(12, Some(11), "c"),
        bare(1, None, "init"),
        bare(33, Some(31), "z"),
        bare(32, Some(33), "y"),
        bare(31, Some(32), "x"),
    ];
    let s = render_process_forest(&procs, &Painter::new(false));
    let want = "\
init (pid 1, -)
a (pid 10, -)
└─ b (pid 11, -)
   └─ c (pid 12, -)
x (pid 31, -)
└─ z (pid 33, -)
   └─ y (pid 32, -)

7 process(es)
";
    assert_eq!(s, want);
    for p in &procs {
        let line = format!("{} (pid {}, -)", p.name, p.pid);
        assert_eq!(s.matches(&line).count(), 1);
    }
}

#[test]
fn a_target_is_missing_whatever_its_name() {
    let r = TargetReport::not_found(
        TargetSpec::Name { pattern: "cannot list".into(), exact: false },
        "no process matching \"cannot list\"".into(),
    );
    assert_eq!(exit_code(&[r]), 2);
}
