use std::collections::HashMap;

use witr_rs::model::{Pid, Process, Socket};
use witr_rs::platform::linux::{
    belongs_to, boot_time, build_socket, container_source, hex_v4, hex_v6, holds_file, list_entry,
    list_sockets, note_owners, open_files, parse_cgroup, parse_cmdline, parse_environ,
    parse_net_entry, parse_stat, parse_status, parse_uid_from_status, port_to_sockets,
    read_socket_table, started_at, Entry, Linux,
};
use witr_rs::platform::macos::{
    file_to_pids, job_label, parse_launchctl_pid_label, parse_lsof_net, parse_lsof_net_line,
    parse_ps_detail_line, parse_ps_env, parse_ps_list_line, plist_candidates, MacOs,
};
use witr_rs::platform::windows::{
    base64_utf16le, cim_script, netstat_sockets, parse_netstat, parse_stamp, parse_tasklist_csv,
    parse_tasklist_mem, service_names, stamp_seconds, CimRow, Stamp,
};
use witr_rs::platform::{
    enumerate_containers, parse_container_line, sort_sockets, PlatError,
};
use witr_rs::platform::{linux, macos, windows};
use witr_rs::text::{chars_of, rcut_once, without_prefix, Class};
use witr_rs::util::Users;

// ---------- linux ----------

#[test]
fn stat_parse() {
    // fields after ')': state(3) ppid(4) ... starttime(22)=token 19, vsize(23), rss(24)=token 21
    let line = "1234 (nginx: worker) S 350 1234 1234 0 -1 4194560 ... 0 0 0 0 0 0 0 0 0 0 0 123456 789012 123";
    let (comm, ppid, state, start, cpu_ticks, rss) = parse_stat(line).unwrap();
    assert_eq!(comm, "nginx: worker");
    assert_eq!(ppid, 350);
    assert_eq!(state, 'S');
    assert_eq!(start, 123456);
    assert_eq!(cpu_ticks, 0);
    assert_eq!(rss, 123);
}

#[test]
fn stat_without_fields_is_refused() {
    assert!(parse_stat("1234 nginx S").is_none());
    assert!(parse_stat("1234 (nginx) S").is_none());
}

#[test]
fn net_tcp_line() {
    let line = "   0: 0100007F:1F90 00000000:0000 0A 00000000:00000000 00:00000000 00000000  1000        0 12345 1 0000000000000000 100 0 0 10 0";
    let (addr, port, rem, state, inode) = parse_net_entry(line, "tcp").unwrap();
    assert_eq!(addr, "127.0.0.1");
    assert_eq!(port, 8080);
    assert_eq!(state, "LISTEN");
    assert_eq!(inode, 12345);
    assert_eq!(rem, "00000000:0000");
}

#[test]
fn v6_format() {
    // ::1 in /proc/net/tcp6 layout
    assert_eq!(hex_v6("00000000000000000000000001000000").unwrap(), "::1");
    assert_eq!(hex_v4("0100007F").unwrap(), "127.0.0.1");
}

#[test]
fn bad_addresses_are_refused() {
    assert!(hex_v4("0100").is_none());
    assert!(hex_v4("zz00007F").is_none());
    assert!(hex_v6("01").is_none());
}

#[test]
fn cgroup_docker() {
    let line = "11:pids:/docker/9f1a2b3c4d5e6f7a8b9c0d1e2f3a4b5c6d7e8f9a0b1c2d3e4f5a6b7c8d9e0f1a";
    let c = chars_of(line);
    let (_, p) = rcut_once(&c, Class::Is(':')).unwrap();
    assert!(without_prefix(p, "/docker/").is_some());
    let (runtime, id) = parse_cgroup(line).unwrap();
    assert_eq!(runtime, "docker");
    assert_eq!(id, "9f1a2b3c4d5e");
    assert!(belongs_to(line, "9f1a2b3c4d5e"));
    assert!(!belongs_to(line, "000000000000"));
    assert!(parse_cgroup("0::/user.slice").is_none());
}

#[test]
fn container_label_is_the_short_id() {
    let id = "9f1a2b3c4d5e6f7a8b9c0d1e2f3a4b5c6d7e8f9a0b1c2d3e4f5a6b7c8d9e0f1a";
    let s = container_source("docker", id, None);
    assert_eq!(s.kind, "container");
    assert!(s.label.unwrap().contains("9f1a2b3c4d5e"));
}

#[test]
fn boot_and_start_times() {
    assert_eq!(boot_time("cpu 1 2\nbtime 1700000000\nprocesses 5\n"), Some(1_700_000_000));
    assert_eq!(boot_time("cpu 1 2\n"), None);
    assert_eq!(started_at(1_700_000_000, 12_345), Some(1_700_000_123));
    assert_eq!(started_at(1_700_000_000, 50), Some(1_700_000_001));
}

#[test]
fn uid_comes_from_the_status() {
    assert_eq!(parse_uid_from_status("Name:\tx\nUid:\t1000\t1000\t1000\t1000\n"), Some(1000));
    assert_eq!(parse_uid_from_status("Name:\tx\n"), None);
}

#[test]
fn linux_entries_name_their_user() {
    let mut l = Linux::new(Users::load("root:x:0:0:root:/root:/bin/sh\nme:x:1000:1000::/home/me:/bin/sh\n"));
    assert!(l.knows(1000));
    assert!(!l.knows(7));
    let stat = ("sh".to_string(), 1, 'S', 100, 5, 10);
    let p = l.entry(42, 1_700_000_000, stat, Some(1000), None, None);
    assert_eq!(p.user.as_deref(), Some("me"));
    assert_eq!(p.cpu_time_ms, Some(50));
    assert_eq!(p.mem_kb, Some(40));
    assert_eq!(p.ppid, Some(1));
    let stat = ("sh".to_string(), 1, 'S', 100, 5, 10);
    let p = l.entry(43, 1_700_000_000, stat, Some(7), Some("seven\n"), None);
    assert_eq!(p.user.as_deref(), Some("seven"));
    // the answer is kept
    assert!(l.knows(7));
    let stat = ("sh".to_string(), 1, 'S', 100, 5, 10);
    let p = list_entry(44, 0, stat, None, None, None);
    assert_eq!(p.started, Some(1));
    assert_eq!(p.uid, None);
}

#[test]
fn null_separated_bytes() {
    assert_eq!(parse_cmdline(b"nginx\0-g\0daemon off;\0"), ["nginx", "-g", "daemon off;"]);
    let env = parse_environ(b"PATH=/bin\0HOME=/root\0BROKEN\0");
    assert_eq!(env.len(), 2);
    assert_eq!(env[0], ("PATH".to_string(), "/bin".to_string()));
}

#[test]
fn bytes_that_are_no_text_are_replaced() {
    assert_eq!(parse_cmdline(b"a\xff\0"), ["a\u{fffd}"]);
}

#[test]
fn linux_detail_reads_the_links() {
    let brief = Process { pid: 5, name: "srv".into(), ..Default::default() };
    let p = linux::detail(
        &brief,
        Some("/usr/bin/srv (deleted)".into()),
        Some("/srv".into()),
        Some(b"srv\0-x\0"),
        Some(b"A=1\0"),
    );
    assert_eq!(p.exe.as_deref(), Some("/usr/bin/srv"));
    assert!(p.exe_deleted);
    assert_eq!(p.cwd.as_deref(), Some("/srv"));
    assert_eq!(p.cmdline, ["srv", "-x"]);
    assert_eq!(p.env.unwrap().len(), 1);
}

const TCP: &str = "  sl  local_address rem_address   st tx_queue rx_queue tr tm->when retrnsmt   uid  timeout inode\n   0: 0100007F:1F90 00000000:0000 0A 00000000:00000000 00:00000000 00000000  1000        0 12345 1 0000000000000000 100 0 0 10 0\n   1: 0100007F:1F90 0100007F:C350 01 00000000:00000000 00:00000000 00000000  1000        0 12346 1 0000000000000000 100 0 0 10 0\n";

#[test]
fn socket_table_to_sockets() {
    let mut entries: Vec<Entry> = Vec::new();
    read_socket_table("tcp", TCP, &mut entries);
    assert_eq!(entries.len(), 2);
    let mut owners: HashMap<u64, Pid> = HashMap::new();
    note_owners(&mut owners, 77, &vec!["socket:[12345]".into(), "/dev/null".into()]);
    assert_eq!(owners.get(&12345), Some(&77));
    let all = port_to_sockets(&entries, 8080, &owners);
    assert_eq!(all.len(), 2);
    assert!(port_to_sockets(&entries, 1, &owners).is_empty());
    let listening = list_sockets(&entries, &owners);
    assert_eq!(listening.len(), 1);
    assert_eq!(listening[0].pid, Some(77));
    let live = build_socket(&entries[1], &owners);
    assert_eq!(live.state, "ESTABLISHED");
    assert_eq!(live.peer_port, Some(50000));
    assert_eq!(live.pid, None);
}

#[test]
fn open_files_are_paths() {
    let links: Vec<String> =
        vec!["/var/log/x".into(), "socket:[1]".into(), "/dev/null".into(), "/var/log/x".into()];
    let files = open_files(&links);
    assert!(files.contains(&"/var/log/x".to_string()));
    assert!(!files.iter().any(|f| f.starts_with("socket:")));
    assert!(holds_file(&links, "/var/log/x"));
    assert!(!holds_file(&links, "/var/log/y"));
}

#[test]
fn systemd_status_lines() {
    let u = parse_status("● nginx.service - A web server\n     Loaded: loaded (/lib/systemd/system/nginx.service; enabled)\n");
    assert_eq!(u.name.as_deref(), Some("nginx.service"));
    assert_eq!(u.description.as_deref(), Some("A web server"));
}

// ---------- macos ----------

#[test]
fn ps_env_parse() {
    let out = "1234 /usr/bin/python3 -c x PATH=/usr/bin:/bin HOME=/Users/me SHELL=/bin/zsh TERM=xterm-256color";
    let env = parse_ps_env(out);
    let get = |k: &str| env.iter().find(|(n, _)| n == k).map(|(_, v)| v.clone());
    assert_eq!(get("PATH").as_deref(), Some("/usr/bin:/bin"));
    assert_eq!(get("HOME").as_deref(), Some("/Users/me"));
    assert_eq!(get("SHELL").as_deref(), Some("/bin/zsh"));
    assert_eq!(get("TERM").as_deref(), Some("xterm-256color"));
    // the command's own tokens don't produce entries
    assert!(!env.iter().any(|(n, _)| n == "c"));
}

#[test]
fn ps_env_parse_filters_and_dedups() {
    // numbers-only / weird names are dropped, duplicates keep first
    let out = "1 run 1BAD=x _PRIVATE=y LC_CTYPE=UTF-8 LC_CTYPE=dup";
    let env = parse_ps_env(out);
    assert!(env.iter().all(|(n, _)| n != "1BAD"));
    assert_eq!(
        env.iter().find(|(n, _)| n == "_PRIVATE").map(|(_, v)| v.as_str()),
        Some("y")
    );
    assert_eq!(
        env.iter().filter(|(n, _)| n == "LC_CTYPE").count(),
        1,
        "duplicate names keep one entry"
    );
}

#[test]
fn ps_list_line() {
    let now: i64 = 1_700_000_000;
    let (row, cpu) = parse_ps_list_line(
        "  350   1   501 2-03:10:31  1.2  45600 /opt/homebrew/bin/nginx",
        now,
    )
    .unwrap();
    let cpu: Option<u64> = cpu.parse::<f64>().ok().map(|c| c.to_bits());
    let p = MacOs::new(Users::load("")).entry(row, None, cpu);
    assert_eq!(p.pid, 350);
    assert_eq!(p.ppid, Some(1));
    assert_eq!(p.uid, Some(501));
    assert_eq!(p.started, Some(now - 184_231));
    assert_eq!(p.cpu.map(f64::from_bits), Some(1.2));
    assert_eq!(p.mem_kb, Some(45600));
    assert_eq!(p.name, "nginx");
    assert_eq!(p.exe.as_deref(), Some("/opt/homebrew/bin/nginx"));
}

#[test]
fn ps_list_line_with_spaces_in_path() {
    let (p, _) = parse_ps_list_line(
        "  999   1   0  42  0.0   1024 /Applications/My App/Helper --flag",
        1_700_000_000,
    )
    .unwrap();
    assert_eq!(p.exe.as_deref(), Some("/Applications/My App/Helper --flag"));
    assert_eq!(p.name, "Helper --flag");
}

#[test]
fn ps_detail_line() {
    let (pid, cmd) = parse_ps_detail_line("  1234 nginx: worker process").unwrap();
    assert_eq!(pid, 1234);
    assert_eq!(cmd, "nginx: worker process");
}

#[test]
fn lsof_listen_line() {
    let s = parse_lsof_net_line("nginx  1234  yao   12u  IPv4  0xttt  0t0  TCP *:8080 (LISTEN)")
        .unwrap();
    assert_eq!(s.pid, Some(1234));
    assert_eq!(s.proto, "tcp");
    assert_eq!(s.local_addr, "*");
    assert_eq!(s.local_port, 8080);
    assert_eq!(s.state, "LISTEN");
}

#[test]
fn lsof_established_v6() {
    let s = parse_lsof_net_line(
        "curl  4321  yao   5u  IPv6  0xttt  0t0  TCP [2001:db8::1]:54321->[2001:db8::2]:443 (ESTABLISHED)",
    )
    .unwrap();
    assert_eq!(s.proto, "tcp6");
    assert_eq!(s.local_addr, "2001:db8::1");
    assert_eq!(s.local_port, 54321);
    assert_eq!(s.peer_addr.as_deref(), Some("2001:db8::2"));
    assert_eq!(s.peer_port, Some(443));
    assert_eq!(s.state, "ESTABLISHED");
}

#[test]
fn launchctl_line() {
    let (pid, label) = parse_launchctl_pid_label("350\t0\torg.example.nginx").unwrap();
    assert_eq!(pid, 350);
    assert_eq!(label, "org.example.nginx");
    assert!(parse_launchctl_pid_label("-\t0\tnot.running").is_none());
    assert_eq!(
        job_label("PID\tStatus\tLabel\n350\t0\torg.example.nginx\n", 350).as_deref(),
        Some("org.example.nginx")
    );
}

#[test]
fn plists_are_looked_for_at_home_too() {
    let c = plist_candidates("org.example.nginx", Some("/Users/me".into()));
    assert!(c.iter().any(|p| p == "/Users/me/Library/LaunchAgents/org.example.nginx.plist"));
    assert!(c.iter().any(|p| p == "/Library/LaunchDaemons/org.example.nginx.plist"));
}

#[test]
fn lsof_output_may_be_silent() {
    assert!(parse_lsof_net("").is_empty());
    let s = macos::port_to_sockets(80, b"", b"").unwrap();
    assert!(s.is_empty());
    let pids = file_to_pids(b"COMMAND PID USER\nnginx 12 me\nsh 7 me\n", b"").unwrap();
    assert_eq!(pids, [12, 7]);
    let denied = file_to_pids(b"", b"lsof: Permission denied\n");
    assert!(matches!(denied, Err(PlatError::Permission(_))));
}

// ---------- windows ----------

#[test]
fn base64_matches_known_vectors() {
    // UTF-16LE of "hi" = 68 00 69 00
    assert_eq!(base64_utf16le("hi"), "aABpAA==");
    assert_eq!(base64_utf16le(""), "");
}

#[test]
fn base64_of_a_character_beyond_the_basic_plane() {
    // U+1F600 = d83d de00, so the bytes 3d d8 00 de
    assert_eq!(base64_utf16le("😀"), "PdgA3g==");
}

#[test]
fn netstat_lines() {
    let text = "\n\n\n  Proto  Local Address          Foreign Address        State           PID\n  \
                TCP    0.0.0.0:135            0.0.0.0:0              LISTENING       1234\n  \
                UDP    0.0.0.0:5353           *:*                                    5678\n  \
                TCP    [::]:445               [::]:0                 LISTENING       7777\n";
    let socks = parse_netstat(text, "tcp");
    assert_eq!(socks.len(), 3);
    assert_eq!(socks[0].local_port, 135);
    assert_eq!(socks[0].state, "LISTENING");
    assert_eq!(socks[0].pid, Some(1234));
    assert_eq!(socks[1].state, "UNCONNECTED");
    assert_eq!(socks[1].proto, "udp");
    assert_eq!(socks[2].local_addr, "::");
    assert_eq!(socks[2].proto, "tcp6");
    let on_port = netstat_sockets(text.as_bytes(), b"", 445);
    assert_eq!(on_port.len(), 1);
    assert_eq!(on_port[0].pid, Some(7777));
    assert!(!windows::list_sockets(text.as_bytes(), b"").is_empty());
}

#[test]
fn tasklist_csv_row() {
    let rows = parse_tasklist_csv("\"nginx.exe\",\"1234\",\"SvcA, SvcB\"\r\n\"idle\",\"0\",\"N/A\"\r\n");
    assert_eq!(rows.len(), 2);
    assert_eq!(rows[0].0, "nginx.exe");
    assert_eq!(rows[0].1, 1234);
    assert_eq!(rows[0].2, vec!["SvcA", "SvcB"]);
    assert!(rows[1].2.is_empty());
    assert_eq!(service_names(b"\"nginx.exe\",\"1234\",\"SvcA, SvcB\"\r\n"), ["SvcA", "SvcB"]);
}

fn ps_datetime_to_unix(s: Option<&str>) -> Option<i64> {
    match parse_stamp(s?)? {
        Stamp::Seconds(n) => Some(n),
        Stamp::Civil { year, month, day, clock } => {
            let parts: Vec<i64> =
                clock.iter().filter_map(|p| p.parse::<f64>().ok().map(|f| f as i64)).collect();
            stamp_seconds(year, month, day, &parts)
        }
    }
}

#[test]
fn ps_datetime() {
    // 2023-09-12T04:53:20.123Z = 1694494400.123 unix
    assert_eq!(ps_datetime_to_unix(Some("/Date(1694494400123)/")), Some(1694494400));
    assert_eq!(
        ps_datetime_to_unix(Some("2023-09-12T04:53:20.123")),
        ps_datetime_to_unix(Some("/Date(1694494400123)/"))
    );
    assert_eq!(ps_datetime_to_unix(None), None);
}

#[test]
fn memory_column_drops_its_separators() {
    let m = parse_tasklist_mem("\"nginx.exe\",\"1234\",\"Console\",\"1\",\"12,345 K\"\r\n");
    assert_eq!(m.get(&1234), Some(&12345));
}

#[test]
fn windows_detail_takes_the_row() {
    let brief = Process { pid: 5, name: "srv".into(), ..Default::default() };
    let row = CimRow {
        ppid: Some(4),
        exe: Some("C:\\srv.exe".into()),
        cmd: Some("srv -x".into()),
        started: Some(1_700_000_000),
        user: Some("me".into()),
    };
    let p = windows::detail(&brief, &Some(row));
    assert_eq!(p.exe.as_deref(), Some("C:\\srv.exe"));
    assert_eq!(p.started, Some(1_700_000_000));
    assert_eq!(p.user.as_deref(), Some("me"));
    assert_eq!(windows::detail(&brief, &None).name, "srv");
    assert!(cim_script(&vec![5, 7]).contains("5"));
    assert!(cim_script(&vec![5, 7]).contains("7"));
}

// ---------- shared ----------

#[test]
fn running_containers_are_listed_first() {
    let docker = "{\"ID\":\"aaa\",\"Names\":\"old\",\"Image\":\"x\",\"State\":\"exited\",\"Status\":\"Exited (0)\"}\n{\"ID\":\"bbb\",\"Names\":\"web\",\"Image\":\"nginx\",\"State\":\"running\",\"Status\":\"Up\"}\nnot json\n";
    let all = enumerate_containers(&vec![("docker".to_string(), docker.to_string())]);
    assert_eq!(all.len(), 2);
    assert_eq!(all[0].name, "web");
    assert_eq!(all[1].name, "old");
}

#[test]
fn json_escapes_are_read() {
    let c = parse_container_line("{\"ID\":\"a\\u0062c\",\"Names\":\"x\"}", "docker").unwrap();
    assert_eq!(c.id, "abc");
}

#[test]
fn platform_errors_have_words() {
    assert!(PlatError::Unsupported("x".into()).message().contains("x"));
    assert!(PlatError::Permission("root needed".into()).message().contains("root needed"));
    assert_eq!(PlatError::Failed("boom".into()).message(), "boom");
}

#[test]
fn sockets_sort_by_port() {
    let s = |port: u16| Socket {
        proto: "tcp".into(),
        local_addr: "*".into(),
        local_port: port,
        peer_addr: None,
        peer_port: None,
        state: "LISTEN".into(),
        pid: None,
    };
    let v = sort_sockets(&vec![s(443), s(22), s(80)]);
    let ports: Vec<u16> = v.iter().map(|s| s.local_port).collect();
    assert_eq!(ports, [22, 80, 443]);
}

#[test]
fn v6_sockets_have_their_states() {
    let line = "   0: 00000000000000000000000000000000:0050 00000000000000000000000000000000:0000 0A 00000000:00000000 00:00000000 00000000  0        0 777 1 0000000000000000 100 0 0 10 0\n";
    let mut entries: Vec<Entry> = Vec::new();
    read_socket_table("tcp6", &format!("header\n{line}"), &mut entries);
    let owners: HashMap<u64, Pid> = HashMap::new();
    let found = list_sockets(&entries, &owners);
    assert_eq!(found.len(), 1);
    assert_eq!(found[0].state, "LISTEN");
    assert_eq!(found[0].proto, "tcp6");
    assert_eq!(found[0].local_port, 80);
    assert_eq!(linux::socket_state_name("01", "tcp6"), "ESTABLISHED");
    assert_eq!(linux::socket_state_name("07", "udp6"), "UNCONNECTED");
}

#[test]
fn port_lookup_takes_the_local_port() {
    let out = b"COMMAND PID USER FD TYPE DEVICE SIZE/OFF NODE NAME
nginx  10  me  6u  IPv4  0x1  0t0  TCP *:443 (LISTEN)
nginx  10  me  7u  IPv4  0x1  0t0  TCP *:443 (LISTEN)
nginx  10  me  8u  IPv4  0x2  0t0  TCP 10.0.0.1:443->10.0.0.2:5000 (ESTABLISHED)
nginx  10  me  9u  IPv4  0x3  0t0  TCP 10.0.0.1:443->10.0.0.3:5001 (ESTABLISHED)
curl   11  me  5u  IPv4  0x4  0t0  TCP 10.0.0.1:6000->10.0.0.9:443 (ESTABLISHED)
nginx  10  me  9u  IPv4  0x1  0t0  TCP *:443 (LISTEN)
";
    let s = macos::port_to_sockets(443, out, b"").unwrap();
    assert_eq!(s.len(), 3);
    assert!(s.iter().all(|x| x.local_port == 443 && x.pid == Some(10)));
    let peers: Vec<Option<u16>> = s.iter().map(|x| x.peer_port).collect();
    assert_eq!(peers, [None, Some(5000), Some(5001)]);
    let denied = macos::port_to_sockets(443, b"", b"lsof: Permission denied\n");
    assert!(matches!(denied, Err(PlatError::Permission(_))));
}
