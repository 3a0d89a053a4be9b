use sshp4ru::config::Config;
use sshp4ru::hosts::{parse_hosts, CpState};
use sshp4ru::join::finish_join_seeded;
use sshp4ru::supervisor::Supervisor;

fn args(list: &[&str]) -> Vec<Vec<u8>> {
    list.iter().map(|s| s.as_bytes().to_vec()).collect()
}

fn text(v: &[u8]) -> String {
    String::from_utf8(v.to_vec()).unwrap()
}

/// Drive one host through spawn, one chunk, end of stream and reaping,
/// returning everything the supervisor emitted.
fn run_one(sup: &mut Supervisor, pid: i32, fd_a: i32, fd_b: i32, chunk: &[u8], code: i32) -> String {
    let mut printed = String::new();
    if fd_b >= 0 {
        printed += &text(&sup.note_spawned(pid, fd_a, fd_b, -1, 5));
    } else {
        printed += &text(&sup.note_spawned(pid, -1, -1, fd_a, 5));
    }
    printed += &text(&sup.handle_chunk(fd_a, chunk));
    let (flush, mut done_host) = sup.handle_eof(fd_a);
    printed += &text(&flush);
    if fd_b >= 0 {
        let (flush_b, done_b) = sup.handle_eof(fd_b);
        printed += &text(&flush_b);
        done_host = done_b;
    }
    let h = done_host.expect("both streams closed, host must be reapable");
    printed += &text(&sup.note_reaped(h, code, 9));
    printed
}

#[test]
fn line_mode_three_hosts_echo() {
    let a = args(&["-m", "2", "-f", "hosts", "echo", "hi"]);
    let conf = Config::new(&a, false).unwrap();
    let hosts = parse_hosts(b"a\nb\nc\n").unwrap();
    let mut sup = Supervisor::new(&conf, hosts);
    let mut printed = String::new();
    let mut pid = 100;
    let mut fd = 10;
    while sup.can_spawn() {
        printed += &run_one(&mut sup, pid, fd, fd + 1, b"hi\n", 0);
        pid += 1;
        fd += 2;
    }
    assert!(sup.finished());
    assert!(printed.contains("[a] hi\n"));
    assert!(printed.contains("[b] hi\n"));
    assert!(printed.contains("[c] hi\n"));
    for h in sup.hosts.iter() {
        assert_eq!(h.cp_status(), CpState::Done);
        assert_eq!(h.cp_exit_code(), 0);
        assert_eq!(h.cp_pid(), -2);
    }
    assert!(sup.bufs.is_empty());
}

#[test]
fn join_mode_unique_result_stanza() {
    let a = args(&["-j", "-m", "2", "-f", "hosts", "echo", "hi"]);
    let conf = Config::new(&a, false).unwrap();
    let hosts = parse_hosts(b"a\nb\nc\n").unwrap();
    let mut sup = Supervisor::new(&conf, hosts);
    let mut pid = 100;
    let mut fd = 10;
    while sup.can_spawn() {
        let quiet = run_one(&mut sup, pid, fd, -1, b"hi\n", 0);
        assert_eq!(quiet, "", "join mode emits nothing before the summary");
        pid += 1;
        fd += 1;
    }
    assert!(sup.finished());
    let summary = text(&finish_join_seeded(&mut sup.hosts, 7, false));
    assert!(summary.contains("finished with 1 unique result\n"));
    assert!(summary.contains("hosts (3/3): a b c\nhi\n"));
    for h in sup.hosts.iter() {
        assert_eq!(h.cp.output_index, 0);
    }
}

#[test]
fn join_mode_two_distinct_results() {
    let a = args(&["-j", "-f", "hosts", "x"]);
    let conf = Config::new(&a, false).unwrap();
    let hosts = parse_hosts(b"a\nb\n").unwrap();
    let mut sup = Supervisor::new(&conf, hosts);
    run_one(&mut sup, 100, 10, -1, b"one\n", 0);
    run_one(&mut sup, 101, 11, -1, b"two\n", 0);
    let summary = text(&finish_join_seeded(&mut sup.hosts, 7, false));
    assert!(summary.contains("finished with 2 unique results\n"));
    assert!(summary.contains("hosts (1/2): a\none\n"));
    assert!(summary.contains("hosts (1/2): b\ntwo\n"));
}

#[test]
fn group_mode_stanza_per_host() {
    let a = args(&["-g", "-f", "hosts", "echo", "hi"]);
    let conf = Config::new(&a, false).unwrap();
    let hosts = parse_hosts(b"a\nb\nc\n").unwrap();
    let mut sup = Supervisor::new(&conf, hosts);
    let mut printed = String::new();
    let mut pid = 100;
    let mut fd = 10;
    while sup.can_spawn() {
        printed += &run_one(&mut sup, pid, fd, fd + 1, b"hi\n", 0);
        pid += 1;
        fd += 2;
    }
    assert!(printed.contains("[a]\nhi\n"));
    assert!(printed.contains("[b]\nhi\n"));
    assert!(printed.contains("[c]\nhi\n"));
}

#[test]
fn exit_codes_are_reported_per_host() {
    let a = args(&["-m", "1", "-e", "-f", "hosts", "false"]);
    let conf = Config::new(&a, false).unwrap();
    let hosts = parse_hosts(b"a\nb\n").unwrap();
    let mut sup = Supervisor::new(&conf, hosts);
    let mut printed = String::new();
    let mut pid = 100;
    let mut fd = 10;
    while sup.can_spawn() {
        // ceiling one: exactly one child at a time, run to completion
        printed += &run_one(&mut sup, pid, fd, fd + 1, b"", 1);
        pid += 1;
        fd += 2;
    }
    assert!(sup.finished());
    assert!(printed.contains("[a] exited: 1 (4 ms)\n"));
    assert!(printed.contains("[b] exited: 1 (4 ms)\n"));
    let failed = sup.hosts.iter().any(|h| h.cp_exit_code() != 0);
    assert!(failed, "overall exit code must be 1");
}

#[test]
fn ceiling_bounds_admission() {
    let a = args(&["-m", "1", "-f", "hosts", "true"]);
    let conf = Config::new(&a, false).unwrap();
    let hosts = parse_hosts(b"a\nb\nc\n").unwrap();
    let mut sup = Supervisor::new(&conf, hosts);
    assert!(sup.can_spawn());
    let _ = sup.note_spawned(100, 10, 11, -1, 1);
    // the ceiling is reached: no second admission while one child runs
    assert!(!sup.can_spawn());
    let (_, d1) = sup.handle_eof(10);
    assert!(d1.is_none());
    let (_, d2) = sup.handle_eof(11);
    assert_eq!(d2, Some(0));
    let _ = sup.note_reaped(0, 0, 2);
    assert!(sup.can_spawn());
}

#[test]
fn second_eof_on_closed_fd_is_refused() {
    let a = args(&["-f", "hosts", "true"]);
    let conf = Config::new(&a, false).unwrap();
    let hosts = parse_hosts(b"a\n").unwrap();
    let mut sup = Supervisor::new(&conf, hosts);
    let _ = sup.note_spawned(100, 10, 11, -1, 1);
    assert!(sup.fd_live(10));
    let _ = sup.handle_eof(10);
    // the buffer is gone with the same step that closed the slot
    assert!(!sup.fd_live(10));
}

#[test]
fn anonymous_line_output_is_prefix_stripped() {
    let named = {
        let a = args(&["-f", "hosts", "x"]);
        let conf = Config::new(&a, false).unwrap();
        let hosts = parse_hosts(b"a\n").unwrap();
        let mut sup = Supervisor::new(&conf, hosts);
        run_one(&mut sup, 100, 10, 11, b"out\n", 0)
    };
    let anon = {
        let a = args(&["-a", "-f", "hosts", "x"]);
        let conf = Config::new(&a, false).unwrap();
        let hosts = parse_hosts(b"a\n").unwrap();
        let mut sup = Supervisor::new(&conf, hosts);
        run_one(&mut sup, 100, 10, 11, b"out\n", 0)
    };
    assert_eq!(named, format!("[a] {anon}"));
    assert_eq!(anon, "out\n");
}

#[test]
fn silent_mode_drops_output() {
    let a = args(&["-s", "-f", "hosts", "x"]);
    let conf = Config::new(&a, false).unwrap();
    let hosts = parse_hosts(b"a\n").unwrap();
    let mut sup = Supervisor::new(&conf, hosts);
    let printed = run_one(&mut sup, 100, 10, 11, b"loud\n", 0);
    assert_eq!(printed, "");
}

#[test]
fn trim_shortens_display_name() {
    let a = args(&["-t", "-f", "hosts", "x"]);
    let conf = Config::new(&a, false).unwrap();
    let hosts = parse_hosts(b"node1.example.com\n").unwrap();
    let mut sup = Supervisor::new(&conf, hosts);
    let printed = run_one(&mut sup, 100, 10, 11, b"hi\n", 0);
    assert!(printed.contains("[node1] hi\n"));
}

#[test]
fn status_snapshot_counts_states() {
    let a = args(&["-f", "hosts", "x"]);
    let conf = Config::new(&a, false).unwrap();
    let hosts = parse_hosts(b"a\nb\nc\n").unwrap();
    let mut sup = Supervisor::new(&conf, hosts);
    let _ = sup.note_spawned(41, 10, 11, -1, 1);
    let status = text(&sshp4ru::supervisor::render_status(&sup.hosts, false));
    assert_eq!(
        status,
        "status: 2 ready, 1 running, 0 finished (3 total)\nrunning processes:\n--> pid 41 a\n"
    );
}
