use pmc::config::Secure;
use pmc::daemon::{api_shows_error_log, attempt, is_external, parse_action, parse_pid, restart_candidates, token_authorized, Action, Docs, Pid};
use pmc::file::{make_relative, shows_error_log, tail_start, Exists};
use pmc::helpers::{format_duration, format_elapsed, format_seconds};
use pmc::id::Id;
use pmc::num::IntErrorKind;
use pmc::ordmap::OrdMap;
use pmc::process::{command_line, env_vars, status_of, Crash, Env, MemoryInfo, Process, Runner, Watch};
use pmc::sys::{actual_child_pid, first_child, memory_status_fits, parse_children, parse_memory_status, parse_ppid, split_env_var, ChildScan, NativeMemoryInfo, StatError};

#[test]
fn durations() {
    assert_eq!(format_seconds(5), "5s");
    assert_eq!(format_seconds(-3), "-3s");
    assert_eq!(format_seconds(60), "1m");
    assert_eq!(format_seconds(7199), "1h");
    assert_eq!(format_seconds(86400 * 3 + 5), "3d");
    assert_eq!(format_elapsed(10_999, 0), "10s");
    assert_eq!(format_elapsed(0, 1_500), "-1s");
    let started = std::time::SystemTime::now().duration_since(std::time::UNIX_EPOCH).unwrap().as_millis() as i64 - 120_000;
    let text = format_duration(started).unwrap();
    assert!(text == "2m" || text == "3m");
}

#[test]
fn memory_status() {
    let status = "Name:\tx\nVmSize:\t  2048 kB\nVmRSS:\t   100 kB\nVmRSS: bad kB\n";
    assert!(memory_status_fits(status));
    let m = parse_memory_status(status);
    assert_eq!(m.vms, 2048 * 1024);
    assert_eq!(m.rss, 0);
    let m2 = parse_memory_status("VmRSS: 7\nVmRSS:\n");
    assert_eq!(m2.rss(), 7 * 1024);
    assert_eq!(m2.vms(), 0);
    assert!(!memory_status_fits("VmRSS: 18446744073709551615 kB"));
    let info: MemoryInfo = MemoryInfo::from(NativeMemoryInfo { rss: 3, vms: 4 });
    assert_eq!((info.rss, info.vms), (3, 4));
}

#[test]
fn stat_and_children_files() {
    assert_eq!(parse_ppid("123 (bash) S 99 123 123 0"), Ok(Some(99)));
    assert_eq!(parse_ppid("1 (init) S 0 1"), Ok(None));
    assert_eq!(parse_ppid("1 (x) S"), Err(StatError::InvalidFormat));
    assert_eq!(parse_ppid("7 (my app) S 1 7 7 0"), Ok(Some(1)));
    assert_eq!(parse_ppid("8 (a) b) (c) R 42 8"), Ok(Some(42)));
    assert_eq!(parse_ppid("1 (a b) S x"), Err(StatError::Parse(IntErrorKind::InvalidDigit)));
    assert_eq!(parse_ppid("1 no parenthesis S 4"), Err(StatError::InvalidFormat));
    assert_eq!(parse_children("12 13 x 14\n"), vec![12, 13, 14]);
    assert_eq!(first_child("x 5"), None);
    assert_eq!(first_child(" 5 6"), Some(5));
    assert_eq!(actual_child_pid(10, Some("11 12"), None), 11);
    let procs = vec![(20u32, Some(9u32)), (21, Some(10)), (22, Some(10))];
    assert_eq!(actual_child_pid(10, Some(""), Some(&procs)), 21);
    assert_eq!(actual_child_pid(10, None, None), 10);
    assert_eq!(actual_child_pid(30, None, Some(&procs)), 30);
}

#[test]
fn child_scan_visits_each_pid_once() {
    let mut scan = ChildScan::new(1);
    assert_eq!(scan.next(), Some(1));
    scan.record(Some("2 3"));
    assert_eq!(scan.next(), Some(3));
    scan.record(Some("2"));
    assert_eq!(scan.next(), Some(2));
    scan.record(None);
    assert_eq!(scan.next(), None);
    assert_eq!(scan.children, vec![2, 3, 2]);
}

#[test]
fn env_entries() {
    assert_eq!(split_env_var("A=b=c"), ("A".to_string(), "b=c".to_string()));
    assert_eq!(split_env_var("FLAG"), ("FLAG".to_string(), String::new()));
    let mut env: Env = OrdMap::new();
    env.insert("Z".to_string(), "1".to_string());
    env.insert("A".to_string(), "2".to_string());
    assert_eq!(env_vars(&env), vec!["A=2".to_string(), "Z=1".to_string()]);
    assert_eq!(command_line("bash", &vec![], "run"), "bash  'run'");
    assert_eq!(status_of(false, false), "stopped");
}

#[test]
fn daemon_decisions() {
    assert_eq!(parse_pid(" 4321\n").unwrap().get(), 4321);
    assert!(parse_pid("abc").is_err());
    let p = Pid(17);
    assert_eq!(p.get_u32(), 17);
    assert_eq!(p.to_string(), "17");
    assert!(is_external("cc"));
    assert!(!is_external("rust"));
    assert!(token_authorized(&None, None, None));
    let s = Some(Secure { enabled: true, token: "t".to_string() });
    assert!(token_authorized(&s, Some("t"), None));
    assert!(token_authorized(&s, None, Some("t")));
    assert!(!token_authorized(&s, Some("u"), None));
    let off = Some(Secure { enabled: false, token: "t".to_string() });
    assert!(token_authorized(&off, None, None));
    assert_eq!(parse_action("kill"), Some(Action::Stop));
    assert_eq!(parse_action("clean"), Some(Action::Flush));
    assert_eq!(parse_action("delete"), Some(Action::Remove));
    assert_eq!(parse_action("reset_env"), Some(Action::ClearEnv));
    assert_eq!(parse_action("start"), Some(Action::Restart));
    assert_eq!(parse_action("jump"), None);
    let r = attempt(false, "x");
    assert_eq!(r.action, "DOES_NOT_EXIST");
    assert_eq!(attempt(true, "stop").action, "stop");
    assert!(api_shows_error_log("stderr"));
    assert!(!api_shows_error_log("out"));
    assert!(shows_error_log("error"));
    assert!(!shows_error_log("stderr"));
    let d = Docs::new("<a href=\"$s_path/x\">".to_string(), "/api//");
    assert_eq!(d.render(), "<a href=\"/api/x\">");
}

#[test]
fn restart_candidates_are_running_dead_processes() {
    let mut runner = Runner { id: Id::new(0), list: OrdMap::new(), remote: None };
    for (id, running) in [(1usize, true), (2, false), (3, true)] {
        runner.list.insert(id, Process {
            id,
            pid: 1,
            env: OrdMap::new(),
            name: String::new(),
            path: String::new(),
            script: String::new(),
            restarts: 0,
            running,
            crash: Crash { crashed: false, value: 0 },
            watch: Watch { enabled: false, path: String::new(), hash: String::new() },
            children: vec![],
            started: 0,
        });
    }
    assert_eq!(restart_candidates(&runner, &vec![false, false, true]), vec![1]);
    assert_eq!(restart_candidates(&runner, &vec![false, false, false]), vec![1, 3]);
}

#[test]
fn paths() {
    assert_eq!(make_relative("/home/u/app", "/home/u"), "~/app");
    assert_eq!(make_relative("/srv/app", "/home/u"), "/srv/app");
    assert_eq!(make_relative("/home/u", "/home/u"), "~/");
    assert_eq!(make_relative("rel/x", "/home/u"), "/home/u/rel/x");
    assert_eq!(make_relative("x", "/home/u/"), "/home/u/x");
    assert_eq!(make_relative("rel", "/home/u"), "/home/u/rel");
    assert_eq!(tail_start(20, 15), 5);
    assert_eq!(tail_start(3, 15), 0);
    assert!(Exists::check("/").folder());
    assert!(Exists::check("/").file());
    assert!(!Exists::check("/definitely/not/here").file());
}

#[test]
fn scan_finds_all_descendants_and_ends_on_cycles() {
    let files = |pid: i64| -> Option<&'static str> {
        match pid {
            10 => Some("11 12"),
            11 => Some("13"),
            12 => Some("14 11"),
            13 => Some("10"),
            _ => None,
        }
    };
    let mut scan = ChildScan::new(10);
    let mut steps = 0;
    while let Some(pid) = scan.next() {
        scan.record(files(pid));
        steps += 1;
        assert!(steps <= 5);
    }
    let mut found = scan.children.clone();
    found.sort();
    found.dedup();
    assert_eq!(found, vec![10, 11, 12, 13, 14]);

    let tree = |pid: i64| -> Option<&'static str> {
        match pid {
            1 => Some("2 3"),
            2 => Some("4"),
            _ => Some(""),
        }
    };
    let mut scan = ChildScan::new(1);
    while let Some(pid) = scan.next() {
        scan.record(tree(pid));
    }
    let mut found = scan.children.clone();
    found.sort();
    assert_eq!(found, vec![2, 3, 4]);
}
