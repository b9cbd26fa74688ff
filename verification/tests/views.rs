use pmc::cli::{debug_list, detail_row, list_row, new_server_valid, resolve_item, start_target, Args, Item, StartTarget};
use pmc::config::Paths;
use pmc::daemon::{health_row, Version};
use pmc::sys::{parse_start_seconds, process_cpu_ticks, system_cpu_ticks};
use pmc::id::Id;
use pmc::ordmap::OrdMap;
use pmc::process::{Crash, Process, Runner, Watch};

fn proc_named(id: usize, name: &str, running: bool) -> Process {
    Process {
        id,
        pid: 77,
        env: OrdMap::new(),
        name: name.to_string(),
        path: "/srv".to_string(),
        script: "node app.js".to_string(),
        restarts: 3,
        running,
        crash: Crash { crashed: false, value: 0 },
        watch: Watch { enabled: false, path: String::new(), hash: String::new() },
        children: vec![],
        started: 1_000,
    }
}

fn table() -> Runner {
    let mut r = Runner { id: Id::new(0), list: OrdMap::new(), remote: None };
    r.list.insert(0, proc_named(0, "api", true));
    r.list.insert(2, proc_named(2, "web", true));
    r.list.insert(5, proc_named(5, "web", false));
    r.id = Id::new(6);
    r
}

#[test]
fn start_chooses_what_to_do() {
    let r = table();
    assert_eq!(start_target(&Args::Script("all".to_string()), &r), StartTarget::All(5));
    let empty = Runner { id: Id::new(0), list: OrdMap::new(), remote: None };
    assert_eq!(start_target(&Args::Script("all".to_string()), &empty), StartTarget::NothingToStart);
    assert_eq!(start_target(&Args::Id(9), &r), StartTarget::Restart(9));
    assert_eq!(start_target(&Args::Script("web".to_string()), &r), StartTarget::Restart(2));
    assert_eq!(start_target(&Args::Script("node x.js".to_string()), &r), StartTarget::Create);
}

#[test]
fn items_resolve_to_ids() {
    let r = table();
    assert_eq!(resolve_item(&Item::Id(4), &r), Some(4));
    assert_eq!(resolve_item(&Item::Name("web".to_string()), &r), Some(2));
    assert_eq!(resolve_item(&Item::Name("api".to_string()), &r), Some(0));
    assert_eq!(resolve_item(&Item::Name("db".to_string()), &r), None);
}

#[test]
fn lists_print_as_debug_does() {
    assert_eq!(debug_list(&vec![]), "[]");
    assert_eq!(debug_list(&vec![12]), "[12]");
    let v = vec![1i64, -2, 300];
    assert_eq!(debug_list(&v), format!("{:?}", v));
}

#[test]
fn list_rows_show_running_and_stopped_processes() {
    let p = proc_named(2, "web", true);
    let row = list_row(2, &p, "0.0%", "1.2 MB", 66_000);
    assert_eq!(row.id, "2");
    assert_eq!(row.name, "web   ");
    assert_eq!(row.pid, "77  ");
    assert_eq!(row.uptime, "1m  ");
    assert_eq!(row.restarts, "3  ");
    assert_eq!(row.status, "online   ");
    assert_eq!(row.cpu, "0.0%   ");
    assert_eq!(row.mem, "1.2 MB   ");
    assert_eq!(row.watch, "disabled  ");

    let mut q = proc_named(5, "web", false);
    q.watch = Watch { enabled: true, path: "src".to_string(), hash: "abc".to_string() };
    let row = list_row(5, &q, "0%", "0b", 66_000);
    assert_eq!(row.pid, "n/a  ");
    assert_eq!(row.uptime, "none  ");
    assert_eq!(row.status, "stopped   ");
    assert_eq!(row.watch, "src  ");
}

#[test]
fn detail_rows_of_a_process() {
    let mut p = proc_named(0, "api", true);
    p.children = vec![10, 11];
    p.watch = Watch { enabled: true, path: "src".to_string(), hash: "h1".to_string() };
    let row = detail_row(
        0,
        &p,
        "/srv",
        "out.log".to_string(),
        "err.log".to_string(),
        "/bin/sh -c 'node app.js'".to_string(),
        "1%".to_string(),
        "2 MB".to_string(),
        4_000,
    );
    assert_eq!(row.children, "[10, 11]");
    assert_eq!(row.hash, "h1  ");
    assert_eq!(row.watch, "/srv/src  ");
    assert_eq!(row.path, "/srv ");
    assert_eq!(row.id, "0");
    assert_eq!(row.restarts, 3);
    assert_eq!(row.uptime, "3s");
    assert_eq!(row.pid, "77");
    assert_eq!(row.name, "api");
    assert_eq!(row.status, "online   ");
    assert_eq!(row.log_out, "out.log");
    assert_eq!(row.log_error, "err.log");
    assert_eq!(row.cpu_percent, "1%");
    assert_eq!(row.memory_usage, "2 MB");

    let q = proc_named(1, "db", false);
    let row = detail_row(1, &q, "/", String::new(), String::new(), String::new(), String::new(), String::new(), 0);
    assert_eq!(row.children, "none");
    assert_eq!(row.hash, "none  ");
    assert_eq!(row.watch, "disabled  ");
    assert_eq!(row.uptime, "none");
    assert_eq!(row.pid, "n/a");
    assert_eq!(row.status, "stopped   ");
}

#[test]
fn server_answers_must_not_be_empty() {
    assert!(new_server_valid("prod", "http://p:5630"));
    assert!(!new_server_valid("", "http://p:5630"));
    assert!(!new_server_valid("prod", ""));
}

#[test]
fn state_files_live_under_home() {
    let p = Paths::new("/home/u");
    assert_eq!(p.base, "/home/u/.pmc/");
    assert_eq!(p.log, "/home/u/.pmc/pmc.log");
    assert_eq!(p.pid, "/home/u/.pmc/daemon.pid");
    assert_eq!(p.dump, "/home/u/.pmc/process.dump");
    assert_eq!(p.daemon_log, "/home/u/.pmc/daemon.log");
}

#[test]
fn daemon_health_rows() {
    let row = health_row("/h/.pmc/daemon.pid", "/h/.pmc/", "default", 3, true, Some((4321, 0)), Some("0.50%".to_string()), None, 7_200_000);
    assert_eq!(row.pid_file, "/h/.pmc/daemon.pid  ");
    assert_eq!(row.path, "/h/.pmc/");
    assert_eq!(row.cpu_percent, "0.50%");
    assert_eq!(row.memory_usage, "0b");
    assert_eq!(row.external, "default");
    assert_eq!(row.process_count, 3);
    assert_eq!(row.uptime, "2h");
    assert_eq!(row.pid, "4321");
    assert_eq!(row.status, "online");
    let row = health_row("p", "b", "external", 0, false, None, None, Some("12kb".to_string()), 0);
    assert_eq!(row.cpu_percent, "0%");
    assert_eq!(row.memory_usage, "12kb");
    assert_eq!(row.uptime, "none");
    assert_eq!(row.pid, "n/a");
    assert_eq!(row.status, "stopped");
}

#[test]
fn start_time_from_stat() {
    let fields: Vec<String> = (0..30).map(|i| if i == 21 { "123456".to_string() } else { format!("f{}", i) }).collect();
    assert_eq!(parse_start_seconds(&fields.join(" ")), Some(1234));
    assert_eq!(parse_start_seconds("1 (a) S 0"), None);
    let bad: Vec<String> = (0..22).map(|i| if i == 21 { "x".to_string() } else { "0".to_string() }).collect();
    assert_eq!(parse_start_seconds(&bad.join(" ")), None);
}

#[test]
fn processor_ticks_from_stat_files() {
    let fields: Vec<String> = (0..20).map(|i| match i {
        13 => "250".to_string(),
        14 => "50".to_string(),
        _ => format!("f{}", i),
    }).collect();
    assert_eq!(process_cpu_ticks(&fields.join(" ")), Some((250, 50)));
    assert_eq!(process_cpu_ticks("1 (a) S 0 0"), None);
    let stat = "cpu  10 20 30 40 50 60 70 80 90\ncpu0 1 1 1 1 1 1 1 1\n";
    assert_eq!(system_cpu_ticks(stat), Some(280));
    assert_eq!(system_cpu_ticks("cpu 1 2 3"), None);
    assert_eq!(system_cpu_ticks("cpu 1 2 x 4 5 6 7 8"), None);
    assert_eq!(system_cpu_ticks(""), None);
    let big = format!("cpu {} {} 0 0 0 0 0", u64::MAX, u64::MAX);
    assert_eq!(system_cpu_ticks(&big), Some(2 * u64::MAX as u128));
}

#[test]
fn version_reports() {
    let v = Version::new("2.0.0", "", "2024-01-01".to_string(), "release".to_string());
    assert_eq!(v.pkg, "v2.0.0");
    assert_eq!(v.hash, None);
    assert_eq!(v.build_date, "2024-01-01");
    assert_eq!(v.target, "release");
    let v = Version::new("1.2.3", "abc123", String::new(), "debug".to_string());
    assert_eq!(v.pkg, "v1.2.3");
    assert_eq!(v.hash, Some("abc123".to_string()));
}
