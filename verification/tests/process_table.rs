use pmc::id::Id;
use pmc::ordmap::OrdMap;
use pmc::process::{Crash, Env, Launch, Process, Remote, RemoteConfig, Runner, Status, Watch};

fn setup_test_runner() -> Runner {
    Runner {
        id: Id::new(1),
        list: OrdMap::new(),
        remote: None,
    }
}

fn test_process(id: usize, name: &str) -> Process {
    Process {
        id,
        pid: 12345,
        env: OrdMap::new(),
        name: name.to_string(),
        path: "/tmp".to_string(),
        script: "echo 'hello world'".to_string(),
        restarts: 0,
        running: true,
        crash: Crash { crashed: false, value: 0 },
        watch: Watch {
            enabled: false,
            path: String::new(),
            hash: String::new(),
        },
        children: vec![],
        started: 0,
    }
}

#[test]
fn test_environment_variables() {
    let mut runner = setup_test_runner();
    let id = runner.id.next();

    let process = test_process(id, "test_process");
    runner.list.insert(id, process);

    // Test setting environment variables
    let mut env: Env = OrdMap::new();
    env.insert("TEST_VAR".to_string(), "test_value".to_string());
    env.insert("ANOTHER_VAR".to_string(), "another_value".to_string());

    runner.set_env(id, env);

    let process_env = &runner.info(id).unwrap().env;
    assert_eq!(process_env.get(&"TEST_VAR".to_string()), Some(&"test_value".to_string()));
    assert_eq!(process_env.get(&"ANOTHER_VAR".to_string()), Some(&"another_value".to_string()));

    // Test clearing environment variables
    runner.clear_env(id);
    assert!(runner.info(id).unwrap().env.is_empty());
}

#[test]
fn test_children_processes() {
    let mut runner = setup_test_runner();
    let id = runner.id.next();

    let process = test_process(id, "test_process");
    runner.list.insert(id, process);

    // Test setting children
    let children = vec![12346, 12347, 12348];
    runner.set_children(id, children.clone());

    assert_eq!(runner.info(id).unwrap().children, children);
}

fn launch(pid: i64, vars: &[(&str, &str)]) -> Launch {
    let mut env: Env = OrdMap::new();
    for (k, v) in vars {
        env.insert(k.to_string(), v.to_string());
    }
    Launch { pid, started: 1_000, env }
}

#[test]
fn start_assigns_counter_and_advances_it() {
    let mut runner = Runner::new();
    let a = runner.start(&"api".to_string(), &"node api.js".to_string(), "/srv".to_string(), &None, String::new(), launch(100, &[]));
    let b = runner.start(&"web".to_string(), &"node web.js".to_string(), "/srv".to_string(), &Some("src".to_string()), "abc".to_string(), launch(101, &[("A", "1")]));
    assert_eq!(a, Some(0));
    assert_eq!(b, Some(1));
    assert_eq!(runner.id.counter, 2);
    let p = runner.info(1).unwrap();
    assert_eq!(p.name, "web");
    assert_eq!(p.script, "node web.js");
    assert_eq!(p.pid, 101);
    assert!(p.running);
    assert!(p.watch.enabled);
    assert_eq!(p.watch.path, "src");
    assert_eq!(p.watch.hash, "abc");
    assert_eq!(p.env.get(&"A".to_string()), Some(&"1".to_string()));
    assert!(!runner.info(0).unwrap().watch.enabled);
    assert_eq!(runner.count(), 2);
}

#[test]
fn stop_then_restart_changes_state() {
    let mut runner = setup_test_runner();
    runner.list.insert(3, test_process(3, "app"));
    runner.set_children(3, vec![7, 8]);
    runner.stop(3);
    let p = runner.info(3).unwrap();
    assert!(!p.running);
    assert!(p.children.is_empty());
    assert!(!p.crash.crashed);
    runner.restart(3, false, Some(launch(999, &[("X", "y")])));
    let p = runner.info(3).unwrap();
    assert!(p.running);
    assert_eq!(p.pid, 999);
    assert_eq!(p.restarts, 0);
    assert_eq!(p.started, 1_000);
    runner.restart(3, true, Some(launch(1000, &[])));
    let p = runner.info(3).unwrap();
    assert_eq!(p.restarts, 1);
    assert_eq!(p.crash.value, 1);
    assert_eq!(p.env.get(&"X".to_string()), Some(&"y".to_string()));
    runner.restart(3, false, None);
    let p = runner.info(3).unwrap();
    assert!(!p.running);
    assert!(p.crash.crashed);
    assert_eq!(p.crash.value, 1);
}

#[test]
fn remove_rename_find_size() {
    let mut runner = setup_test_runner();
    runner.list.insert(2, test_process(2, "a"));
    runner.list.insert(5, test_process(5, "b"));
    runner.list.insert(9, test_process(9, "a"));
    assert_eq!(runner.size(), Some(9));
    assert_eq!(runner.find("a"), Some(2));
    assert_eq!(runner.find("zzz"), None);
    runner.rename(2, "c".to_string());
    assert_eq!(runner.find("a"), Some(9));
    assert_eq!(runner.find("c"), Some(2));
    let removed = runner.remove(5).unwrap();
    assert_eq!(removed.name, "b");
    assert!(!runner.exists_id(5));
    assert_eq!(runner.count(), 2);
    assert_eq!(runner.pid(9), 12345);
}

#[test]
fn reset_continues_after_largest_id() {
    let mut runner = setup_test_runner();
    assert!(!runner.reset());
    assert_eq!(runner.id.counter, 1);
    runner.list.insert(4, test_process(4, "a"));
    runner.list.insert(41, test_process(41, "b"));
    assert!(runner.reset());
    assert_eq!(runner.id.counter, 42);
}

#[test]
fn set_status_and_running_ids() {
    let mut runner = setup_test_runner();
    runner.list.insert(1, test_process(1, "a"));
    runner.list.insert(2, test_process(2, "b"));
    runner.list.insert(3, test_process(3, "c"));
    runner.set_status(2, Status::Offline);
    assert_eq!(runner.running_ids(), vec![1, 3]);
    runner.set_crashed(1);
    runner.new_crash(1);
    let p = runner.info(1).unwrap();
    assert!(p.crash.crashed);
    assert_eq!(p.crash.value, 1);
    assert!(Status::Running.to_bool());
    assert!(!Status::Offline.to_bool());
}

#[test]
fn watch_keeps_hash_only_when_enabled() {
    let mut runner = setup_test_runner();
    runner.list.insert(1, test_process(1, "a"));
    runner.watch(1, "src", true, "h1".to_string());
    assert_eq!(runner.info(1).unwrap().watch.hash, "h1");
    runner.watch(1, "", false, "h2".to_string());
    let w = &runner.info(1).unwrap().watch;
    assert!(!w.enabled);
    assert_eq!(w.hash, "");
}

#[test]
fn fetch_builds_rows_in_id_order() {
    let mut runner = setup_test_runner();
    let mut p = test_process(7, "later");
    p.running = false;
    p.crash.crashed = true;
    runner.list.insert(7, p);
    runner.list.insert(2, test_process(2, "first"));
    let usage = vec![("1.00%".to_string(), "1kb".to_string()), ("0.00%".to_string(), "0b".to_string())];
    let rows = runner.fetch(3_599_000, &usage);
    assert_eq!(rows.len(), 2);
    assert_eq!(rows[0].id, 2);
    assert_eq!(rows[0].status, "online");
    assert_eq!(rows[0].cpu, "1.00%");
    assert_eq!(rows[0].uptime, "59m");
    assert_eq!(rows[1].id, 7);
    assert_eq!(rows[1].status, "crashed");
    assert_eq!(rows[1].mem, "0b");
}

#[test]
fn logs_and_info_of_process() {
    let p = test_process(4, "my app");
    let logs = p.logs("/home/u/.pmc/logs");
    assert_eq!(logs.out, "/home/u/.pmc/logs/my_app-out.log");
    assert_eq!(logs.error, "/home/u/.pmc/logs/my_app-error.log");
    let info = p.info("/bin/sh", &vec!["-c".to_string()], 90_000);
    assert_eq!(info.command, "/bin/sh -c 'echo 'hello world''");
    assert_eq!(info.status, "online");
    assert_eq!(info.uptime, "1m");
    let raw = p.raw();
    assert!(raw.running);
    assert_eq!(raw.crashes, 0);
}

#[test]
fn remote_table_is_left_alone() {
    let mut runner = setup_test_runner();
    runner.list.insert(1, test_process(1, "a"));
    runner.remote = Some(Remote {
        address: "http://x".to_string(),
        token: None,
        config: RemoteConfig { shell: "sh".to_string(), args: vec![], log_path: "/l".to_string() },
    });
    assert_eq!(runner.start(&"n".to_string(), &"c".to_string(), "/".to_string(), &None, String::new(), launch(1, &[])), None);
    runner.stop(1);
    runner.rename(1, "z".to_string());
    assert!(runner.remove(1).is_none());
    let p = runner.info(1).unwrap();
    assert!(p.running);
    assert_eq!(p.name, "a");
    assert_eq!(runner.id.counter, 1);
}

#[test]
fn wrapper_actions_on_one_process() {
    let mut runner = setup_test_runner();
    runner.list.insert(1, test_process(1, "svc"));
    let mut item = runner.get(1);
    item.watch("src", "h".to_string());
    assert!(item.get_runner().info(1).unwrap().watch.enabled);
    assert_eq!(item.get_runner().info(1).unwrap().watch.hash, "h");
    item.disable_watch();
    assert!(!item.get_runner().info(1).unwrap().watch.enabled);
    item.rename("renamed".to_string());
    assert_eq!(item.get_runner().info(1).unwrap().name, "renamed");
    let mut env: Env = OrdMap::new();
    env.insert("K".to_string(), "V".to_string());
    item.set_env(env);
    assert_eq!(item.get_runner().info(1).unwrap().env.get(&"K".to_string()), Some(&"V".to_string()));
    item.clear_env();
    assert!(item.get_runner().info(1).unwrap().env.is_empty());
    item.stop();
    assert!(!item.get_runner().info(1).unwrap().running);
    item.crashed(Some(launch(4242, &[])));
    let p = item.get_runner().info(1).unwrap();
    assert!(p.running);
    assert!(p.crash.crashed);
    assert_eq!(p.pid, 4242);
    assert_eq!(p.restarts, 1);
    assert_eq!(p.crash.value, 1);
    item.restart(None);
    let p = item.get_runner().info(1).unwrap();
    assert!(!p.running);
    assert!(p.crash.crashed);
}
