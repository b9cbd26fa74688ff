use pmc::cli::export_env;
use pmc::config::Server;
use pmc::daemon::{parse_pid, pid_file_text, Pid};
use pmc::id::Id;
use pmc::num::IntErrorKind;
use pmc::ordmap::OrdMap;
use pmc::process::{status_of, Env, Launch, Runner};

fn launch(pid: i64) -> Launch {
    Launch { pid, started: 5_000, env: OrdMap::new() }
}

#[test]
fn pid_file_reads_back_what_was_written() {
    for pid in [0u32, 1, 4242, i32::MAX as u32] {
        let text = pid_file_text(pid);
        assert_eq!(parse_pid(&text).map(|p| p.get()), Ok(pid as i64));
        assert_eq!(parse_pid(&format!("{}\n", text)).map(|p| p.get()), Ok(pid as i64));
    }
    assert_eq!(parse_pid(&pid_file_text(u32::MAX)).map(|p| p.get()), Err(IntErrorKind::PosOverflow));
    for pid in [i32::MIN, -7, 0, 31337, i32::MAX] {
        assert_eq!(parse_pid(&Pid(pid).to_string()).map(|p| p.get()), Ok(pid as i64));
    }
    assert_eq!(parse_pid("  ").map(|p| p.get()), Err(IntErrorKind::Empty));
    assert_eq!(parse_pid("12x").map(|p| p.get()), Err(IntErrorKind::InvalidDigit));
}

#[test]
fn server_addresses_normalise_once() {
    let s = Server { address: "http://host:5630///".to_string(), token: None };
    let once = s.get();
    let twice = once.get();
    assert_eq!(once.address, "http://host:5630");
    assert_eq!(twice.address, once.address);
    let bare = Server { address: "///".to_string(), token: None }.get();
    assert_eq!(bare.address, "");
}

#[test]
fn new_ids_never_replace_processes() {
    let mut runner = Runner::new();
    for i in 0..4usize {
        let id = runner.start(&format!("p{}", i), &"sleep 1".to_string(), "/".to_string(), &None, String::new(), launch(10 + i as i64));
        assert_eq!(id, Some(i));
    }
    runner.remove(1);
    runner.remove(3);
    let id = runner.start(&"late".to_string(), &"sleep 2".to_string(), "/".to_string(), &None, String::new(), launch(99)).unwrap();
    assert_eq!(id, 4);
    assert_eq!(runner.count(), 3);
    assert_eq!(runner.info(0).unwrap().name, "p0");
    assert_eq!(runner.info(2).unwrap().name, "p2");
    assert!(runner.reset());
    assert_eq!(runner.id.counter, 5);
    let next = runner.start(&"after".to_string(), &"sleep 3".to_string(), "/".to_string(), &None, String::new(), launch(100)).unwrap();
    assert_eq!(next, 5);
    assert_eq!(runner.count(), 4);
}

#[test]
fn status_follows_stop_and_restart() {
    let mut runner = Runner::new();
    let id = runner.start(&"svc".to_string(), &"run".to_string(), "/".to_string(), &None, String::new(), launch(1)).unwrap();
    let p = runner.info(id).unwrap();
    assert_eq!(status_of(p.running, p.crash.crashed), "online");
    runner.stop(id);
    let p = runner.info(id).unwrap();
    assert_eq!(status_of(p.running, p.crash.crashed), "stopped");
    runner.restart(id, false, None);
    let p = runner.info(id).unwrap();
    assert_eq!(status_of(p.running, p.crash.crashed), "crashed");
    runner.restart(id, false, Some(launch(2)));
    let p = runner.info(id).unwrap();
    assert_eq!(status_of(p.running, p.crash.crashed), "online");
}

fn current_env() -> Env {
    let mut current: Env = OrdMap::new();
    current.insert("PATH".to_string(), "/bin".to_string());
    current.insert("MODE".to_string(), "dev".to_string());
    current.insert("HOME".to_string(), "/root".to_string());
    current
}

#[test]
fn exported_variables_restore_the_environment() {
    let mut env: Env = OrdMap::new();
    env.insert("PATH".to_string(), "/bin".to_string());
    env.insert("MODE".to_string(), "prod".to_string());
    env.insert("PORT".to_string(), "80".to_string());
    let current = current_env();
    let out = export_env(&env, &current);
    let mut restored = current_env();
    restored.extend(out);
    for k in ["PATH", "MODE", "PORT"] {
        assert_eq!(restored.get(&k.to_string()), env.get(&k.to_string()));
    }
    assert_eq!(Id::new(3).to_string(), "3");
}
