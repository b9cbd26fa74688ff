use pmc::cli::{clean_name, create_command, default_name, export_env, export_path, is_local, list_scope, server_known, validate, Args, Item, Validatable};
use pmc::config::{Config, Server, Servers};
use pmc::ordmap::OrdMap;
use pmc::process::Env;

#[test]
fn validate_reads_ids_and_names() {
    let a: Args = validate("12").unwrap();
    assert!(matches!(a, Args::Id(12)));
    assert_eq!(a.get_string(), None);
    let b: Args = validate("node app.js").unwrap();
    assert_eq!(b.get_string(), Some("node app.js"));
    let c: Item = validate("web").unwrap();
    assert!(matches!(c, Item::Name(ref n) if n == "web"));
    let d: Item = validate("-3").unwrap();
    assert_eq!(d.get_string(), Some("-3"));
    assert!(matches!(Item::from_id(4), Item::Id(4)));
}

#[test]
fn server_names() {
    assert!(is_local("local"));
    assert!(is_local("internal"));
    assert!(!is_local("prod"));
    assert_eq!(pmc::cli::format(&"local".to_string()), ("".to_string(), "local".to_string()));
    assert_eq!(pmc::cli::format(&"prod".to_string()), ("remote ".to_string(), "prod".to_string()));
    let mut servers: OrdMap<String, Server> = OrdMap::new();
    servers.insert("prod".to_string(), Server { address: "http://p/".to_string(), token: None });
    assert!(server_known(&servers, &"prod".to_string()));
    assert!(server_known(&servers, &"internal".to_string()));
    assert!(!server_known(&servers, &"dev".to_string()));
    let s = Servers { servers: Some(servers) };
    assert!(s.servers.is_some());
}

#[test]
fn names_and_commands_of_new_processes() {
    assert_eq!(default_name(&None, "node index.js --port 3"), "node");
    assert_eq!(default_name(&None, "   "), "");
    assert_eq!(default_name(&Some("web".to_string()), "node index.js"), "web");
    assert_eq!(clean_name("  my\napp \n"), "myapp");
    assert_eq!(create_command("index.js", "node"), "node index.js");
    assert_eq!(create_command("src/server.ts", "bun"), "bun src/server.ts");
    assert_eq!(create_command("app", "node"), "node app");
    assert_eq!(create_command("python app.py", "node"), "python app.py");
    assert_eq!(create_command("a//b.js", "node"), "a//b.js");
    assert_eq!(create_command("echo hi\nscript.js", "node"), "node echo hi\nscript.js");
}

#[test]
fn exported_environment() {
    let mut env: Env = OrdMap::new();
    env.insert("A".to_string(), "1".to_string());
    env.insert("B".to_string(), "2".to_string());
    env.insert("C".to_string(), "3".to_string());
    let mut current: Env = OrdMap::new();
    current.insert("A".to_string(), "1".to_string());
    current.insert("B".to_string(), "other".to_string());
    let out = export_env(&env, &current);
    assert_eq!(out.len(), 2);
    assert!(out.get(&"A".to_string()).is_none());
    assert_eq!(out.get(&"B".to_string()), Some(&"2".to_string()));
    assert_eq!(out.get(&"C".to_string()), Some(&"3".to_string()));
    assert_eq!(export_path(&None, "web"), "web.hcl");
    assert_eq!(export_path(&Some("x.hcl".to_string()), "web"), "x.hcl");
}

#[test]
fn config_defaults_and_addresses() {
    let mut c = Config::default_for("/home/u");
    assert_eq!(c.runner.log_path, "/home/u/.pmc/logs");
    assert_eq!(c.runner.shell, "/bin/sh");
    assert!(c.check_shell_absolute());
    assert_eq!(c.fmt_address(), "0.0.0.0:5630");
    assert_eq!(c.get_path(), "/");
    assert_eq!(c.address_octets(), Some([0, 0, 0, 0]));
    c.daemon.web.address = "localhost".to_string();
    assert_eq!(c.address_octets(), Some([127, 0, 0, 1]));
    c.daemon.web.address = "10.1.2.3.4".to_string();
    assert_eq!(c.address_octets(), Some([10, 1, 2, 3]));
    c.daemon.web.address = "10.1.2".to_string();
    assert_eq!(c.address_octets(), None);
    c.daemon.web.address = "10.1.2.300".to_string();
    assert_eq!(c.address_octets(), None);
    c.runner.shell = "sh".to_string();
    assert!(!c.check_shell_absolute());
    let c = c.set_default("prod".to_string());
    assert_eq!(c.default, "prod");
    assert_eq!(pmc::config::config_file("/h"), "/h/.pmc/config.toml");
    assert_eq!(pmc::config::servers_file("/h"), "/h/.pmc/servers.toml");
    let s = Server { address: "http://a:5630//".to_string(), token: Some("t".to_string()) };
    let g = s.get();
    assert_eq!(g.address, "http://a:5630");
    assert_eq!(g.token, Some("t".to_string()));
}

#[test]
fn list_scopes_by_server_name() {
    let mut servers: OrdMap<String, Server> = OrdMap::new();
    servers.insert("prod".to_string(), Server { address: "http://p".to_string(), token: None });
    let s = list_scope(&servers, &"prod".to_string()).unwrap();
    assert!(s.named_remote && !s.local && !s.all_remotes);
    let s = list_scope(&servers, &"local".to_string()).unwrap();
    assert!(!s.named_remote && s.local && !s.all_remotes);
    let s = list_scope(&servers, &"all".to_string()).unwrap();
    assert!(!s.named_remote && s.local && s.all_remotes);
    let s = list_scope(&servers, &"global".to_string()).unwrap();
    assert!(s.local && s.all_remotes);
    assert!(list_scope(&servers, &"dev".to_string()).is_none());
}
