//! Settings: how processes are run, how the daemon serves, and the known
//! remote servers.

use vstd::prelude::*;
use crate::num::{decimal, parse_int, parse_int_spec, u64_to_string};
use crate::ordmap::OrdMap;
use crate::text::{split_char, split_spec, str_eq, trim_end_char, trim_end_char_spec};

verus! {

/// How processes are run.
pub struct Runner {
    pub shell: String,
    pub args: Vec<String>,
    pub node: String,
    pub log_path: String,
}

/// Access control of the daemon's API.
pub struct Secure {
    pub enabled: bool,
    pub token: String,
}

/// The daemon's web server.
pub struct Web {
    pub ui: bool,
    pub api: bool,
    pub address: String,
    pub port: u64,
    pub secure: Option<Secure>,
    pub path: Option<String>,
}

/// The daemon.
pub struct Daemon {
    pub restarts: u64,
    pub interval: u64,
    pub kind: String,
    pub web: Web,
}

/// All settings.
pub struct Config {
    /// The server commands go to when none is named.
    pub default: String,
    pub runner: Runner,
    pub daemon: Daemon,
}

/// A remote daemon.
pub struct Server {
    pub address: String,
    pub token: Option<String>,
}

/// The known remote daemons, by name.
pub struct Servers {
    pub servers: Option<OrdMap<String, Server>>,
}

impl Server {
    /// The server with trailing slashes removed from its address.
    pub fn get(&self) -> (s: Server)
        ensures
            s.address@ == trim_end_char_spec(self.address@, '/'),
            s.token == self.token,
    {
        Server {
            token: match &self.token {
                Some(t) => Some(t.clone()),
                None => None,
            },
            address: trim_end_char(self.address.as_str(), '/'),
        }
    }
}

/// `{home}/.pmc/config.toml`.
pub open spec fn config_file_spec(home: Seq<char>) -> Seq<char> {
    home + "/.pmc/config.toml"@
}

/// `{home}/.pmc/servers.toml`.
pub open spec fn servers_file_spec(home: Seq<char>) -> Seq<char> {
    home + "/.pmc/servers.toml"@
}

/// The settings file under a home directory.
pub fn config_file(home: &str) -> (p: String)
    ensures
        p@ == config_file_spec(home@),
{
    let mut p = String::from_str(home);
    p.append("/.pmc/config.toml");
    p
}

/// The servers file under a home directory.
pub fn servers_file(home: &str) -> (p: String)
    ensures
        p@ == servers_file_spec(home@),
{
    let mut p = String::from_str(home);
    p.append("/.pmc/servers.toml");
    p
}

/// The four octets of an address in `a.b.c.d` form, or of `localhost`.
pub open spec fn octets_spec(address: Seq<char>) -> Option<Seq<int>> {
    if address == "localhost"@ {
        Some(seq![127int, 0, 0, 1])
    } else {
        let parts = split_spec(address, '.');
        if parts.len() >= 4 && forall|i: int|
            0 <= i < parts.len() ==> #[trigger] parse_int_spec(parts[i], false, 0, 255) is Ok {
            Some(Seq::new(4, |i: int| parse_int_spec(parts[i], false, 0, 255)->Ok_0))
        } else {
            None
        }
    }
}

impl Config {
    /// The settings written when none exist yet, for the home directory `home`.
    pub fn default_for(home: &str) -> (c: Config)
        ensures
            c.default@ == "local"@,
            c.runner.shell@ == "/bin/sh"@,
            c.runner.args@.len() == 1,
            c.runner.args@[0]@ == "-c"@,
            c.runner.node@ == "node"@,
            c.runner.log_path@ == home@ + "/.pmc/logs"@,
            c.daemon.restarts == 10,
            c.daemon.interval == 1000,
            c.daemon.kind@ == "default"@,
            !c.daemon.web.ui,
            !c.daemon.web.api,
            c.daemon.web.address@ == "0.0.0.0"@,
            c.daemon.web.path is None,
            c.daemon.web.port == 5630,
            c.daemon.web.secure matches Some(s) && !s.enabled && s.token@ == ""@,
    {
        let mut log_path = String::from_str(home);
        log_path.append("/.pmc/logs");
        let mut args: Vec<String> = Vec::new();
        args.push(String::from_str("-c"));
        Config {
            default: String::from_str("local"),
            runner: Runner {
                shell: String::from_str("/bin/sh"),
                args,
                node: String::from_str("node"),
                log_path,
            },
            daemon: Daemon {
                restarts: 10,
                interval: 1000,
                kind: String::from_str("default"),
                web: Web {
                    ui: false,
                    api: false,
                    address: String::from_str("0.0.0.0"),
                    path: None,
                    port: 5630,
                    secure: Some(Secure { enabled: false, token: String::from_str("") }),
                },
            },
        }
    }

    /// Whether the shell is an absolute path (on Unix: it starts with `/`).
    pub fn check_shell_absolute(&self) -> (b: bool)
        ensures
            b == (self.runner.shell@.len() > 0 && self.runner.shell@[0] == '/'),
    {
        let v = crate::text::to_chars(self.runner.shell.as_str());
        v.len() > 0 && v[0] == '/'
    }

    /// `address:port` of the web server.
    pub fn fmt_address(&self) -> (s: String)
        ensures
            s@ == self.daemon.web.address@ + seq![':'] + decimal(self.daemon.web.port as nat),
    {
        let mut s = self.daemon.web.address.clone();
        s.append(":");
        let port = u64_to_string(self.daemon.web.port);
        s.append(port.as_str());
        proof {
            reveal_strlit(":");
            assert(":"@ =~= seq![':']);
        }
        s
    }

    /// The base path of the web server, `/` when none is set.
    pub fn get_path(&self) -> (s: String)
        ensures
            match self.daemon.web.path {
                Some(p) => s == p,
                None => s@ == "/"@,
            },
    {
        match &self.daemon.web.path {
            Some(p) => p.clone(),
            None => String::from_str("/"),
        }
    }

    /// The settings with another default server.
    pub fn set_default(self, name: String) -> (c: Config)
        ensures
            c == (Config { default: name, ..self }),
    {
        Config { default: name, ..self }
    }

    /// The octets of the web server's address: `localhost` is 127.0.0.1,
    /// otherwise every dot-separated part must be a number 0-255 and there
    /// must be at least four parts, of which the first four are used. `None`
    /// where the address is not of that form.
    pub fn address_octets(&self) -> (r: Option<[u8; 4]>)
        ensures
            match octets_spec(self.daemon.web.address@) {
                Some(o) => r matches Some(a) && a@.len() == 4 && forall|i: int|
                    0 <= i < 4 ==> a@[i] as int == #[trigger] o[i],
                None => r is None,
            },
    {
        proof {
            reveal_strlit("localhost");
        }
        if str_eq(self.daemon.web.address.as_str(), "localhost") {
            let a: [u8; 4] = [127, 0, 0, 1];
            assert(a@ =~= seq![127u8, 0, 0, 1]);
            return Some(a);
        }
        let parts = split_char(self.daemon.web.address.as_str(), '.');
        let ghost ps = parts@.map_values(|x: String| x@);
        let mut values: Vec<u8> = Vec::new();
        let mut i: usize = 0;
        while i < parts.len()
            invariant
                ps == parts@.map_values(|x: String| x@),
                ps == split_spec(self.daemon.web.address@, '.'),
                self.daemon.web.address@ != "localhost"@,
                i <= parts.len(),
                values.len() == i,
                forall|j: int|
                    0 <= j < i ==> #[trigger] parse_int_spec(ps[j], false, 0, 255) is Ok
                        && values@[j] as int == parse_int_spec(ps[j], false, 0, 255)->Ok_0,
            decreases parts.len() - i,
        {
            assert(ps[i as int] == parts@[i as int]@);
            match parse_int(parts[i].as_str(), false, 0, 255) {
                Ok(v) => {
                    values.push(v as u8);
                },
                Err(_) => {
                    assert(!(parse_int_spec(ps[i as int], false, 0, 255) is Ok));
                    assert(self.daemon.web.address@ != "localhost"@);
                    assert(octets_spec(self.daemon.web.address@) is None);
                    return None;
                },
            }
            i += 1;
        }
        if values.len() < 4 {
            return None;
        }
        let a: [u8; 4] = [values[0], values[1], values[2], values[3]];
        assert(a@ =~= seq![values@[0], values@[1], values@[2], values@[3]]);
        Some(a)
    }
}


/// Where the state of the process manager lives under a home directory.
pub struct Paths {
    pub base: String,
    pub log: String,
    pub pid: String,
    pub dump: String,
    pub daemon_log: String,
}

impl Paths {
    /// The files under `{home}/.pmc/`.
    pub fn new(home: &str) -> (p: Paths)
        ensures
            p.base@ == home@ + "/.pmc/"@,
            p.log@ == home@ + "/.pmc/pmc.log"@,
            p.pid@ == home@ + "/.pmc/daemon.pid"@,
            p.dump@ == home@ + "/.pmc/process.dump"@,
            p.daemon_log@ == home@ + "/.pmc/daemon.log"@,
    {
        let mut base = String::from_str(home);
        base.append("/.pmc/");
        let mut log = String::from_str(home);
        log.append("/.pmc/pmc.log");
        let mut pid = String::from_str(home);
        pid.append("/.pmc/daemon.pid");
        let mut dump = String::from_str(home);
        dump.append("/.pmc/process.dump");
        let mut daemon_log = String::from_str(home);
        daemon_log.append("/.pmc/daemon.log");
        Paths { base, log, pid, dump, daemon_log }
    }
}

} // verus!
