//! What the daemon and its API decide: its pid file, its kind, who may use
//! the API, which action a request asks for, and which processes to revive.

use vstd::prelude::*;
use crate::config::Secure;
use crate::helpers::{duration_text, format_elapsed};
use crate::num::{decimal, i64_to_string, parse_i32, parse_i32_spec, signed_decimal, u64_to_string, IntErrorKind};
use crate::process::Runner;
use crate::text::{replace, replace_spec, str_eq, trim, trim_end_char, trim_end_char_spec, trim_spec};

verus! {

/// The daemon's process id, as kept in its pid file.
#[derive(Clone, Copy, Debug)]
pub struct Pid(pub i32);

impl Pid {
    /// The pid as an `i64`.
    pub fn get(&self) -> (r: i64)
        ensures
            r == self.0,
    {
        self.0 as i64
    }

    /// The pid as a `u32`; it must not be negative.
    pub fn get_u32(&self) -> (r: u32)
        requires
            self.0 >= 0,
        ensures
            r == self.0,
    {
        self.0 as u32
    }

    /// The pid's decimal text (`Display`).
    pub fn to_string(&self) -> (s: String)
        ensures
            s@ == signed_decimal(self.0 as int),
    {
        i64_to_string(self.0 as i64)
    }
}

/// What the daemon writes to its pid file for its own pid.
pub fn pid_file_text(pid: u32) -> (s: String)
    ensures
        s@ == decimal(pid as nat),
{
    u64_to_string(pid as u64)
}

/// Reads the pid file's contents: a number, surrounding whitespace ignored.
pub fn parse_pid(contents: &str) -> (r: Result<Pid, IntErrorKind>)
    ensures
        match parse_i32_spec(trim_spec(contents@)) {
            Ok(v) => r matches Ok(p) && p.0 == v,
            Err(e) => r == Err::<Pid, IntErrorKind>(e),
        },
{
    let t = trim(contents);
    match parse_i32(t.as_str()) {
        Ok(v) => Ok(Pid(v)),
        Err(e) => Err(e),
    }
}

/// Whether a daemon kind is run through the external forking service
/// (`external` and `cc`); every other kind forks natively.
pub fn is_external(kind: &str) -> (b: bool)
    ensures
        b == (kind@ == "external"@ || kind@ == "cc"@),
{
    str_eq(kind, "external") || str_eq(kind, "cc")
}

/// Whether a request may use the API: always when no access control is set
/// or it is disabled; otherwise when the `token` header or the `token`
/// query value equals the configured token.
pub open spec fn authorized_spec(secure: Option<Secure>, header: Option<Seq<char>>, query: Option<Seq<char>>) -> bool {
    match secure {
        None => true,
        Some(s) => !s.enabled || header == Some(s.token@) || query == Some(s.token@),
    }
}

/// Decides whether a request may use the API.
pub fn token_authorized(secure: &Option<Secure>, header: Option<&str>, query: Option<&str>) -> (b: bool)
    ensures
        b == authorized_spec(
            *secure,
            match header {
                Some(h) => Some(h@),
                None => None,
            },
            match query {
                Some(q) => Some(q@),
                None => None,
            },
        ),
{
    match secure {
        None => true,
        Some(s) => {
            if !s.enabled {
                return true;
            }
            let header_valid = match header {
                Some(h) => str_eq(h, s.token.as_str()),
                None => false,
            };
            let query_valid = match query {
                Some(q) => str_eq(q, s.token.as_str()),
                None => false,
            };
            header_valid || query_valid
        },
    }
}

/// What a request to `/process/<id>/action` asks for.
#[derive(PartialEq, Eq, Structural, Clone, Copy, Debug)]
pub enum Action {
    Restart,
    Stop,
    ClearEnv,
    Remove,
    Flush,
}

/// The action a method name asks for, `None` for an unknown method.
pub open spec fn action_spec(m: Seq<char>) -> Option<Action> {
    if m == "start"@ || m == "restart"@ {
        Some(Action::Restart)
    } else if m == "stop"@ || m == "kill"@ {
        Some(Action::Stop)
    } else if m == "reset_env"@ || m == "clear_env"@ {
        Some(Action::ClearEnv)
    } else if m == "remove"@ || m == "delete"@ {
        Some(Action::Remove)
    } else if m == "flush"@ || m == "clean"@ {
        Some(Action::Flush)
    } else {
        None
    }
}

/// Reads the method of an action request.
pub fn parse_action(method: &str) -> (r: Option<Action>)
    ensures
        r == action_spec(method@),
{
    if str_eq(method, "start") || str_eq(method, "restart") {
        Some(Action::Restart)
    } else if str_eq(method, "stop") || str_eq(method, "kill") {
        Some(Action::Stop)
    } else if str_eq(method, "reset_env") || str_eq(method, "clear_env") {
        Some(Action::ClearEnv)
    } else if str_eq(method, "remove") || str_eq(method, "delete") {
        Some(Action::Remove)
    } else if str_eq(method, "flush") || str_eq(method, "clean") {
        Some(Action::Flush)
    } else {
        None
    }
}

/// The answer to an action request.
pub struct ActionResponse {
    pub done: bool,
    pub action: String,
}

/// The answer to an action: the method when done, `DOES_NOT_EXIST` otherwise.
pub fn attempt(done: bool, method: &str) -> (r: ActionResponse)
    ensures
        r.done == done,
        r.action@ == (if done { method@ } else { "DOES_NOT_EXIST"@ }),
{
    ActionResponse {
        done,
        action: if done {
            String::from_str(method)
        } else {
            String::from_str("DOES_NOT_EXIST")
        },
    }
}

/// Whether a log kind asked of the API names the error log (`error` or
/// `stderr`); anything else means the output log.
pub fn api_shows_error_log(kind: &str) -> (b: bool)
    ensures
        b == (kind@ == "error"@ || kind@ == "stderr"@),
{
    str_eq(kind, "error") || str_eq(kind, "stderr")
}

/// The processes the daemon must restart: those marked running whose
/// process is gone; `alive[i]` tells whether the `i`-th process (in id
/// order) is still alive.
pub fn restart_candidates(runner: &Runner, alive: &Vec<bool>) -> (r: Vec<usize>)
    requires
        runner.wf(),
        alive.len() == runner.ids().len(),
    ensures
        r@ == Seq::new(runner.ids().len(), |i: int| i).filter(
            |i: int| runner.entries()[i].running && !alive@[i],
        ).map_values(|i: int| runner.ids()[i]),
{
    proof {
        runner.lemma_table();
    }
    let ghost all = Seq::new(runner.ids().len(), |i: int| i);
    let ghost pred = |i: int| runner.entries()[i].running && !alive@[i];
    let items = runner.items();
    let n = items.len();
    let mut r: Vec<usize> = Vec::new();
    let mut i: usize = 0;
    while i < n
        invariant
            runner.wf(),
            items.keys() == runner.ids(),
            items.values() == runner.entries(),
            n == runner.ids().len(),
            alive.len() == n,
            i <= n,
            all == Seq::new(runner.ids().len(), |i: int| i),
            pred == (|i: int| runner.entries()[i].running && !alive@[i]),
            r@ == all.take(i as int).filter(pred).map_values(|j: int| runner.ids()[j]),
        decreases n - i,
    {
        let p = items.value_at(i);
        let ghost before = all.take(i as int).filter(pred);
        if p.running && !alive[i] {
            r.push(*items.key_at(i));
        }
        proof {
            let t = all.take(i + 1);
            assert(t.drop_last() =~= all.take(i as int));
            assert(t.last() == i as int);
            reveal(Seq::filter);
            if pred(i as int) {
                assert(all.take(i + 1).filter(pred) == before.push(i as int));
                assert(before.push(i as int).map_values(|j: int| runner.ids()[j]) =~= before.map_values(
                    |j: int| runner.ids()[j],
                ).push(runner.ids()[i as int]));
            } else {
                assert(all.take(i + 1).filter(pred) == before);
            }
        }
        i += 1;
    }
    assert(all.take(n as int) =~= all);
    r
}

/// The rows of `pmc daemon health`, before colouring.
pub struct HealthRow {
    pub pid_file: String,
    pub path: String,
    pub cpu_percent: String,
    pub memory_usage: String,
    pub external: String,
    pub process_count: usize,
    pub uptime: String,
    pub pid: String,
    pub status: String,
}

/// The `pmc daemon health` rows: `daemon` is the pid of the running daemon
/// and when its pid file was created (milliseconds since the epoch), `cpu`
/// and `memory` its measured usage (`None` when it could not be measured),
/// `now` the current time.
pub fn health_row(
    pid_file: &str,
    base: &str,
    kind: &str,
    process_count: usize,
    pid_file_exists: bool,
    daemon: Option<(i32, i64)>,
    cpu: Option<String>,
    memory: Option<String>,
    now: i64,
) -> (r: HealthRow)
    ensures
        r.pid_file@ == pid_file@ + "  "@,
        r.path@ == base@,
        r.cpu_percent@ == match cpu {
            Some(c) => c@,
            None => "0%"@,
        },
        r.memory_usage@ == match memory {
            Some(m) => m@,
            None => "0b"@,
        },
        r.external@ == kind@,
        r.process_count == process_count,
        r.uptime@ == match daemon {
            Some((_, started)) => duration_text(now as int, started as int),
            None => "none"@,
        },
        r.pid@ == match daemon {
            Some((pid, _)) => signed_decimal(pid as int),
            None => "n/a"@,
        },
        r.status@ == if pid_file_exists {
            "online"@
        } else {
            "stopped"@
        },
{
    let mut shown_pid_file = String::from_str(pid_file);
    shown_pid_file.append("  ");
    let cpu_percent = match cpu {
        Some(c) => c,
        None => String::from_str("0%"),
    };
    let memory_usage = match memory {
        Some(m) => m,
        None => String::from_str("0b"),
    };
    let (uptime, pid) = match daemon {
        Some((p, started)) => (format_elapsed(now, started), i64_to_string(p as i64)),
        None => (String::from_str("none"), String::from_str("n/a")),
    };
    let status = if pid_file_exists {
        String::from_str("online")
    } else {
        String::from_str("stopped")
    };
    HealthRow {
        pid_file: shown_pid_file,
        path: String::from_str(base),
        cpu_percent,
        memory_usage,
        external: String::from_str(kind),
        process_count,
        uptime,
        pid,
        status,
    }
}

/// The build that a daemon reports.
pub struct Version {
    pub pkg: String,
    pub hash: Option<String>,
    pub build_date: String,
    pub target: String,
}

impl Version {
    /// The version report of package version `pkg_version`, built on
    /// `build_date` for `target` from the commit `git_hash` (empty when the
    /// build has none): the package version is shown with a leading `v`.
    pub fn new(pkg_version: &str, git_hash: &str, build_date: String, target: String) -> (v: Version)
        ensures
            v.pkg@ == seq!['v'] + pkg_version@,
            v.hash matches Some(h) ==> h@ == git_hash@ && git_hash@.len() > 0,
            v.hash is None <==> git_hash@.len() == 0,
            v.build_date == build_date,
            v.target == target,
    {
        let mut pkg = String::from_str("v");
        pkg.append(pkg_version);
        proof {
            reveal_strlit("v");
            assert("v"@ =~= seq!['v']);
        }
        let hash = if git_hash.unicode_len() == 0 {
            None
        } else {
            Some(String::from_str(git_hash))
        };
        Version { pkg, hash, build_date, target }
    }
}

/// The API reference page: its HTML with the web server's base path filled in.
pub struct Docs {
    pub html: String,
    pub s_path: String,
}

impl Docs {
    /// The page for `html`, served under the base path `path` (trailing
    /// slashes dropped).
    pub fn new(html: String, path: &str) -> (d: Docs)
        ensures
            d.html == html,
            d.s_path@ == trim_end_char_spec(path@, '/'),
    {
        Docs { html, s_path: trim_end_char(path, '/') }
    }

    /// The page with every `$s_path` replaced by the base path.
    pub fn render(&self) -> (s: String)
        ensures
            s@ == replace_spec(self.html@, "$s_path"@, self.s_path@),
    {
        proof {
            reveal_strlit("$s_path");
        }
        replace(self.html.as_str(), "$s_path", self.s_path.as_str())
    }
}

} // verus!
