//! What the command line decides: how an argument names a process, which
//! server a command goes to, and how a new process's name and command are
//! derived.

use vstd::prelude::*;
use crate::helpers::{duration_text, format_elapsed};
use crate::num::{decimal, i64_to_string, parse_usize, parse_usize_spec, signed_decimal, u64_to_string, usize_to_string};
use crate::process::{status_of, status_text, Process, Runner};
use crate::ordmap::OrdMap;
use crate::process::Env;
use crate::text::{
    first_token, join, join_spec, replace, replace_spec, split_spec, str_eq, trim, trim_spec,
    ws_tokens,
};

verus! {

/// An argument that is either a process id or some text.
pub trait Validatable: Sized {
    /// The id this argument holds, if it is one.
    spec fn id_of(&self) -> Option<usize>;

    /// The text this argument holds, if it is text.
    spec fn text_of(&self) -> Option<Seq<char>>;

    fn from_id(id: usize) -> (r: Self)
        ensures
            r.id_of() == Some(id),
            r.text_of() is None,
    ;

    fn from_string(s: String) -> (r: Self)
        ensures
            r.text_of() == Some(s@),
            r.id_of() is None,
    ;

    fn get_string(&self) -> (r: Option<&str>)
        ensures
            match self.text_of() {
                Some(t) => r matches Some(x) && x@ == t,
                None => r is None,
            },
    ;
}

/// What `start` acts on: a process id, or a script (or a process name).
#[derive(Clone, Debug)]
pub enum Args {
    Id(usize),
    Script(String),
}

/// What other commands act on: a process id or a process name.
#[derive(Clone, Debug)]
pub enum Item {
    Id(usize),
    Name(String),
}

impl Validatable for Args {
    open spec fn id_of(&self) -> Option<usize> {
        match self {
            Args::Id(id) => Some(*id),
            Args::Script(_) => None,
        }
    }

    open spec fn text_of(&self) -> Option<Seq<char>> {
        match self {
            Args::Id(_) => None,
            Args::Script(s) => Some(s@),
        }
    }

    fn from_id(id: usize) -> (r: Self) {
        Args::Id(id)
    }

    fn from_string(s: String) -> (r: Self) {
        Args::Script(s)
    }

    fn get_string(&self) -> (r: Option<&str>) {
        match self {
            Args::Id(_) => None,
            Args::Script(s) => Some(s.as_str()),
        }
    }
}

impl Validatable for Item {
    open spec fn id_of(&self) -> Option<usize> {
        match self {
            Item::Id(id) => Some(*id),
            Item::Name(_) => None,
        }
    }

    open spec fn text_of(&self) -> Option<Seq<char>> {
        match self {
            Item::Id(_) => None,
            Item::Name(s) => Some(s@),
        }
    }

    fn from_id(id: usize) -> (r: Self) {
        Item::Id(id)
    }

    fn from_string(s: String) -> (r: Self) {
        Item::Name(s)
    }

    fn get_string(&self) -> (r: Option<&str>) {
        match self {
            Item::Id(_) => None,
            Item::Name(s) => Some(s.as_str()),
        }
    }
}

/// Reads an argument: a number is an id, anything else is text. Never fails.
pub fn validate<T: Validatable>(s: &str) -> (r: Result<T, String>)
    ensures
        r matches Ok(v) && match parse_usize_spec(s@) {
            Ok(n) => v.id_of() == Some(n as usize) && v.text_of() is None,
            Err(_) => v.text_of() == Some(s@) && v.id_of() is None,
        },
{
    match parse_usize(s) {
        Ok(id) => Ok(T::from_id(id)),
        Err(_) => Ok(T::from_string(String::from_str(s))),
    }
}

/// The names of the local daemon.
pub open spec fn is_local_spec(server: Seq<char>) -> bool {
    server == "internal"@ || server == "local"@
}

/// Whether a server name means the local daemon.
pub fn is_local(server: &str) -> (b: bool)
    ensures
        b == is_local_spec(server@),
{
    str_eq(server, "internal") || str_eq(server, "local")
}

/// How messages qualify actions on `server`: empty for the local daemon,
/// `remote ` otherwise; and the server's name for the listing that follows.
pub fn format(server_name: &String) -> (r: (String, String))
    ensures
        r.0@ == (if is_local_spec(server_name@) { ""@ } else { "remote "@ }),
        r.1@ == server_name@,
{
    let kind = if is_local(server_name.as_str()) {
        String::from_str("")
    } else {
        String::from_str("remote ")
    };
    (kind, server_name.clone())
}

/// The name of a new process: the one given, else the first word of its
/// script (empty when the script has none).
pub fn default_name(name: &Option<String>, script: &str) -> (r: String)
    ensures
        match name {
            Some(n) => r@ == n@,
            None => r@ == (if ws_tokens(script@).len() > 0 { ws_tokens(script@)[0] } else { Seq::<char>::empty() }),
        },
{
    match name {
        Some(n) => n.clone(),
        None => match first_token(script) {
            Some(t) => t,
            None => String::new(),
        },
    }
}

/// A name given on the command line or to the API: trimmed, line breaks removed.
pub open spec fn clean_name_spec(n: Seq<char>) -> Seq<char> {
    replace_spec(trim_spec(n), seq!['\n'], Seq::<char>::empty())
}

/// Trims a new name and removes its line breaks.
pub fn clean_name(n: &str) -> (r: String)
    ensures
        r@ == clean_name_spec(n@),
{
    let t = trim(n);
    proof {
        reveal_strlit("\n");
        reveal_strlit("");
        assert("\n"@ =~= seq!['\n']);
        assert(""@ =~= Seq::<char>::empty());
    }
    replace(t.as_str(), "\n", "")
}

pub open spec fn is_alnum(c: char) -> bool {
    ('a' <= c && c <= 'z') || ('A' <= c && c <= 'Z') || ('0' <= c && c <= '9')
}

/// `[a-zA-Z0-9]+(/[a-zA-Z0-9]+)*`: letters and digits in one or more
/// non-empty segments separated by single slashes.
pub open spec fn path_form(p: Seq<char>) -> bool {
    &&& p.len() > 0
    &&& forall|i: int|
        0 <= i < p.len() ==> is_alnum(#[trigger] p[i]) || (p[i] == '/' && 0 < i < p.len() - 1
            && is_alnum(p[i - 1]) && is_alnum(p[i + 1]))
}

/// A path form, optionally followed by `.js` or `.ts`.
pub open spec fn script_form(l: Seq<char>) -> bool {
    ||| path_form(l)
    ||| (l.len() > 3 && (l.skip(l.len() - 3) == ".js"@ || l.skip(l.len() - 3) == ".ts"@)
        && path_form(l.take(l.len() - 3)))
}

/// Whether some line of `s` is a script path (the pattern
/// `(?m)^[a-zA-Z0-9]+(/[a-zA-Z0-9]+)*(\.js|\.ts)?$`).
pub open spec fn node_script_spec(s: Seq<char>) -> bool {
    exists|i: int|
        0 <= i < split_spec(s, '\n').len() && script_form(#[trigger] split_spec(s, '\n')[i])
}

/// Whether `regex::Regex::new(pattern)` matches somewhere in `script`
/// (`Regex::is_match`), for the one pattern `pattern` may be: the script
/// path pattern `(?m)^[a-zA-Z0-9]+(/[a-zA-Z0-9]+)*(\.js|\.ts)?$`, which is
/// valid, so `Regex::new` does not fail. Claimed: the match is exactly
/// `node_script_spec`, that is, in multi-line mode `^` and `$` match at the
/// start and end of each `\n`-separated line, and the ASCII classes match
/// only those characters.
#[verifier::external_body]
fn regex_is_match(pattern: &str, script: &str) -> (b: bool)
    requires
        pattern@ == r"(?m)^[a-zA-Z0-9]+(/[a-zA-Z0-9]+)*(\.js|\.ts)?$"@,
    ensures
        b == node_script_spec(script@),
{
    regex::Regex::new(pattern).unwrap().is_match(script)
}

/// The command a new local process runs: a script path is run by the node
/// interpreter `node`, anything else as it is.
pub fn create_command(script: &str, node: &str) -> (r: String)
    ensures
        node_script_spec(script@) ==> r@ == node@ + seq![' '] + script@,
        !node_script_spec(script@) ==> r@ == script@,
{
    if regex_is_match(r"(?m)^[a-zA-Z0-9]+(/[a-zA-Z0-9]+)*(\.js|\.ts)?$", script) {
        let mut r = String::from_str(node);
        r.append(" ");
        r.append(script);
        proof {
            reveal_strlit(" ");
            assert(" "@ =~= seq![' ']);
        }
        r
    } else {
        String::from_str(script)
    }
}

/// The variables of a process to export: those whose value differs from
/// the current environment or that it lacks.
pub open spec fn exported(k: Seq<char>, process: Map<Seq<char>, String>, current: Map<Seq<char>, String>) -> bool {
    process.contains_key(k) && !(current.contains_key(k) && current[k]@ == process[k]@)
}

/// The part of `env` that is not already in `current`, as exported to a
/// process file.
pub fn export_env(env: &Env, current: &Env) -> (r: Env)
    requires
        env.wf(),
        current.wf(),
    ensures
        r.wf(),
        forall|k: Seq<char>| #[trigger] r.map().contains_key(k) <==> exported(k, env.map(), current.map()),
        forall|k: Seq<char>| #[trigger] r.map().contains_key(k) ==> r.map()[k]@ == env.map()[k]@,
        forall|k: Seq<char>|
            #![trigger env.map().contains_key(k)]
            env.map().contains_key(k) ==> current.map().union_prefer_right(r.map()).contains_key(k)
                && current.map().union_prefer_right(r.map())[k]@ == env.map()[k]@,
{
    proof {
        env.lemma_map();
    }
    let mut r: Env = OrdMap::new();
    let n = env.len();
    let mut i: usize = 0;
    while i < n
        invariant
            env.wf(),
            current.wf(),
            r.wf(),
            n == env.keys().len(),
            i <= n,
            forall|j: int|
                0 <= j < env.keys().len() ==> #[trigger] env.map().contains_key(env.keys()[j])
                    && env.map()[env.keys()[j]] == env.values()[j],
            forall|k: Seq<char>| #[trigger]
                env.map().contains_key(k) ==> exists|j: int|
                    0 <= j < env.keys().len() && env.keys()[j] == k,
            env.keys().no_duplicates(),
            forall|k: Seq<char>| #[trigger]
                r.map().contains_key(k) <==> (exported(k, env.map(), current.map()) && exists|j: int|
                    0 <= j < i && env.keys()[j] == k),
            forall|k: Seq<char>| #[trigger] r.map().contains_key(k) ==> r.map()[k]@ == env.map()[k]@,
        decreases n - i,
    {
        let k = env.key_at(i);
        let v = env.value_at(i);
        let keep = match current.get(k) {
            Some(cv) => !str_eq(cv.as_str(), v.as_str()),
            None => true,
        };
        let ghost before = r.map();
        if keep {
            r.insert(k.clone(), v.clone());
        }
        proof {
            assert(env.map().contains_key(env.keys()[i as int]));
            assert forall|key: Seq<char>| #[trigger] r.map().contains_key(key) <==> (exported(
                key,
                env.map(),
                current.map(),
            ) && exists|j: int| 0 <= j < i + 1 && env.keys()[j] == key) by {
                if exists|j: int| 0 <= j < i + 1 && env.keys()[j] == key {
                    let j = choose|j: int| 0 <= j < i + 1 && env.keys()[j] == key;
                    if j < i {
                        assert(exists|j2: int| 0 <= j2 < i && env.keys()[j2] == key);
                    }
                }
                if key != env.keys()[i as int] && (exists|j: int| 0 <= j < i + 1 && env.keys()[j] == key) {
                    let j = choose|j: int| 0 <= j < i + 1 && env.keys()[j] == key;
                    assert(j != i);
                    assert(exists|j2: int| 0 <= j2 < i && env.keys()[j2] == key);
                }
                if key == env.keys()[i as int] {
                    assert(!(exists|j: int| 0 <= j < i && env.keys()[j] == key)) by {
                        if exists|j: int| 0 <= j < i && env.keys()[j] == key {
                            let j = choose|j: int| 0 <= j < i && env.keys()[j] == key;
                            assert(env.keys()[j] == env.keys()[i as int]);
                        }
                    }
                }
            }
        }
        i += 1;
    }
    proof {
        assert forall|k: Seq<char>| #[trigger] r.map().contains_key(k) <==> exported(k, env.map(), current.map()) by {
            if exported(k, env.map(), current.map()) {
                let j = choose|j: int| 0 <= j < env.keys().len() && env.keys()[j] == k;
                assert(exists|j2: int| 0 <= j2 < i && env.keys()[j2] == k);
            }
        }
        assert forall|k: Seq<char>| env.map().contains_key(k) implies current.map().union_prefer_right(
            r.map(),
        ).contains_key(k) && current.map().union_prefer_right(r.map())[k]@ == env.map()[k]@ by {
            if !r.map().contains_key(k) {
                assert(!exported(k, env.map(), current.map()));
            }
        }
    }
    r
}

/// The file a process is exported to when none is given: `{name}.hcl`.
pub fn export_path(path: &Option<String>, name: &str) -> (r: String)
    ensures
        match path {
            Some(p) => r@ == p@,
            None => r@ == name@ + ".hcl"@,
        },
{
    match path {
        Some(p) => p.clone(),
        None => {
            let mut r = String::from_str(name);
            r.append(".hcl");
            r
        },
    }
}

/// Whether `name` is a server that `server default` may select: a known
/// remote server, or the local daemon.
pub fn server_known(servers: &OrdMap<String, crate::config::Server>, name: &String) -> (b: bool)
    requires
        servers.wf(),
    ensures
        b == (servers.map().contains_key(name@) || is_local_spec(name@)),
{
    servers.contains_key(name) || is_local(name.as_str())
}


/// What `start` does.
#[derive(PartialEq, Eq, Structural, Clone, Copy, Debug)]
pub enum StartTarget {
    /// Restart every id from 0 up to this largest one.
    All(usize),
    /// `all` was asked but the table is empty.
    NothingToStart,
    /// Restart this process.
    Restart(usize),
    /// Create a new process from the script.
    Create,
}

/// What `start` does with its argument on `runner`: `all` restarts every
/// id up to the largest, an id restarts that process, a name restarts the
/// first process of that name, any other text creates a process.
pub fn start_target(args: &Args, runner: &Runner) -> (t: StartTarget)
    requires
        runner.wf(),
    ensures
        args.text_of() == Some("all"@) ==> (runner.processes().is_empty() ==> t == StartTarget::NothingToStart)
            && (!runner.processes().is_empty() ==> (t matches StartTarget::All(k) && runner.processes().contains_key(k)
            && forall|j: usize| #[trigger] runner.processes().contains_key(j) ==> j <= k)),
        args.text_of() != Some("all"@) ==> match args {
            Args::Id(id) => t == StartTarget::Restart(*id),
            Args::Script(s) => match t {
                StartTarget::Restart(k) => runner.processes().contains_key(k) && runner.processes()[k].name@ == s@
                    && forall|j: usize|
                    #![trigger runner.processes().contains_key(j)]
                    runner.processes().contains_key(j) && j < k ==> runner.processes()[j].name@ != s@,
                StartTarget::Create => forall|j: usize| #[trigger]
                    runner.processes().contains_key(j) ==> runner.processes()[j].name@ != s@,
                _ => false,
            },
        },
{
    if let Some(a) = args.get_string() {
        if str_eq(a, "all") {
            return match runner.size() {
                Some(k) => StartTarget::All(k),
                None => StartTarget::NothingToStart,
            };
        }
    }
    match args {
        Args::Id(id) => StartTarget::Restart(*id),
        Args::Script(s) => match runner.find(s.as_str()) {
            Some(k) => StartTarget::Restart(k),
            None => StartTarget::Create,
        },
    }
}

/// The process an item names on `runner`: an id as given, a name as the
/// first process of that name; `None` when no process has that name.
pub fn resolve_item(item: &Item, runner: &Runner) -> (r: Option<usize>)
    requires
        runner.wf(),
    ensures
        match item {
            Item::Id(id) => r == Some(*id),
            Item::Name(n) => match r {
                Some(k) => runner.processes().contains_key(k) && runner.processes()[k].name@ == n@
                    && forall|j: usize|
                    #![trigger runner.processes().contains_key(j)]
                    runner.processes().contains_key(j) && j < k ==> runner.processes()[j].name@ != n@,
                None => forall|j: usize| #[trigger]
                    runner.processes().contains_key(j) ==> runner.processes()[j].name@ != n@,
            },
        },
{
    match item {
        Item::Id(id) => Some(*id),
        Item::Name(n) => runner.find(n.as_str()),
    }
}

/// `format!("{:?}", v)` for a list of integers: `[a, b, c]`.
pub open spec fn debug_list_spec(v: Seq<i64>) -> Seq<char> {
    seq!['['] + join_spec(v.map_values(|x: i64| signed_decimal(x as int)), seq![',', ' ']) + seq![']']
}

/// Writes a list of integers as `Debug` does.
pub fn debug_list(v: &Vec<i64>) -> (s: String)
    ensures
        s@ == debug_list_spec(v@),
{
    let mut parts: Vec<String> = Vec::new();
    let mut i: usize = 0;
    while i < v.len()
        invariant
            i <= v.len(),
            parts.len() == i,
            forall|j: int| 0 <= j < i ==> #[trigger] parts@[j]@ == signed_decimal(v@[j] as int),
        decreases v.len() - i,
    {
        parts.push(i64_to_string(v[i]));
        i += 1;
    }
    assert(parts@.map_values(|x: String| x@) =~= v@.map_values(|x: i64| signed_decimal(x as int)));
    let mut s = String::from_str("[");
    let inner = join(&parts, ", ");
    s.append(inner.as_str());
    s.append("]");
    proof {
        reveal_strlit("[");
        reveal_strlit("]");
        reveal_strlit(", ");
        assert("["@ =~= seq!['[']);
        assert("]"@ =~= seq![']']);
        assert(", "@ =~= seq![',', ' ']);
        assert(s@ =~= debug_list_spec(v@));
    }
    s
}

/// One row of `pmc list`, before colouring.
pub struct ListRow {
    pub id: String,
    pub name: String,
    pub pid: String,
    pub uptime: String,
    pub restarts: String,
    pub status: String,
    pub cpu: String,
    pub mem: String,
    pub watch: String,
}

/// The `pmc list` row of process `id`, with the measured `cpu` and `mem`
/// texts, seen at `now`: a pid and an uptime only while running, the watched
/// path or `disabled`.
pub fn list_row(id: usize, p: &Process, cpu: &str, mem: &str, now: i64) -> (r: ListRow)
    ensures
        r.id@ == decimal(id as nat),
        r.name@ == p.name@ + "   "@,
        r.pid@ == (if p.running { signed_decimal(p.pid as int) + "  "@ } else { "n/a  "@ }),
        r.uptime@ == (if p.running { duration_text(now as int, p.started as int) + "  "@ } else { "none  "@ }),
        r.restarts@ == decimal(p.restarts as nat) + "  "@,
        r.status@ == status_text(p.running, p.crash.crashed) + "   "@,
        r.cpu@ == cpu@ + "   "@,
        r.mem@ == mem@ + "   "@,
        r.watch@ == (if p.watch.enabled { p.watch.path@ + "  "@ } else { "disabled  "@ }),
{
    let mut name = p.name.clone();
    name.append("   ");
    let pid = if p.running {
        let mut t = i64_to_string(p.pid);
        t.append("  ");
        t
    } else {
        String::from_str("n/a  ")
    };
    let uptime = if p.running {
        let mut t = format_elapsed(now, p.started);
        t.append("  ");
        t
    } else {
        String::from_str("none  ")
    };
    let mut restarts = u64_to_string(p.restarts);
    restarts.append("  ");
    let mut status = status_of(p.running, p.crash.crashed);
    status.append("   ");
    let mut c = String::from_str(cpu);
    c.append("   ");
    let mut m = String::from_str(mem);
    m.append("   ");
    let watch = if p.watch.enabled {
        let mut t = p.watch.path.clone();
        t.append("  ");
        t
    } else {
        String::from_str("disabled  ")
    };
    ListRow { id: usize_to_string(id), name, pid, uptime, restarts, status, cpu: c, mem: m, watch }
}

/// The rows of `pmc info`, before colouring.
pub struct DetailRow {
    pub log_error: String,
    pub log_out: String,
    pub cpu_percent: String,
    pub memory_usage: String,
    pub hash: String,
    pub watch: String,
    pub children: String,
    pub path: String,
    pub command: String,
    pub id: String,
    pub restarts: u64,
    pub uptime: String,
    pub pid: String,
    pub name: String,
    pub status: String,
}

/// The `pmc info` rows of process `id`: `path` is how its working directory
/// is shown, `log_out`, `log_error` and `command` as the server reports them,
/// `cpu` and `mem` as measured, `now` the current time.
pub fn detail_row(
    id: usize,
    p: &Process,
    path: &str,
    log_out: String,
    log_error: String,
    command: String,
    cpu: String,
    mem: String,
    now: i64,
) -> (r: DetailRow)
    ensures
        r.log_error == log_error,
        r.log_out == log_out,
        r.cpu_percent == cpu,
        r.memory_usage == mem,
        r.command == command,
        r.hash@ == (if p.watch.enabled { p.watch.hash@ + "  "@ } else { "none  "@ }),
        r.watch@ == (if p.watch.enabled { path@ + seq!['/'] + p.watch.path@ + "  "@ } else { "disabled  "@ }),
        r.children@ == (if p.children@.len() == 0 { "none"@ } else { debug_list_spec(p.children@) }),
        r.path@ == path@ + seq![' '],
        r.id@ == decimal(id as nat),
        r.restarts == p.restarts,
        r.uptime@ == (if p.running { duration_text(now as int, p.started as int) } else { "none"@ }),
        r.pid@ == (if p.running { signed_decimal(p.pid as int) } else { "n/a"@ }),
        r.name@ == p.name@,
        r.status@ == status_text(p.running, p.crash.crashed) + "   "@,
{
    let hash = if p.watch.enabled {
        let mut t = p.watch.hash.clone();
        t.append("  ");
        t
    } else {
        String::from_str("none  ")
    };
    let watch = if p.watch.enabled {
        let mut t = String::from_str(path);
        t.append("/");
        t.append(p.watch.path.as_str());
        t.append("  ");
        proof {
            reveal_strlit("/");
            assert("/"@ =~= seq!['/']);
        }
        t
    } else {
        String::from_str("disabled  ")
    };
    let children = if p.children.len() == 0 {
        String::from_str("none")
    } else {
        debug_list(&p.children)
    };
    let mut shown_path = String::from_str(path);
    shown_path.append(" ");
    proof {
        reveal_strlit(" ");
        assert(" "@ =~= seq![' ']);
    }
    let uptime = if p.running {
        format_elapsed(now, p.started)
    } else {
        String::from_str("none")
    };
    let pid = if p.running {
        i64_to_string(p.pid)
    } else {
        String::from_str("n/a")
    };
    let mut status = status_of(p.running, p.crash.crashed);
    status.append("   ");
    DetailRow {
        log_error,
        log_out,
        cpu_percent: cpu,
        memory_usage: mem,
        hash,
        watch,
        children,
        path: shown_path,
        command,
        id: usize_to_string(id),
        restarts: p.restarts,
        uptime,
        pid,
        name: p.name.clone(),
        status,
    }
}

/// Whether the answers to `pmc server new` may be saved: name and address
/// must not be empty.
pub fn new_server_valid(name: &str, address: &str) -> (b: bool)
    ensures
        b == (name@.len() > 0 && address@.len() > 0),
{
    name.unicode_len() > 0 && address.unicode_len() > 0
}

/// Which tables `pmc list` shows.
pub struct ListScope {
    /// The remote server of the given name.
    pub named_remote: bool,
    /// The local table.
    pub local: bool,
    /// Every known remote server as well.
    pub all_remotes: bool,
}

/// Server names under which `pmc list` shows the local table.
pub open spec fn lists_local_spec(name: Seq<char>) -> bool {
    name == "internal"@ || name == "all"@ || name == "global"@ || name == "local"@
}

/// Server names under which `pmc list` shows every server.
pub open spec fn lists_everything_spec(name: Seq<char>) -> bool {
    name == "all"@ || name == "global"@
}

/// What `pmc list` shows for the server name `name`: a known remote server
/// by that name, else the local table for the local names; `None` when the
/// name is neither.
pub fn list_scope(servers: &OrdMap<String, crate::config::Server>, name: &String) -> (r: Option<ListScope>)
    requires
        servers.wf(),
    ensures
        r is None <==> !servers.map().contains_key(name@) && !lists_local_spec(name@),
        r matches Some(s) ==> s.named_remote == servers.map().contains_key(name@)
            && s.local == (!servers.map().contains_key(name@) && lists_local_spec(name@))
            && s.all_remotes == lists_everything_spec(name@),
{
    let named_remote = servers.contains_key(name);
    let n = name.as_str();
    let everything = str_eq(n, "all") || str_eq(n, "global");
    let local_name = str_eq(n, "internal") || everything || str_eq(n, "local");
    if !named_remote && !local_name {
        return None;
    }
    Some(ListScope { named_remote, local: !named_remote && local_name, all_remotes: everything })
}

} // verus!
