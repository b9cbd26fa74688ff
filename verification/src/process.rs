//! The process table: what is known of each managed process, and every change
//! that the command line, the daemon and the API make to it.

use vstd::prelude::*;
use crate::helpers::{duration_text, format_elapsed};
use crate::id::{succ, Id};
use crate::ordmap::OrdMap;
use crate::text::{join, join_spec, replace, replace_spec};

verus! {

/// Environment variables of a process, by name.
pub type Env = OrdMap<String, String>;

/// Whether a process crashed, and how often in a row.
#[derive(Debug)]
pub struct Crash {
    pub crashed: bool,
    pub value: u64,
}

/// A path whose changes restart the process, with its content hash.
#[derive(Debug)]
pub struct Watch {
    pub enabled: bool,
    pub path: String,
    pub hash: String,
}

/// A managed process.
pub struct Process {
    pub id: usize,
    pub pid: i64,
    pub env: Env,
    pub name: String,
    /// Working directory.
    pub path: String,
    pub script: String,
    pub restarts: u64,
    pub running: bool,
    pub crash: Crash,
    pub watch: Watch,
    pub children: Vec<i64>,
    /// Start time, in milliseconds since the epoch.
    pub started: i64,
}

/// The shell settings of a remote daemon.
pub struct RemoteConfig {
    pub shell: String,
    pub args: Vec<String>,
    pub log_path: String,
}

/// A remote daemon whose table this runner mirrors.
pub struct Remote {
    pub address: String,
    pub token: Option<String>,
    pub config: RemoteConfig,
}

/// Running or not.
pub enum Status {
    Offline,
    Running,
}

impl Status {
    /// Whether the status is `Running`.
    pub fn to_bool(&self) -> (b: bool)
        ensures
            b == (*self is Running),
    {
        match self {
            Status::Offline => false,
            Status::Running => true,
        }
    }
}

/// What is needed to spawn a process.
pub struct ProcessMetadata {
    /// Process name
    pub name: String,
    /// Shell command
    pub shell: String,
    /// Command
    pub command: String,
    /// Log path
    pub log_path: String,
    /// Arguments
    pub args: Vec<String>,
    /// Environment variables
    pub env: Vec<String>,
}

/// The two log files of a process.
pub struct LogInfo {
    pub out: String,
    pub error: String,
}

/// Memory use of a process, in bytes.
pub struct MemoryInfo {
    pub rss: u64,
    pub vms: u64,
}

/// Log files, as reported by the API.
pub struct Log {
    pub out: String,
    pub error: String,
}

/// Raw state, as reported by the API.
pub struct Raw {
    pub running: bool,
    pub crashed: bool,
    pub crashes: u64,
}

/// Description of a process, as reported by the API.
pub struct Info {
    pub id: usize,
    pub pid: i64,
    pub name: String,
    pub status: String,
    pub path: String,
    pub uptime: String,
    pub command: String,
    pub children: Vec<i64>,
}

/// One row of a process listing.
pub struct ProcessItem {
    pub pid: i64,
    pub id: usize,
    pub cpu: String,
    pub mem: String,
    pub name: String,
    pub restarts: u64,
    pub status: String,
    pub uptime: String,
    pub watch_path: String,
    /// Start time, in milliseconds since the epoch.
    pub start_time: i64,
}

/// What starting a process produced: its pid, its start time (milliseconds
/// since the epoch) and the environment it was started in.
pub struct Launch {
    pub pid: i64,
    pub started: i64,
    pub env: Env,
}

/// `online`, `crashed` or `stopped`.
pub open spec fn status_text(running: bool, crashed: bool) -> Seq<char> {
    if running {
        "online"@
    } else if crashed {
        "crashed"@
    } else {
        "stopped"@
    }
}

/// The status shown for a process.
pub fn status_of(running: bool, crashed: bool) -> (s: String)
    ensures
        s@ == status_text(running, crashed),
{
    if running {
        String::from_str("online")
    } else if crashed {
        String::from_str("crashed")
    } else {
        String::from_str("stopped")
    }
}

/// A process name as used in file names: spaces become underscores.
pub open spec fn file_name(name: Seq<char>) -> Seq<char> {
    replace_spec(name, seq![' '], seq!['_'])
}

/// `{dir}/{name}{suffix}` with the name made file-safe.
pub open spec fn log_file(dir: Seq<char>, name: Seq<char>, suffix: Seq<char>) -> Seq<char> {
    dir + seq!['/'] + file_name(name) + suffix
}

/// The log file `{dir}/{name}{suffix}`.
pub fn log_file_path(dir: &str, name: &str, suffix: &str) -> (p: String)
    ensures
        p@ == log_file(dir@, name@, suffix@),
{
    proof {
        reveal_strlit("/");
        reveal_strlit(" ");
        reveal_strlit("_");
        assert("/"@ =~= seq!['/']);
        assert(" "@ =~= seq![' ']);
        assert("_"@ =~= seq!['_']);
    }
    let mut p = String::from_str(dir);
    p.append("/");
    let safe = replace(name, " ", "_");
    p.append(safe.as_str());
    p.append(suffix);
    assert(p@ =~= log_file(dir@, name@, suffix@));
    p
}

/// The command line a process runs: `{shell} {args joined by spaces} '{script}'`.
pub open spec fn command_text(shell: Seq<char>, args: Seq<Seq<char>>, script: Seq<char>) -> Seq<char> {
    shell + seq![' '] + join_spec(args, seq![' ']) + seq![' ', '\''] + script + seq!['\'']
}

/// The command line a process runs.
pub fn command_line(shell: &str, args: &Vec<String>, script: &str) -> (s: String)
    ensures
        s@ == command_text(shell@, args@.map_values(|a: String| a@), script@),
{
    let mut s = String::from_str(shell);
    s.append(" ");
    let joined = join(args, " ");
    s.append(joined.as_str());
    s.append(" '");
    s.append(script);
    s.append("'");
    proof {
        reveal_strlit(" ");
        reveal_strlit(" '");
        reveal_strlit("'");
        assert(" "@ =~= seq![' ']);
        assert(" '"@ =~= seq![' ', '\'']);
        assert("'"@ =~= seq!['\'']);
    }
    assert(s@ =~= command_text(shell@, args@.map_values(|a: String| a@), script@));
    s
}

/// A `KEY=VALUE` entry of an environment.
pub open spec fn var_text(k: Seq<char>, v: Seq<char>) -> Seq<char> {
    k + seq!['='] + v
}

/// The environment of a process as `KEY=VALUE` entries in name order.
pub fn env_vars(env: &Env) -> (r: Vec<String>)
    requires
        env.wf(),
    ensures
        r.len() == env.keys().len(),
        forall|i: int|
            0 <= i < r.len() ==> #[trigger] r@[i]@ == var_text(env.keys()[i], env.values()[i]@),
{
    let mut r: Vec<String> = Vec::new();
    let n = env.len();
    let mut i: usize = 0;
    while i < n
        invariant
            env.wf(),
            n == env.keys().len(),
            i <= n,
            r.len() == i,
            forall|j: int|
                0 <= j < i ==> #[trigger] r@[j]@ == var_text(env.keys()[j], env.values()[j]@),
        decreases n - i,
    {
        let mut s = env.key_at(i).clone();
        s.append("=");
        s.append(env.value_at(i).as_str());
        proof {
            reveal_strlit("=");
        }
        r.push(s);
        i += 1;
    }
    r
}

impl Watch {
    /// The watch settings of a new process: `path` is watched when given.
    pub fn from_option(path: &Option<String>, hash: String) -> (w: Watch)
        ensures
            w.enabled == path is Some,
            path matches Some(p) ==> w.path@ == p@ && w.hash == hash,
            path is None ==> w.path@ == Seq::<char>::empty() && w.hash@ == Seq::<char>::empty(),
    {
        match path {
            Some(p) => Watch { enabled: true, path: p.clone(), hash },
            None => Watch { enabled: false, path: String::new(), hash: String::new() },
        }
    }
}

impl Process {
    /// The process's stdout and stderr log files under `log_path`.
    pub fn logs(&self, log_path: &str) -> (l: LogInfo)
        ensures
            l.out@ == log_file(log_path@, self.name@, "-out.log"@),
            l.error@ == log_file(log_path@, self.name@, "-error.log"@),
    {
        LogInfo {
            out: log_file_path(log_path, self.name.as_str(), "-out.log"),
            error: log_file_path(log_path, self.name.as_str(), "-error.log"),
        }
    }

    /// The state flags, as reported by the API.
    pub fn raw(&self) -> (r: Raw)
        ensures
            r.running == self.running,
            r.crashed == self.crash.crashed,
            r.crashes == self.crash.value,
    {
        Raw { running: self.running, crashed: self.crash.crashed, crashes: self.crash.value }
    }

    /// The description of the process, run by `shell` with `args`, seen at `now`.
    pub fn info(&self, shell: &str, args: &Vec<String>, now: i64) -> (i: Info)
        ensures
            i.id == self.id,
            i.pid == self.pid,
            i.name@ == self.name@,
            i.status@ == status_text(self.running, self.crash.crashed),
            i.path@ == self.path@,
            i.uptime@ == duration_text(now as int, self.started as int),
            i.command@ == command_text(shell@, args@.map_values(|a: String| a@), self.script@),
            i.children@ == self.children@,
    {
        Info {
            id: self.id,
            pid: self.pid,
            name: self.name.clone(),
            status: status_of(self.running, self.crash.crashed),
            path: self.path.clone(),
            uptime: format_elapsed(now, self.started),
            command: command_line(shell, args, self.script.as_str()),
            children: self.children.clone(),
        }
    }
}

/// Every process in the map has a well-formed environment.
pub open spec fn envs_wf(m: Map<usize, Process>) -> bool {
    forall|k: usize| #[trigger] m.contains_key(k) ==> m[k].env.wf()
}

/// The process table of the local daemon, or the mirror of a remote one.
pub struct Runner {
    pub id: Id,
    pub remote: Option<Remote>,
    pub list: OrdMap<usize, Process>,
}

impl Runner {
    /// The processes, by id.
    pub open spec fn processes(&self) -> Map<usize, Process> {
        self.list.map()
    }

    /// The process ids in ascending order.
    pub open spec fn ids(&self) -> Seq<usize> {
        self.list.keys()
    }

    /// The processes in the order of their ids.
    pub open spec fn entries(&self) -> Seq<Process> {
        self.list.values()
    }

    /// The table is ordered and every environment in it is well formed.
    pub open spec fn wf(&self) -> bool {
        &&& self.list.wf()
        &&& envs_wf(self.list.map())
    }

    /// Every process id is below the next id the counter hands out, so a
    /// new process never takes the id of one in the table.
    pub open spec fn ids_below_next(&self) -> bool {
        forall|k: usize| #[trigger] self.processes().contains_key(k) ==> k < self.id.counter
    }

    /// `ids()` is strictly increasing and lists exactly the keys of
    /// `processes()`, whose values `entries()` lists in the same order.
    pub proof fn lemma_table(&self)
        requires
            self.wf(),
        ensures
            self.ids().len() == self.entries().len(),
            forall|i: int, j: int| 0 <= i < j < self.ids().len() ==> self.ids()[i] < self.ids()[j],
            forall|i: int|
                0 <= i < self.ids().len() ==> #[trigger] self.processes().contains_key(self.ids()[i])
                    && self.processes()[self.ids()[i]] == self.entries()[i],
            forall|k: usize| #[trigger]
                self.processes().contains_key(k) ==> exists|i: int|
                    0 <= i < self.ids().len() && self.ids()[i] == k,
            self.processes().dom().finite(),
            self.processes().len() == self.ids().len(),
    {
        self.list.lemma_map();
    }

    /// `next` is this table after the restart of process `id` (see `restart`).
    pub open spec fn restarted(self, next: Runner, id: usize, dead: bool, launch: Option<Launch>) -> bool {
        &&& next.id == self.id
        &&& next.remote == self.remote
        &&& self.remote is Some ==> next.processes() == self.processes()
        &&& self.remote is None ==> {
            let o = self.processes()[id];
            let p = next.processes()[id];
            &&& next.processes().contains_key(id)
            &&& next.processes().remove(id) == self.processes().remove(id)
            &&& p.children@.len() == 0
            &&& status_text(p.running, p.crash.crashed) == if launch is Some { "online"@ } else { "crashed"@ }
            &&& match launch {
                None => p == (Process {
                    running: false,
                    children: p.children,
                    crash: Crash { crashed: true, value: o.crash.value },
                    ..o
                }),
                Some(l) => {
                    &&& p.env.map() == o.env.map().union_prefer_right(l.env.map())
                    &&& p == (Process {
                        pid: l.pid,
                        running: true,
                        children: p.children,
                        started: l.started,
                        env: p.env,
                        restarts: if dead { (o.restarts + 1) as u64 } else { o.restarts },
                        crash: Crash {
                            crashed: false,
                            value: if dead { (o.crash.value + 1) as u64 } else { 0 },
                        },
                        ..o
                    })
                },
            }
        }
    }

    /// `next` is this table after process `id` was restarted because it had
    /// crashed: as a restart after a crash (see `restart`), but the process
    /// stays marked as crashed (a remote table is left as it is).
    pub open spec fn crash_recorded(self, next: Runner, id: usize, launch: Option<Launch>) -> bool {
        &&& next.id == self.id
        &&& next.remote == self.remote
        &&& self.remote is Some ==> next.processes() == self.processes()
        &&& self.remote is None ==> {
            let o = self.processes()[id];
            let p = next.processes()[id];
            &&& next.processes().contains_key(id)
            &&& next.processes().remove(id) == self.processes().remove(id)
            &&& p.children@.len() == 0
            &&& p.crash.crashed
            &&& match launch {
                None => p == (Process {
                    running: false,
                    children: p.children,
                    crash: Crash { crashed: true, value: o.crash.value },
                    ..o
                }),
                Some(l) => {
                    &&& p.env.map() == o.env.map().union_prefer_right(l.env.map())
                    &&& p == (Process {
                        pid: l.pid,
                        running: true,
                        children: p.children,
                        started: l.started,
                        env: p.env,
                        restarts: (o.restarts + 1) as u64,
                        crash: Crash { crashed: true, value: (o.crash.value + 1) as u64 },
                        ..o
                    })
                },
            }
        }
    }

    /// `next` is this table with the variables of `env` added to process `id`.
    pub open spec fn env_extended(self, next: Runner, id: usize, env: Env) -> bool {
        &&& next.id == self.id
        &&& next.remote == self.remote
        &&& next.processes().contains_key(id)
        &&& next.processes().remove(id) == self.processes().remove(id)
        &&& next.processes()[id].env.map() == self.processes()[id].env.map().union_prefer_right(
            env.map(),
        )
        &&& next.processes()[id] == (Process {
            env: next.processes()[id].env,
            ..self.processes()[id]
        })
    }

    /// `next` is this table with the environment of process `id` emptied
    /// (a remote table is left as it is).
    pub open spec fn env_cleared(self, next: Runner, id: usize) -> bool {
        &&& next.id == self.id
        &&& next.remote == self.remote
        &&& self.remote is Some ==> next.processes() == self.processes()
        &&& self.remote is None ==> {
            &&& next.processes().contains_key(id)
            &&& next.processes().remove(id) == self.processes().remove(id)
            &&& next.processes()[id].env.map().is_empty()
            &&& next.processes()[id] == (Process {
                env: next.processes()[id].env,
                ..self.processes()[id]
            })
        }
    }

    /// `next` is this table after process `id` was stopped (a remote table is
    /// left as it is).
    pub open spec fn stopped(self, next: Runner, id: usize) -> bool {
        &&& next.id == self.id
        &&& next.remote == self.remote
        &&& self.remote is Some ==> next.processes() == self.processes()
        &&& self.remote is None ==> {
            let p = next.processes()[id];
            &&& next.processes().contains_key(id)
            &&& next.processes().remove(id) == self.processes().remove(id)
            &&& p.children@.len() == 0
            &&& status_text(p.running, p.crash.crashed) == "stopped"@
            &&& p == (Process {
                running: false,
                crash: Crash { crashed: false, value: 0 },
                children: p.children,
                ..self.processes()[id]
            })
        }
    }

    /// `next` is this table with process `id` renamed to `name` (a remote
    /// table is left as it is).
    pub open spec fn renamed(self, next: Runner, id: usize, name: String) -> bool {
        &&& next.id == self.id
        &&& next.remote == self.remote
        &&& self.remote is Some ==> next.processes() == self.processes()
        &&& self.remote is None ==> next.processes() == self.processes().insert(
            id,
            Process { name: name, ..self.processes()[id] },
        )
    }

    /// `next` is this table with the watch settings of process `id` set.
    pub open spec fn watch_set(self, next: Runner, id: usize, path: Seq<char>, enabled: bool, hash: Seq<char>) -> bool {
        &&& next.id == self.id
        &&& next.remote == self.remote
        &&& next.processes().contains_key(id)
        &&& next.processes().remove(id) == self.processes().remove(id)
        &&& ({
            let p = next.processes()[id];
            &&& p.watch.enabled == enabled
            &&& p.watch.path@ == path
            &&& enabled ==> p.watch.hash@ == hash
            &&& !enabled ==> p.watch.hash@.len() == 0
            &&& p == (Process { watch: p.watch, ..self.processes()[id] })
        })
    }

    /// An empty local table whose next id is 0.
    pub fn new() -> (r: Runner)
        ensures
            r.wf(),
            r.id.counter == 0,
            r.remote is None,
            r.processes() == Map::<usize, Process>::empty(),
            r.ids_below_next(),
    {
        Runner { id: Id::new(0), remote: None, list: OrdMap::new() }
    }

    /// Puts `process` in the table under `id`, replacing any entry there.
    pub fn insert(&mut self, id: usize, process: Process)
        requires
            old(self).wf(),
            process.env.wf(),
        ensures
            final(self).wf(),
            final(self).id == old(self).id,
            final(self).remote == old(self).remote,
            final(self).processes() == old(self).processes().insert(id, process),
    {
        self.list.insert(id, process);
    }

    /// Takes process `id` out of the table.
    fn take(&mut self, id: usize) -> (p: Process)
        requires
            old(self).wf(),
            old(self).processes().contains_key(id),
        ensures
            final(self).list.wf(),
            envs_wf(final(self).list.map()),
            final(self).processes() == old(self).processes().remove(id),
            p == old(self).processes()[id],
            p.env.wf(),
            final(self).id == old(self).id,
            final(self).remote == old(self).remote,
    {
        self.list.remove(&id).unwrap()
    }

    /// Puts process `id` back after a change.
    fn put(&mut self, id: usize, p: Process)
        requires
            old(self).list.wf(),
            envs_wf(old(self).list.map()),
            p.env.wf(),
        ensures
            final(self).wf(),
            final(self).processes() == old(self).processes().insert(id, p),
            final(self).id == old(self).id,
            final(self).remote == old(self).remote,
    {
        self.list.insert(id, p);
    }

    /// Registers a process just started locally under the next id, and
    /// returns that id; a remote table is left as it is (the remote daemon
    /// creates the process).
    pub fn start(
        &mut self,
        name: &String,
        command: &String,
        path: String,
        watch: &Option<String>,
        watch_hash: String,
        launch: Launch,
    ) -> (r: Option<usize>)
        requires
            old(self).wf(),
            launch.env.wf(),
        ensures
            final(self).wf(),
            old(self).ids_below_next() && old(self).id.counter < usize::MAX ==> final(self).ids_below_next(),
            final(self).remote == old(self).remote,
            old(self).remote is Some ==> r is None && final(self).id == old(self).id
                && final(self).processes() == old(self).processes(),
            old(self).remote is None ==> {
                let id = old(self).id.counter;
                let p = final(self).processes()[id];
                &&& r == Some(id)
                &&& old(self).ids_below_next() ==> !old(self).processes().contains_key(id)
                    && final(self).processes() == old(self).processes().insert(id, p)
                &&& final(self).id.counter == succ(id)
                &&& final(self).processes().contains_key(id)
                &&& final(self).processes().remove(id) == old(self).processes().remove(id)
                &&& p.id == id
                &&& p.pid == launch.pid
                &&& p.env == launch.env
                &&& p.name@ == name@
                &&& p.path == path
                &&& p.script@ == command@
                &&& p.restarts == 0
                &&& p.running
                &&& !p.crash.crashed
                &&& p.crash.value == 0
                &&& p.watch.enabled == watch is Some
                &&& (watch matches Some(w) ==> p.watch.path@ == w@ && p.watch.hash == watch_hash)
                &&& (watch is None ==> p.watch.path@.len() == 0 && p.watch.hash@.len() == 0)
                &&& p.children@.len() == 0
                &&& p.started == launch.started
            },
    {
        if self.remote.is_some() {
            return None;
        }
        let id = self.id.next();
        let process = Process {
            id,
            pid: launch.pid,
            env: launch.env,
            name: name.clone(),
            path,
            script: command.clone(),
            restarts: 0,
            running: true,
            crash: Crash { crashed: false, value: 0 },
            watch: Watch::from_option(watch, watch_hash),
            children: Vec::new(),
            started: launch.started,
        };
        self.list.insert(id, process);
        proof {
            assert(self.processes().remove(id) =~= old(self).processes().remove(id));
        }
        Some(id)
    }

    /// Records a restart of process `id` on the local table: `launch` is what
    /// the new start produced, or `None` when its working directory could not
    /// be entered. A restart after a crash (`dead`) counts a restart and a
    /// crash; a requested one clears the crash count. A remote table is left
    /// as it is.
    pub fn restart(&mut self, id: usize, dead: bool, launch: Option<Launch>)
        requires
            old(self).wf(),
            old(self).remote is None ==> old(self).processes().contains_key(id),
            old(self).remote is None && dead && launch is Some ==> old(self).processes()[id].restarts
                < u64::MAX && old(self).processes()[id].crash.value < u64::MAX,
            launch matches Some(l) ==> l.env.wf(),
        ensures
            final(self).wf(),
            old(self).ids_below_next() ==> final(self).ids_below_next(),
            old(self).restarted(*final(self), id, dead, launch),
    {
        if self.remote.is_some() {
            return;
        }
        let mut p = self.take(id);
        match launch {
            None => {
                p.running = false;
                p.children = Vec::new();
                p.crash.crashed = true;
            },
            Some(l) => {
                p.pid = l.pid;
                p.running = true;
                p.children = Vec::new();
                p.started = l.started;
                p.crash.crashed = false;
                p.env.extend(l.env);
                if dead {
                    p.restarts = p.restarts + 1;
                    p.crash.value = p.crash.value + 1;
                } else {
                    p.crash.value = 0;
                }
            },
        }
        self.put(id, p);
        proof {
            assert(self.processes().remove(id) =~= old(self).processes().remove(id));
        }
    }

    /// Removes process `id` from the local table and returns it; a remote
    /// table is left as it is.
    pub fn remove(&mut self, id: usize) -> (r: Option<Process>)
        requires
            old(self).wf(),
            old(self).remote is None ==> old(self).processes().contains_key(id),
        ensures
            final(self).wf(),
            old(self).ids_below_next() ==> final(self).ids_below_next(),
            final(self).id == old(self).id,
            final(self).remote == old(self).remote,
            old(self).remote is Some ==> r is None && final(self).processes() == old(self).processes(),
            old(self).remote is None ==> r == Some(old(self).processes()[id])
                && final(self).processes() == old(self).processes().remove(id),
    {
        if self.remote.is_some() {
            return None;
        }
        let p = self.take(id);
        Some(p)
    }

    /// Sets the id counter so that the next id handed out is the one after `id`.
    pub fn set_id(&mut self, id: Id)
        ensures
            final(self).id.counter == succ(id.counter),
            final(self).remote == old(self).remote,
            final(self).list == old(self).list,
    {
        self.id = id;
        self.id.next();
    }

    /// Marks process `id` as running or not.
    pub fn set_status(&mut self, id: usize, status: Status)
        requires
            old(self).wf(),
            old(self).processes().contains_key(id),
        ensures
            final(self).wf(),
            old(self).ids_below_next() ==> final(self).ids_below_next(),
            final(self).id == old(self).id,
            final(self).remote == old(self).remote,
            final(self).processes() == old(self).processes().insert(
                id,
                Process { running: status is Running, ..old(self).processes()[id] },
            ),
    {
        let mut p = self.take(id);
        p.running = status.to_bool();
        self.put(id, p);
    }

    /// The table, in id order.
    pub fn items(&self) -> (m: &OrdMap<usize, Process>)
        ensures
            m.map() == self.processes(),
            m.keys() == self.ids(),
            m.values() == self.entries(),
            self.wf() ==> m.wf(),
    {
        &self.list
    }

    /// The number of processes.
    pub fn count(&self) -> (n: usize)
        requires
            self.wf(),
        ensures
            n == self.processes().len(),
    {
        self.list.len()
    }

    /// Whether the table is empty.
    pub fn is_empty(&self) -> (b: bool)
        requires
            self.wf(),
        ensures
            b == self.processes().is_empty(),
    {
        self.list.is_empty()
    }

    /// Whether process `id` exists.
    pub fn exists_id(&self, id: usize) -> (b: bool)
        requires
            self.wf(),
        ensures
            b == self.processes().contains_key(id),
    {
        self.list.contains_key(&id)
    }

    /// Process `id`, if it exists.
    pub fn info(&self, id: usize) -> (r: Option<&Process>)
        requires
            self.wf(),
        ensures
            r is Some <==> self.processes().contains_key(id),
            r matches Some(p) ==> *p == self.processes()[id],
    {
        self.list.get(&id)
    }

    /// Process `id`, which must exist.
    pub fn try_info(&self, id: usize) -> (p: &Process)
        requires
            self.wf(),
            self.processes().contains_key(id),
        ensures
            *p == self.processes()[id],
    {
        self.list.get(&id).unwrap()
    }

    /// The largest process id, if any.
    pub fn size(&self) -> (r: Option<usize>)
        requires
            self.wf(),
        ensures
            r is None <==> self.processes().is_empty(),
            r matches Some(k) ==> self.processes().contains_key(k) && forall|j: usize|
                #[trigger] self.processes().contains_key(j) ==> j <= k,
    {
        proof {
            self.lemma_table();
        }
        let n = self.list.len();
        if n == 0 {
            assert(self.processes().is_empty()) by {
                assert forall|k: usize| !self.processes().contains_key(k) by {}
            }
            None
        } else {
            let k = *self.list.key_at(n - 1);
            proof {
                assert(self.processes().contains_key(self.ids()[n - 1]));
                assert forall|j: usize| #[trigger] self.processes().contains_key(j) implies j <= k by {
                    let i = choose|i: int| 0 <= i < self.ids().len() && self.ids()[i] == j;
                    if i < n - 1 {
                        assert(self.ids()[i] < self.ids()[n - 1]);
                    }
                }
            }
            Some(k)
        }
    }

    /// The pid of process `id`, which must exist.
    pub fn pid(&self, id: usize) -> (r: i64)
        requires
            self.wf(),
            self.processes().contains_key(id),
        ensures
            r == self.processes()[id].pid,
    {
        self.list.get(&id).unwrap().pid
    }

    /// Wraps the table with process `id` for per-process actions.
    pub fn get(self, id: usize) -> (w: ProcessWrapper)
        ensures
            w.id == id,
            w.runner == self,
    {
        ProcessWrapper { id, runner: self }
    }

    /// Marks process `id` as crashed.
    pub fn set_crashed(&mut self, id: usize)
        requires
            old(self).wf(),
            old(self).processes().contains_key(id),
        ensures
            final(self).wf(),
            old(self).ids_below_next() ==> final(self).ids_below_next(),
            final(self).id == old(self).id,
            final(self).remote == old(self).remote,
            final(self).processes() == old(self).processes().insert(
                id,
                Process {
                    crash: Crash { crashed: true, value: old(self).processes()[id].crash.value },
                    ..old(self).processes()[id]
                },
            ),
    {
        let mut p = self.take(id);
        p.crash.crashed = true;
        self.put(id, p);
    }

    /// Adds the variables of `env` to those of process `id`, replacing
    /// values of names it already has.
    pub fn set_env(&mut self, id: usize, env: Env)
        requires
            old(self).wf(),
            old(self).processes().contains_key(id),
            env.wf(),
        ensures
            final(self).wf(),
            old(self).ids_below_next() ==> final(self).ids_below_next(),
            old(self).env_extended(*final(self), id, env),
    {
        let mut p = self.take(id);
        p.env.extend(env);
        self.put(id, p);
        proof {
            assert(self.processes().remove(id) =~= old(self).processes().remove(id));
        }
    }

    /// Empties the environment of process `id` in the local table; a remote
    /// table is left as it is.
    pub fn clear_env(&mut self, id: usize)
        requires
            old(self).wf(),
            old(self).remote is None ==> old(self).processes().contains_key(id),
        ensures
            final(self).wf(),
            old(self).ids_below_next() ==> final(self).ids_below_next(),
            old(self).env_cleared(*final(self), id),
    {
        if self.remote.is_some() {
            return;
        }
        let mut p = self.take(id);
        p.env.clear();
        self.put(id, p);
        proof {
            assert(self.processes().remove(id) =~= old(self).processes().remove(id));
        }
    }

    /// Records the child processes of process `id`.
    pub fn set_children(&mut self, id: usize, children: Vec<i64>)
        requires
            old(self).wf(),
            old(self).processes().contains_key(id),
        ensures
            final(self).wf(),
            old(self).ids_below_next() ==> final(self).ids_below_next(),
            final(self).id == old(self).id,
            final(self).remote == old(self).remote,
            final(self).processes() == old(self).processes().insert(
                id,
                Process { children: children, ..old(self).processes()[id] },
            ),
    {
        let mut p = self.take(id);
        p.children = children;
        self.put(id, p);
    }

    /// Counts one more crash of process `id`.
    pub fn new_crash(&mut self, id: usize)
        requires
            old(self).wf(),
            old(self).processes().contains_key(id),
            old(self).processes()[id].crash.value < u64::MAX,
        ensures
            final(self).wf(),
            old(self).ids_below_next() ==> final(self).ids_below_next(),
            final(self).id == old(self).id,
            final(self).remote == old(self).remote,
            final(self).processes() == old(self).processes().insert(
                id,
                Process {
                    crash: Crash {
                        crashed: old(self).processes()[id].crash.crashed,
                        value: (old(self).processes()[id].crash.value + 1) as u64,
                    },
                    ..old(self).processes()[id]
                },
            ),
    {
        let mut p = self.take(id);
        p.crash.value = p.crash.value + 1;
        self.put(id, p);
    }

    /// Records that process `id` was stopped: not running, no crash, no
    /// children. A remote table is left as it is.
    pub fn stop(&mut self, id: usize)
        requires
            old(self).wf(),
            old(self).remote is None ==> old(self).processes().contains_key(id),
        ensures
            final(self).wf(),
            old(self).ids_below_next() ==> final(self).ids_below_next(),
            old(self).stopped(*final(self), id),
    {
        if self.remote.is_some() {
            return;
        }
        let mut p = self.take(id);
        p.running = false;
        p.crash.crashed = false;
        p.crash.value = 0;
        p.children = Vec::new();
        self.put(id, p);
        proof {
            assert(self.processes().remove(id) =~= old(self).processes().remove(id));
        }
    }

    /// Renames process `id` in the local table; a remote table is left as it is.
    pub fn rename(&mut self, id: usize, name: String)
        requires
            old(self).wf(),
            old(self).remote is None ==> old(self).processes().contains_key(id),
        ensures
            final(self).wf(),
            old(self).ids_below_next() ==> final(self).ids_below_next(),
            old(self).renamed(*final(self), id, name),
    {
        if self.remote.is_some() {
            return;
        }
        let ghost renamed = Process { name: name, ..old(self).processes()[id] };
        let mut p = self.take(id);
        p.name = name;
        self.put(id, p);
        assert(self.processes() =~= old(self).processes().insert(id, renamed));
    }

    /// Sets the watched path of process `id`; `hash` is the content hash of
    /// that path, kept only while watching is enabled.
    pub fn watch(&mut self, id: usize, path: &str, enabled: bool, hash: String)
        requires
            old(self).wf(),
            old(self).processes().contains_key(id),
        ensures
            final(self).wf(),
            old(self).ids_below_next() ==> final(self).ids_below_next(),
            old(self).watch_set(*final(self), id, path@, enabled, hash@),
    {
        let mut p = self.take(id);
        let h = if enabled {
            hash
        } else {
            String::new()
        };
        p.watch = Watch { enabled, path: String::from_str(path), hash: h };
        self.put(id, p);
        proof {
            assert(self.processes().remove(id) =~= old(self).processes().remove(id));
        }
    }

    /// The smallest id of a process named `name`, if any.
    pub fn find(&self, name: &str) -> (r: Option<usize>)
        requires
            self.wf(),
        ensures
            r matches Some(k) ==> self.processes().contains_key(k) && self.processes()[k].name@
                == name@ && forall|j: usize|
                #![trigger self.processes().contains_key(j)]
                self.processes().contains_key(j) && j < k ==> self.processes()[j].name@ != name@,
            r is None ==> forall|j: usize| #[trigger]
                self.processes().contains_key(j) ==> self.processes()[j].name@ != name@,
    {
        proof {
            self.lemma_table();
        }
        let n = self.list.len();
        let mut i: usize = 0;
        while i < n
            invariant
                self.wf(),
                n == self.ids().len(),
                i <= n,
                forall|j: int| 0 <= j < i ==> (#[trigger] self.entries()[j]).name@ != name@,
            decreases n - i,
        {
            let p = self.list.value_at(i);
            if crate::text::str_eq(p.name.as_str(), name) {
                let k = *self.list.key_at(i);
                proof {
                    self.lemma_table();
                    assert forall|j: usize|
                        #![trigger self.processes().contains_key(j)]
                        self.processes().contains_key(j) && j < k implies self.processes()[j].name@
                        != name@ by {
                        let t = choose|t: int| 0 <= t < self.ids().len() && self.ids()[t] == j;
                        if t >= i {
                            if t > i {
                                assert(self.ids()[i as int] < self.ids()[t]);
                            }
                        }
                    }
                }
                return Some(k);
            }
            i += 1;
        }
        proof {
            self.lemma_table();
            assert forall|j: usize| #[trigger] self.processes().contains_key(j) implies self.processes()[j].name@
                != name@ by {
                let t = choose|t: int| 0 <= t < self.ids().len() && self.ids()[t] == j;
            }
        }
        None
    }

    /// The ids of the processes marked running, in ascending order.
    pub fn running_ids(&self) -> (r: Vec<usize>)
        requires
            self.wf(),
        ensures
            r@ == self.ids().filter(|k: usize| self.processes()[k].running),
    {
        proof {
            self.lemma_table();
        }
        let ghost pred = |k: usize| self.processes()[k].running;
        let n = self.list.len();
        let mut r: Vec<usize> = Vec::new();
        let mut i: usize = 0;
        while i < n
            invariant
                self.wf(),
                n == self.ids().len(),
                i <= n,
                pred == (|k: usize| self.processes()[k].running),
                r@ == self.ids().take(i as int).filter(pred),
            decreases n - i,
        {
            let k = *self.list.key_at(i);
            if self.list.value_at(i).running {
                r.push(k);
            }
            proof {
                self.lemma_table();
                let t = self.ids().take(i + 1);
                assert(t.drop_last() =~= self.ids().take(i as int));
                assert(t.last() == k);
                assert(self.ids()[i as int] == k);
                assert(self.processes().contains_key(self.ids()[i as int]));
                assert(self.processes()[k] == self.entries()[i as int]);
                reveal(Seq::filter);
            }
            i += 1;
        }
        assert(self.ids().take(n as int) =~= self.ids());
        r
    }

    /// One listing row per process, in id order; `usage[i]` is the cpu and
    /// memory text measured for the `i`-th process, `now` the current time.
    pub fn fetch(&self, now: i64, usage: &Vec<(String, String)>) -> (rows: Vec<ProcessItem>)
        requires
            self.wf(),
            usage.len() == self.ids().len(),
        ensures
            rows.len() == self.ids().len(),
            forall|i: int|
                0 <= i < rows.len() ==> ({
                    let row = #[trigger] rows@[i];
                    let p = self.entries()[i];
                    &&& row.id == self.ids()[i]
                    &&& row.pid == p.pid
                    &&& row.cpu@ == usage@[i].0@
                    &&& row.mem@ == usage@[i].1@
                    &&& row.name@ == p.name@
                    &&& row.restarts == p.restarts
                    &&& row.status@ == status_text(p.running, p.crash.crashed)
                    &&& row.uptime@ == duration_text(now as int, p.started as int)
                    &&& row.watch_path@ == p.watch.path@
                    &&& row.start_time == p.started
                }),
    {
        proof {
            self.lemma_table();
        }
        let n = self.list.len();
        let mut rows: Vec<ProcessItem> = Vec::new();
        let mut i: usize = 0;
        while i < n
            invariant
                self.wf(),
                n == self.ids().len(),
                n == self.entries().len(),
                usage.len() == n,
                i <= n,
                rows.len() == i,
                forall|j: int|
                    0 <= j < i ==> ({
                        let row = #[trigger] rows@[j];
                        let p = self.entries()[j];
                        &&& row.id == self.ids()[j]
                        &&& row.pid == p.pid
                        &&& row.cpu@ == usage@[j].0@
                        &&& row.mem@ == usage@[j].1@
                        &&& row.name@ == p.name@
                        &&& row.restarts == p.restarts
                        &&& row.status@ == status_text(p.running, p.crash.crashed)
                        &&& row.uptime@ == duration_text(now as int, p.started as int)
                        &&& row.watch_path@ == p.watch.path@
                        &&& row.start_time == p.started
                    }),
            decreases n - i,
        {
            let id = *self.list.key_at(i);
            let p = self.list.value_at(i);
            let row = ProcessItem {
                pid: p.pid,
                id,
                cpu: usage[i].0.clone(),
                mem: usage[i].1.clone(),
                name: p.name.clone(),
                restarts: p.restarts,
                status: status_of(p.running, p.crash.crashed),
                uptime: format_elapsed(now, p.started),
                watch_path: p.watch.path.clone(),
                start_time: p.started,
            };
            rows.push(row);
            i += 1;
        }
        rows
    }

    /// Resets the id counter so that new ids continue after the largest id
    /// in the table (as `pmc daemon reset` does); returns whether the table
    /// had any process.
    pub fn reset(&mut self) -> (b: bool)
        requires
            old(self).wf(),
        ensures
            final(self).wf(),
            (forall|k: usize| #[trigger] old(self).processes().contains_key(k) ==> k < usize::MAX) ==> final(self).ids_below_next(),
            final(self).remote == old(self).remote,
            final(self).processes() == old(self).processes(),
            b == !old(self).processes().is_empty(),
            !b ==> final(self).id == old(self).id,
            b ==> exists|k: usize|
                #![trigger old(self).processes().contains_key(k)]
                old(self).processes().contains_key(k) && final(self).id.counter == succ(k) && forall|
                    j: usize,
                | #[trigger] old(self).processes().contains_key(j) ==> j <= k,
    {
        match self.size() {
            Some(largest) => {
                let text = crate::num::usize_to_string(largest);
                proof {
                    crate::id::lemma_usize_decimal_round_trip(largest);
                }
                let id = Id::from_text(text.as_str());
                self.set_id(id);
                true
            },
            None => false,
        }
    }
}

/// A table together with the process that actions apply to.
pub struct ProcessWrapper {
    pub id: usize,
    pub runner: Runner,
}

impl ProcessWrapper {
    /// Records that the process was stopped.
    pub fn stop(&mut self)
        requires
            old(self).runner.wf(),
            old(self).runner.remote is None ==> old(self).runner.processes().contains_key(
                old(self).id,
            ),
        ensures
            final(self).runner.wf(),
            final(self).id == old(self).id,
            old(self).runner.ids_below_next() ==> final(self).runner.ids_below_next(),
            old(self).runner.stopped(final(self).runner, old(self).id),
    {
        self.runner.stop(self.id);
    }

    /// Records a requested restart (`launch` as for `Runner::restart`).
    pub fn restart(&mut self, launch: Option<Launch>)
        requires
            old(self).runner.wf(),
            old(self).runner.remote is None ==> old(self).runner.processes().contains_key(
                old(self).id,
            ),
            launch matches Some(l) ==> l.env.wf(),
        ensures
            final(self).runner.wf(),
            final(self).id == old(self).id,
            old(self).runner.ids_below_next() ==> final(self).runner.ids_below_next(),
            old(self).runner.restarted(final(self).runner, old(self).id, false, launch),
    {
        self.runner.restart(self.id, false, launch);
    }

    /// Sets the process as crashed: records its restart after a crash
    /// (`launch` as for `Runner::restart`) and leaves it marked as crashed.
    pub fn crashed(&mut self, launch: Option<Launch>)
        requires
            old(self).runner.wf(),
            old(self).runner.remote is None ==> old(self).runner.processes().contains_key(
                old(self).id,
            ),
            old(self).runner.remote is None && launch is Some ==> old(self).runner.processes()[old(self).id].restarts < u64::MAX && old(self).runner.processes()[old(self).id].crash.value < u64::MAX,
            launch matches Some(l) ==> l.env.wf(),
        ensures
            final(self).runner.wf(),
            final(self).id == old(self).id,
            old(self).runner.ids_below_next() ==> final(self).runner.ids_below_next(),
            old(self).runner.crash_recorded(final(self).runner, old(self).id, launch),
    {
        self.runner.restart(self.id, true, launch);
        if self.runner.remote.is_none() {
            let ghost mid = self.runner;
            self.runner.set_crashed(self.id);
            assert(self.runner.processes().remove(self.id) =~= mid.processes().remove(self.id));
        }
    }

    /// Renames the process.
    pub fn rename(&mut self, name: String)
        requires
            old(self).runner.wf(),
            old(self).runner.remote is None ==> old(self).runner.processes().contains_key(
                old(self).id,
            ),
        ensures
            final(self).runner.wf(),
            final(self).id == old(self).id,
            old(self).runner.ids_below_next() ==> final(self).runner.ids_below_next(),
            old(self).runner.renamed(final(self).runner, old(self).id, name),
    {
        self.runner.rename(self.id, name);
    }

    /// Starts watching `path`, whose content hash is `hash`.
    pub fn watch(&mut self, path: &str, hash: String)
        requires
            old(self).runner.wf(),
            old(self).runner.processes().contains_key(old(self).id),
        ensures
            final(self).runner.wf(),
            final(self).id == old(self).id,
            old(self).runner.ids_below_next() ==> final(self).runner.ids_below_next(),
            old(self).runner.watch_set(final(self).runner, old(self).id, path@, true, hash@),
    {
        self.runner.watch(self.id, path, true, hash);
    }

    /// Stops watching.
    pub fn disable_watch(&mut self)
        requires
            old(self).runner.wf(),
            old(self).runner.processes().contains_key(old(self).id),
        ensures
            final(self).runner.wf(),
            final(self).id == old(self).id,
            old(self).runner.ids_below_next() ==> final(self).runner.ids_below_next(),
            old(self).runner.watch_set(final(self).runner, old(self).id, Seq::empty(), false, Seq::empty()),
    {
        proof {
            reveal_strlit("");
            assert(""@ =~= Seq::<char>::empty());
        }
        self.runner.watch(self.id, "", false, String::new());
    }

    /// The table.
    pub fn get_runner(&self) -> (r: &Runner)
        ensures
            *r == self.runner,
    {
        &self.runner
    }

    /// Adds variables to the process's environment.
    pub fn set_env(&mut self, env: Env)
        requires
            old(self).runner.wf(),
            old(self).runner.processes().contains_key(old(self).id),
            env.wf(),
        ensures
            final(self).runner.wf(),
            final(self).id == old(self).id,
            old(self).runner.ids_below_next() ==> final(self).runner.ids_below_next(),
            old(self).runner.env_extended(final(self).runner, old(self).id, env),
    {
        self.runner.set_env(self.id, env);
    }

    /// Empties the process's environment (local table only).
    pub fn clear_env(&mut self)
        requires
            old(self).runner.wf(),
            old(self).runner.remote is None ==> old(self).runner.processes().contains_key(
                old(self).id,
            ),
        ensures
            final(self).runner.wf(),
            final(self).id == old(self).id,
            old(self).runner.ids_below_next() ==> final(self).runner.ids_below_next(),
            old(self).runner.env_cleared(final(self).runner, old(self).id),
    {
        self.runner.clear_env(self.id);
    }
}

} // verus!
