//! What is read from the operating system's process files: memory use,
//! parent ids, child ids, and the search for all descendants of a process.

use vstd::prelude::*;
use crate::num::{parse_i32, parse_i32_spec, parse_i64, parse_i64_spec, parse_u64, parse_u64_spec, IntErrorKind};
use crate::process::MemoryInfo;
use std::collections::HashSet;
use crate::text::{
    chars_range, lead_count, lemma_lead_count, lemma_trail_count, trail_count, lines, lines_spec, not_char_pred, split_whitespace,
    starts_with, starts_with_spec, to_chars, ws_tokens,
};

verus! {

/// Memory use of a process, in bytes, as read from the system.
#[derive(Debug, Clone, Copy)]
pub struct NativeMemoryInfo {
    /// Resident set size
    pub rss: u64,
    /// Virtual memory size
    pub vms: u64,
}

impl NativeMemoryInfo {
    pub fn rss(&self) -> (r: u64)
        ensures
            r == self.rss,
    {
        self.rss
    }

    pub fn vms(&self) -> (r: u64)
        ensures
            r == self.vms,
    {
        self.vms
    }
}

impl From<NativeMemoryInfo> for MemoryInfo {
    fn from(native: NativeMemoryInfo) -> (m: MemoryInfo) {
        MemoryInfo { rss: native.rss(), vms: native.vms() }
    }
}

impl vstd::std_specs::convert::FromSpecImpl<NativeMemoryInfo> for MemoryInfo {
    open spec fn obeys_from_spec() -> bool {
        true
    }

    open spec fn from_spec(native: NativeMemoryInfo) -> MemoryInfo {
        MemoryInfo { rss: native.rss, vms: native.vms }
    }
}

/// The byte count a status line gives: its second word read as kilobytes
/// (0 when that word is not a number), if the line has a second word.
pub open spec fn status_field(line: Seq<char>) -> Option<int> {
    let t = ws_tokens(line);
    if t.len() > 1 {
        Some(
            match parse_u64_spec(t[1]) {
                Ok(v) => v * 1024,
                Err(_) => 0,
            },
        )
    } else {
        None
    }
}

/// The memory figures after reading `lines` from `(rss, vms)`: each
/// `VmRSS:` line sets rss, each `VmSize:` line sets vms.
pub open spec fn status_scan(lines: Seq<Seq<char>>, rss: int, vms: int) -> (int, int)
    decreases lines.len(),
{
    if lines.len() == 0 {
        (rss, vms)
    } else {
        let l = lines[0];
        if starts_with_spec(l, "VmRSS:"@) {
            match status_field(l) {
                Some(x) => status_scan(lines.drop_first(), x, vms),
                None => status_scan(lines.drop_first(), rss, vms),
            }
        } else if starts_with_spec(l, "VmSize:"@) {
            match status_field(l) {
                Some(x) => status_scan(lines.drop_first(), rss, x),
                None => status_scan(lines.drop_first(), rss, vms),
            }
        } else {
            status_scan(lines.drop_first(), rss, vms)
        }
    }
}

/// Every figure a status file gives fits in a `u64`.
pub open spec fn status_fits(content: Seq<char>) -> bool {
    forall|i: int|
        0 <= i < lines_spec(content).len() ==> ((starts_with_spec(#[trigger] lines_spec(content)[i], "VmRSS:"@)
            || starts_with_spec(lines_spec(content)[i], "VmSize:"@)) ==> match status_field(
            lines_spec(content)[i],
        ) {
            Some(x) => x <= u64::MAX,
            None => true,
        })
}

/// The byte count of a status line's second word, if it has one.
fn read_status_field(line: &str) -> (r: Option<u64>)
    requires
        status_field(line@) matches Some(x) ==> x <= u64::MAX,
    ensures
        match status_field(line@) {
            Some(x) => r matches Some(y) && y as int == x,
            None => r is None,
        },
{
    let t = split_whitespace(line);
    assert(t@.map_values(|x: String| x@).len() == t.len());
    if t.len() > 1 {
        assert(t@[1]@ == ws_tokens(line@)[1]);
        match parse_u64(t[1].as_str()) {
            Ok(v) => Some(v * 1024),
            Err(_) => Some(0),
        }
    } else {
        None
    }
}

/// Whether every memory figure of a status file fits in a `u64`.
pub fn memory_status_fits(content: &str) -> (b: bool)
    ensures
        b == status_fits(content@),
{
    let ls = lines(content);
    let ghost lv = ls@.map_values(|x: String| x@);
    let mut i: usize = 0;
    while i < ls.len()
        invariant
            lv == ls@.map_values(|x: String| x@),
            lv == lines_spec(content@),
            i <= ls.len(),
            forall|j: int|
                0 <= j < i ==> ((starts_with_spec(#[trigger] lv[j], "VmRSS:"@) || starts_with_spec(
                    lv[j],
                    "VmSize:"@,
                )) ==> match status_field(lv[j]) {
                    Some(x) => x <= u64::MAX,
                    None => true,
                }),
        decreases ls.len() - i,
    {
        let l = ls[i].as_str();
        assert(lv[i as int] == l@);
        if starts_with(l, "VmRSS:") || starts_with(l, "VmSize:") {
            let t = split_whitespace(l);
            assert(t@.map_values(|x: String| x@).len() == t.len());
            if t.len() > 1 {
                assert(t@[1]@ == ws_tokens(l@)[1]);
                match parse_u64(t[1].as_str()) {
                    Ok(v) => {
                        if v > 18014398509481983u64 {
                            assert(status_field(l@) == Some(v * 1024));
                            return false;
                        }
                    },
                    Err(_) => {},
                }
            }
        }
        i += 1;
    }
    true
}

/// The memory figures of a process status file (`/proc/<pid>/status`).
pub fn parse_memory_status(content: &str) -> (m: NativeMemoryInfo)
    requires
        status_fits(content@),
    ensures
        (m.rss as int, m.vms as int) == status_scan(lines_spec(content@), 0, 0),
{
    let ls = lines(content);
    let ghost lv = ls@.map_values(|x: String| x@);
    let mut rss: u64 = 0;
    let mut vms: u64 = 0;
    let mut i: usize = 0;
    assert(lv.skip(0) =~= lv);
    while i < ls.len()
        invariant
            lv == ls@.map_values(|x: String| x@),
            lv == lines_spec(content@),
            status_fits(content@),
            i <= ls.len(),
            status_scan(lv, 0, 0) == status_scan(lv.skip(i as int), rss as int, vms as int),
        decreases ls.len() - i,
    {
        let l = ls[i].as_str();
        proof {
            assert(lv[i as int] == l@);
            assert(lv.skip(i as int)[0] == l@);
            assert(lv.skip(i as int).drop_first() =~= lv.skip(i + 1));
        }
        let ghost r0 = rss;
        let ghost v0 = vms;
        if starts_with(l, "VmRSS:") {
            if let Some(x) = read_status_field(l) {
                rss = x;
            }
        } else if starts_with(l, "VmSize:") {
            if let Some(x) = read_status_field(l) {
                vms = x;
            }
        }
        assert(status_scan(lv.skip(i as int), r0 as int, v0 as int) == status_scan(
            lv.skip(i + 1),
            rss as int,
            vms as int,
        ));
        i += 1;
    }
    assert(lv.skip(i as int).len() == 0);
    NativeMemoryInfo { rss, vms }
}

/// Why a stat file gave no parent id.
#[derive(PartialEq, Eq, Structural, Clone, Copy, Debug)]
pub enum StatError {
    /// No closing parenthesis, or fewer than two fields after it.
    InvalidFormat,
    /// The parent id field is not an `i32`.
    Parse(IntErrorKind),
}

/// The text after the last `)` of `stat`, `None` when it has none.
pub open spec fn after_command(stat: Seq<char>) -> Option<Seq<char>> {
    let k = trail_count(stat, not_char_pred(')'));
    if k >= stat.len() {
        None
    } else {
        Some(stat.skip(stat.len() - k))
    }
}

/// The parent id that a stat file (`/proc/<pid>/stat`, laid out as
/// `pid (comm) state ppid ...`) gives: the second field after the closing
/// parenthesis of the command name, which may itself hold spaces and
/// parentheses; `None` when that field is 0.
pub open spec fn ppid_spec(stat: Seq<char>) -> Result<Option<i32>, StatError> {
    match after_command(stat) {
        None => Err(StatError::InvalidFormat),
        Some(rest) => {
            let parts = ws_tokens(rest);
            if parts.len() < 2 {
                Err(StatError::InvalidFormat)
            } else {
                match parse_i32_spec(parts[1]) {
                    Err(e) => Err(StatError::Parse(e)),
                    Ok(v) => if v == 0 {
                        Ok(None)
                    } else {
                        Ok(Some(v as i32))
                    },
                }
            }
        },
    }
}

/// Reads the parent id from the contents of a stat file.
pub fn parse_ppid(stat: &str) -> (r: Result<Option<i32>, StatError>)
    ensures
        r == ppid_spec(stat@),
{
    let v = to_chars(stat);
    let mut e: usize = v.len();
    while e > 0 && v[e - 1] != ')'
        invariant
            v@ == stat@,
            e <= v.len(),
            forall|j: int| e <= j < v.len() ==> v@[j] != ')',
        decreases e,
    {
        e -= 1;
    }
    proof {
        lemma_trail_count(stat@, not_char_pred(')'), e as int);
    }
    if e == 0 {
        return Err(StatError::InvalidFormat);
    }
    let rest = chars_range(&v, e, v.len());
    assert(rest@ =~= stat@.skip(e as int));
    let parts = split_whitespace(rest.as_str());
    assert(parts@.map_values(|x: String| x@).len() == parts.len());
    if parts.len() < 2 {
        return Err(StatError::InvalidFormat);
    }
    assert(parts@[1]@ == ws_tokens(rest@)[1]);
    match parse_i32(parts[1].as_str()) {
        Err(e) => Err(StatError::Parse(e)),
        Ok(p) => if p == 0 {
            Ok(None)
        } else {
            Ok(Some(p))
        },
    }
}

/// The start time a stat file gives, in whole seconds: its twenty-second
/// field read as a count of clock ticks at a hundred per second; `None`
/// when there is no such field or it is not a `u64`.
pub open spec fn start_seconds_spec(stat: Seq<char>) -> Option<int> {
    let parts = ws_tokens(stat);
    if parts.len() > 21 {
        match parse_u64_spec(parts[21]) {
            Ok(v) => Some(v / 100),
            Err(_) => None,
        }
    } else {
        None
    }
}

/// Reads the start time, in seconds, from the contents of a stat file.
pub fn parse_start_seconds(stat: &str) -> (r: Option<u64>)
    ensures
        match start_seconds_spec(stat@) {
            Some(v) => r == Some(v as u64),
            None => r is None,
        },
{
    let parts = split_whitespace(stat);
    assert(parts@.map_values(|x: String| x@).len() == parts.len());
    if parts.len() <= 21 {
        return None;
    }
    assert(parts@[21]@ == ws_tokens(stat@)[21]);
    match parse_u64(parts[21].as_str()) {
        Ok(v) => Some(v / 100),
        Err(_) => None,
    }
}

/// The processor time a stat file gives, in clock ticks: its fourteenth and
/// fifteenth fields (user and system time), when it has more than sixteen
/// fields and both are `u64` numbers.
pub open spec fn process_ticks_spec(stat: Seq<char>) -> Option<(int, int)> {
    let parts = ws_tokens(stat);
    if parts.len() > 16 {
        match (parse_u64_spec(parts[13]), parse_u64_spec(parts[14])) {
            (Ok(u), Ok(k)) => Some((u, k)),
            _ => None,
        }
    } else {
        None
    }
}

/// Reads the user and system time of a process from its stat file.
pub fn process_cpu_ticks(stat: &str) -> (r: Option<(u64, u64)>)
    ensures
        match process_ticks_spec(stat@) {
            Some((u, k)) => r == Some((u as u64, k as u64)),
            None => r is None,
        },
{
    let parts = split_whitespace(stat);
    assert(parts@.map_values(|x: String| x@).len() == parts.len());
    if parts.len() <= 16 {
        return None;
    }
    assert(parts@[13]@ == ws_tokens(stat@)[13]);
    assert(parts@[14]@ == ws_tokens(stat@)[14]);
    match (parse_u64(parts[13].as_str()), parse_u64(parts[14].as_str())) {
        (Ok(u), Ok(k)) => Some((u, k)),
        _ => None,
    }
}

/// The sum of the fields `1..=i` of `parts`, each read as a `u64`; `None`
/// when one of them is not one.
pub open spec fn tick_sum(parts: Seq<Seq<char>>, i: int) -> Option<int>
    decreases i,
{
    if i <= 0 {
        Some(0)
    } else {
        match (tick_sum(parts, i - 1), parse_u64_spec(parts[i])) {
            (Some(t), Ok(v)) => Some(t + v),
            _ => None,
        }
    }
}

/// Once a field fails to read, every longer sum fails too.
proof fn lemma_tick_sum_none(parts: Seq<Seq<char>>, i: int, j: int)
    requires
        i <= j,
        tick_sum(parts, i) is None,
    ensures
        tick_sum(parts, j) is None,
    decreases j - i,
{
    if i < j {
        lemma_tick_sum_none(parts, i, j - 1);
    }
}

/// The total processor time of the system in clock ticks, from `/proc/stat`:
/// the sum of the seven counters (user, nice, system, idle, iowait, irq,
/// softirq) on its first line, when that line has them all.
pub open spec fn system_ticks_spec(stat: Seq<char>) -> Option<int> {
    let ls = lines_spec(stat);
    if ls.len() == 0 {
        None
    } else {
        let parts = ws_tokens(ls[0]);
        if parts.len() > 7 {
            tick_sum(parts, 7)
        } else {
            None
        }
    }
}

/// Reads the total processor time of the system from `/proc/stat`.
pub fn system_cpu_ticks(stat: &str) -> (r: Option<u128>)
    ensures
        match system_ticks_spec(stat@) {
            Some(t) => r == Some(t as u128),
            None => r is None,
        },
{
    let ls = lines(stat);
    assert(ls@.map_values(|x: String| x@).len() == ls.len());
    if ls.len() == 0 {
        return None;
    }
    assert(ls@[0]@ == lines_spec(stat@)[0]);
    let parts = split_whitespace(ls[0].as_str());
    let ghost ps = ws_tokens(lines_spec(stat@)[0]);
    assert(parts@.map_values(|x: String| x@).len() == parts.len());
    if parts.len() <= 7 {
        return None;
    }
    let mut total: u128 = 0;
    let mut i: usize = 1;
    while i <= 7
        invariant
            1 <= i <= 8,
            parts.len() > 7,
            parts@.map_values(|x: String| x@) == ps,
            lines_spec(stat@).len() > 0,
            ps == ws_tokens(lines_spec(stat@)[0]),
            tick_sum(ps, i - 1) == Some(total as int),
            total <= (i - 1) * (u64::MAX as int),
        decreases 8 - i,
    {
        assert(parts@[i as int]@ == ps[i as int]);
        match parse_u64(parts[i].as_str()) {
            Ok(v) => {
                total = total + v as u128;
            },
            Err(_) => {
                proof {
                    lemma_tick_sum_none(ps, i as int, 7);
                }
                return None;
            },
        }
        i += 1;
    }
    Some(total)
}

/// The tokens of `tokens` that are `i64` numbers, in order.
pub open spec fn pid_list_spec(tokens: Seq<Seq<char>>) -> Seq<i64>
    decreases tokens.len(),
{
    if tokens.len() == 0 {
        seq![]
    } else {
        let rest = pid_list_spec(tokens.drop_last());
        match parse_i64_spec(tokens.last()) {
            Ok(v) => rest.push(v as i64),
            Err(_) => rest,
        }
    }
}

/// The child ids listed in a children file (`/proc/<pid>/task/<pid>/children`):
/// every whitespace-separated word that is an `i64`.
pub fn parse_children(contents: &str) -> (r: Vec<i64>)
    ensures
        r@ == pid_list_spec(ws_tokens(contents@)),
{
    let toks = split_whitespace(contents);
    let ghost tv = toks@.map_values(|x: String| x@);
    let mut r: Vec<i64> = Vec::new();
    let mut i: usize = 0;
    while i < toks.len()
        invariant
            tv == toks@.map_values(|x: String| x@),
            tv == ws_tokens(contents@),
            i <= toks.len(),
            r@ == pid_list_spec(tv.take(i as int)),
        decreases toks.len() - i,
    {
        assert(tv.take(i + 1).drop_last() =~= tv.take(i as int));
        assert(tv.take(i + 1).last() == toks@[i as int]@);
        match parse_i64(toks[i].as_str()) {
            Ok(v) => r.push(v),
            Err(_) => {},
        }
        i += 1;
    }
    assert(tv.take(toks.len() as int) =~= tv);
    r
}

/// The first word of a children file, when it is an `i64`.
pub open spec fn first_child_spec(contents: Seq<char>) -> Option<i64> {
    let t = ws_tokens(contents);
    if t.len() > 0 {
        match parse_i64_spec(t[0]) {
            Ok(v) => Some(v as i64),
            Err(_) => None,
        }
    } else {
        None
    }
}

/// The first word of a children file, when it is an `i64`.
pub fn first_child(contents: &str) -> (r: Option<i64>)
    ensures
        r == first_child_spec(contents@),
{
    let toks = split_whitespace(contents);
    assert(toks@.map_values(|x: String| x@).len() == toks.len());
    if toks.len() > 0 {
        assert(toks@[0]@ == ws_tokens(contents@)[0]);
        match parse_i64(toks[0].as_str()) {
            Ok(v) => Some(v),
            Err(_) => None,
        }
    } else {
        None
    }
}

/// The first process in `procs` (pid, parent pid) whose parent is `shell_pid`.
pub open spec fn child_in_spec(procs: Seq<(u32, Option<u32>)>, shell_pid: i64) -> Option<i64>
    decreases procs.len(),
{
    if procs.len() == 0 {
        None
    } else if procs[0].1 matches Some(pp) && pp as int == shell_pid {
        Some(procs[0].0 as i64)
    } else {
        child_in_spec(procs.drop_first(), shell_pid)
    }
}

/// The process that a shell started for a command: the first child listed
/// in the shell's children file, else the first process whose parent is
/// the shell, else the shell itself.
pub open spec fn actual_child_spec(
    shell_pid: i64,
    children_file: Option<Seq<char>>,
    procs: Option<Seq<(u32, Option<u32>)>>,
) -> i64 {
    let from_file = match children_file {
        Some(c) => first_child_spec(c),
        None => None,
    };
    match from_file {
        Some(c) => c,
        None => match procs {
            Some(ps) => match child_in_spec(ps, shell_pid) {
                Some(c) => c,
                None => shell_pid,
            },
            None => shell_pid,
        },
    }
}

/// Picks the process that a shell started for a command, from the shell's
/// children file (if it could be read) and the process list (if it could
/// be read).
pub fn actual_child_pid(shell_pid: i64, children_file: Option<&str>, procs: Option<&Vec<(u32, Option<u32>)>>) -> (r: i64)
    ensures
        r == actual_child_spec(
            shell_pid,
            match children_file {
                Some(c) => Some(c@),
                None => None,
            },
            match procs {
                Some(p) => Some(p@),
                None => None,
            },
        ),
{
    let from_file = match children_file {
        Some(c) => first_child(c),
        None => None,
    };
    if let Some(v) = from_file {
        return v;
    }
    match procs {
        Some(ps) => {
            let mut i: usize = 0;
            assert(ps@.skip(0) =~= ps@);
            while i < ps.len()
                invariant
                    i <= ps.len(),
                    (match children_file {
                        Some(c) => first_child_spec(c@),
                        None => None,
                    }) is None,
                    procs == Some(ps),
                    child_in_spec(ps@, shell_pid) == child_in_spec(ps@.skip(i as int), shell_pid),
                decreases ps.len() - i,
            {
                assert(ps@.skip(i as int).drop_first() =~= ps@.skip(i + 1));
                assert(ps@.skip(i as int)[0] == ps@[i as int]);
                let (pid, ppid) = ps[i];
                if let Some(pp) = ppid {
                    if pp as i64 == shell_pid {
                        assert(child_in_spec(ps@.skip(i as int), shell_pid) == Some(pid as i64));
                        return pid as i64;
                    }
                }
                i += 1;
            }
            shell_pid
        },
        None => shell_pid,
    }
}

/// `s` is a chain of processes from `p` to `q`, each one listed by `c` as a
/// child of the one before it.
pub open spec fn chain(c: spec_fn(i64) -> Seq<i64>, s: Seq<i64>, p: i64, q: i64) -> bool {
    &&& s.len() > 0
    &&& s[0] == p
    &&& s.last() == q
    &&& forall|i: int| #![trigger c(s[i])] 0 <= i < s.len() - 1 ==> c(s[i]).contains(s[i + 1])
}

/// `q` is a descendant of `p` under `c`: the end of a chain of two or more
/// processes from `p`.
pub open spec fn descendant(c: spec_fn(i64) -> Seq<i64>, p: i64, q: i64) -> bool {
    exists|s: Seq<i64>| s.len() > 1 && #[trigger] chain(c, s, p, q)
}

/// The children that `c` lists for the processes of `s`, one list after
/// the other.
pub open spec fn found(c: spec_fn(i64) -> Seq<i64>, s: Seq<i64>) -> Seq<i64>
    decreases s.len(),
{
    if s.len() == 0 {
        seq![]
    } else {
        found(c, s.drop_last()) + c(s.last())
    }
}

/// The children a children file lists; none when it could not be read.
pub open spec fn listed(contents: Option<Seq<char>>) -> Seq<i64> {
    match contents {
        Some(t) => pid_list_spec(ws_tokens(t)),
        None => seq![],
    }
}

/// Every process of `c` has its own children, no process is listed twice,
/// and `root` is nobody's child.
pub open spec fn forest(c: spec_fn(i64) -> Seq<i64>, root: i64) -> bool {
    &&& forall|p: i64, q: i64, x: i64| p != q && #[trigger] c(p).contains(x) ==> !#[trigger] c(q).contains(x)
    &&& forall|p: i64| #[trigger] c(p).no_duplicates()
    &&& forall|p: i64| !#[trigger] c(p).contains(root)
}

/// A chain to `m` followed by a child of `m` is a chain to that child.
pub proof fn lemma_chain_step(c: spec_fn(i64) -> Seq<i64>, s: Seq<i64>, p: i64, m: i64, x: i64)
    requires
        chain(c, s, p, m),
        c(m).contains(x),
    ensures
        chain(c, s.push(x), p, x),
        s.push(x).len() > 1,
{
    let t = s.push(x);
    assert forall|i: int| #![trigger c(t[i])] 0 <= i < t.len() - 1 implies c(t[i]).contains(t[i + 1]) by {
        if i < s.len() - 1 {
            assert(t[i] == s[i] && t[i + 1] == s[i + 1]);
            assert(c(s[i]).contains(s[i + 1]));
        } else {
            assert(t[i] == m && t[i + 1] == x);
        }
    }
}

/// Something is in `a + b` exactly when it is in `a` or in `b`.
pub proof fn lemma_concat_contains(a: Seq<i64>, b: Seq<i64>, x: i64)
    ensures
        (a + b).contains(x) <==> a.contains(x) || b.contains(x),
{
    if a.contains(x) {
        let i = choose|i: int| 0 <= i < a.len() && a[i] == x;
        assert((a + b)[i] == x);
    }
    if b.contains(x) {
        let i = choose|i: int| 0 <= i < b.len() && b[i] == x;
        assert((a + b)[a.len() + i] == x);
    }
    if (a + b).contains(x) {
        let i = choose|i: int| 0 <= i < (a + b).len() && (a + b)[i] == x;
        if i < a.len() {
            assert(a[i] == x);
        } else {
            assert(b[i - a.len()] == x);
        }
    }
}

/// What `found` lists comes from the list of one of the processes.
pub proof fn lemma_found_origin(c: spec_fn(i64) -> Seq<i64>, s: Seq<i64>, x: i64)
    requires
        found(c, s).contains(x),
    ensures
        exists|i: int| 0 <= i < s.len() && #[trigger] c(s[i]).contains(x),
    decreases s.len(),
{
    if s.len() > 0 {
        lemma_concat_contains(found(c, s.drop_last()), c(s.last()), x);
        if found(c, s.drop_last()).contains(x) {
            lemma_found_origin(c, s.drop_last(), x);
            let i = choose|i: int| 0 <= i < s.drop_last().len() && #[trigger] c(s.drop_last()[i]).contains(x);
            assert(s[i] == s.drop_last()[i]);
        } else {
            assert(c(s[s.len() - 1]).contains(x));
        }
    }
}

/// The children of each process of `s` are in what `found` lists.
pub proof fn lemma_found_has(c: spec_fn(i64) -> Seq<i64>, s: Seq<i64>, m: i64, x: i64)
    requires
        s.contains(m),
        c(m).contains(x),
    ensures
        found(c, s).contains(x),
    decreases s.len(),
{
    lemma_concat_contains(found(c, s.drop_last()), c(s.last()), x);
    if s.last() != m {
        let i = choose|i: int| 0 <= i < s.len() && s[i] == m;
        assert(s.drop_last()[i] == m);
        lemma_found_has(c, s.drop_last(), m, x);
    }
}

/// In a forest, the lists of distinct processes make a list without repeats.
pub proof fn lemma_found_no_duplicates(c: spec_fn(i64) -> Seq<i64>, root: i64, s: Seq<i64>)
    requires
        forest(c, root),
        s.no_duplicates(),
    ensures
        found(c, s).no_duplicates(),
    decreases s.len(),
{
    if s.len() > 0 {
        let a = found(c, s.drop_last());
        let b = c(s.last());
        assert(s.drop_last().no_duplicates()) by {
            assert forall|i: int, j: int| 0 <= i < j < s.drop_last().len() implies s.drop_last()[i]
                != s.drop_last()[j] by {
                assert(s[i] == s.drop_last()[i] && s[j] == s.drop_last()[j]);
            }
        }
        lemma_found_no_duplicates(c, root, s.drop_last());
        assert forall|i: int, j: int| 0 <= i < j < (a + b).len() implies (a + b)[i] != (a + b)[j] by {
            if i < a.len() && j >= a.len() {
                let x = a[i];
                assert(a.contains(x));
                lemma_found_origin(c, s.drop_last(), x);
                let k = choose|k: int| 0 <= k < s.drop_last().len() && #[trigger] c(s.drop_last()[k]).contains(x);
                assert(s[k] == s.drop_last()[k]);
                assert(s[k] != s[s.len() - 1]);
                assert(!c(s[s.len() - 1]).contains(x));
                assert((a + b)[i] == x);
                if (a + b)[j] == x {
                    assert(b[j - a.len()] == x);
                    assert(b.contains(x));
                }
            } else if j < a.len() {
                assert((a + b)[i] == a[i] && (a + b)[j] == a[j]);
                assert(a.no_duplicates());
            } else {
                assert((a + b)[i] == b[i - a.len()] && (a + b)[j] == b[j - a.len()]);
                assert(c(s.last()).no_duplicates());
            }
        }
    }
}

/// The search for all descendants of a process, driven by the caller:
/// `next` gives the next process whose children to read, `record` takes
/// what was read.
pub struct ChildScan {
    pub children: Vec<i64>,
    pub to_check: Vec<i64>,
    pub checked: HashSet<i64>,
    /// The processes checked, in the order they were checked.
    pub order: Ghost<Seq<i64>>,
}

impl ChildScan {
    /// What a search from `parent` keeps true while the children files read
    /// so far are those that `c` lists, with the children of `pending` (the
    /// process `next` gave last) still to be recorded:
    /// - the processes checked are those of `order`, which holds none twice
    ///   and ends with `pending`;
    /// - the children found are the lists of the checked processes whose
    ///   file was recorded, in the order they were checked;
    /// - every process still to check or checked is `parent` or a child
    ///   found, and each of those is still to check or checked;
    /// - every child found is a descendant of `parent`.
    pub open spec fn scanning(self, parent: i64, c: spec_fn(i64) -> Seq<i64>, pending: Option<i64>) -> bool {
        let recorded = match pending {
            None => self.order@,
            Some(_) => self.order@.drop_last(),
        };
        &&& self.checked@ == self.order@.to_set()
        &&& self.order@.no_duplicates()
        &&& (pending matches Some(p) ==> self.order@.len() > 0 && self.order@.last() == p)
        &&& self.children@ == found(c, recorded)
        &&& forall|x: i64| #[trigger] self.to_check@.contains(x) ==> x == parent || self.children@.contains(x)
        &&& forall|x: i64| #[trigger] self.order@.contains(x) ==> x == parent || self.children@.contains(x)
        &&& self.to_check@.contains(parent) || self.order@.contains(parent)
        &&& forall|x: i64| #[trigger] self.children@.contains(x) ==> self.to_check@.contains(x) || self.order@.contains(x)
        &&& forall|x: i64| #[trigger] self.children@.contains(x) ==> descendant(c, parent, x)
    }

    /// A search from `parent`.
    pub fn new(parent: i64) -> (s: ChildScan)
        ensures
            s.children@ == Seq::<i64>::empty(),
            s.to_check@ == seq![parent],
            s.checked@ == Set::<i64>::empty(),
            s.order@ == Seq::<i64>::empty(),
            forall|c: spec_fn(i64) -> Seq<i64>| #[trigger] s.scanning(parent, c, None),
    {
        let mut to_check: Vec<i64> = Vec::new();
        to_check.push(parent);
        let s = ChildScan { children: Vec::new(), to_check, checked: HashSet::new(), order: Ghost(Seq::empty()) };
        assert(s.to_check@[0] == parent);
        assert(s.order@.to_set() =~= Set::<i64>::empty());
        s
    }

    /// Takes the last process still to check that was not checked yet,
    /// marks it checked and returns it; `None` when none is left.
    fn take_unchecked(&mut self) -> (r: Option<i64>)
        ensures
            final(self).children == old(self).children,
            r is None ==> final(self).to_check@.len() == 0 && final(self).checked@ == old(self).checked@
                && final(self).order == old(self).order && forall|i: int|
                0 <= i < old(self).to_check@.len() ==> old(self).checked@.contains(
                    #[trigger] old(self).to_check@[i],
                ),
            r matches Some(p) ==> exists|n: int|
                0 <= n < old(self).to_check@.len() && old(self).to_check@[n] == p
                    && !old(self).checked@.contains(p) && (forall|i: int|
                    n < i < old(self).to_check@.len() ==> old(self).checked@.contains(
                        #[trigger] old(self).to_check@[i],
                    )) && final(self).to_check@ == old(self).to_check@.take(n)
                    && final(self).checked@ == old(self).checked@.insert(p)
                    && final(self).order@ == old(self).order@.push(p),
    {
        broadcast use vstd::std_specs::hash::group_hash_axioms;
        while self.to_check.len() > 0
            invariant
                self.children == old(self).children,
                self.checked@ == old(self).checked@,
                self.order == old(self).order,
                self.to_check@.len() <= old(self).to_check@.len(),
                self.to_check@ == old(self).to_check@.take(self.to_check@.len() as int),
                forall|i: int|
                    self.to_check@.len() <= i < old(self).to_check@.len() ==> old(self).checked@.contains(#[trigger] old(self).to_check@[i]),
            decreases self.to_check.len(),
        {
            let ghost n = (self.to_check@.len() - 1) as int;
            let pid = self.to_check.pop().unwrap();
            assert(pid == old(self).to_check@[n]);
            assert(self.to_check@ =~= old(self).to_check@.take(n));
            if !self.checked.contains(&pid) {
                self.checked.insert(pid);
                proof {
                    self.order@ = self.order@.push(pid);
                }
                return Some(pid);
            }
        }
        None
    }

    /// Appends the children a children file lists to those found and to
    /// those still to check.
    fn append_listed(&mut self, contents: Option<&str>)
        ensures
            final(self).checked == old(self).checked,
            final(self).order == old(self).order,
            match contents {
                Some(c) => final(self).children@ == old(self).children@ + pid_list_spec(ws_tokens(c@))
                    && final(self).to_check@ == old(self).to_check@ + pid_list_spec(ws_tokens(c@)),
                None => final(self).children == old(self).children && final(self).to_check
                    == old(self).to_check,
            },
    {
        if let Some(c) = contents {
            let found = parse_children(c);
            let mut i: usize = 0;
            while i < found.len()
                invariant
                    i <= found.len(),
                    self.checked == old(self).checked,
                    self.order == old(self).order,
                    self.children@ == old(self).children@ + found@.take(i as int),
                    self.to_check@ == old(self).to_check@ + found@.take(i as int),
                decreases found.len() - i,
            {
                self.children.push(found[i]);
                self.to_check.push(found[i]);
                assert(found@.take(i + 1) =~= found@.take(i as int).push(found@[i as int]));
                i += 1;
            }
            assert(found@.take(found.len() as int) =~= found@);
        }
    }

    /// Takes the last process still to check that was not checked yet,
    /// marks it checked and returns it; `None` when none is left. A search
    /// in progress stays in progress, with the process given pending.
    pub fn next(&mut self) -> (r: Option<i64>)
        ensures
            final(self).children == old(self).children,
            r is None ==> final(self).to_check@.len() == 0 && final(self).checked@ == old(self).checked@
                && final(self).order == old(self).order && forall|i: int|
                0 <= i < old(self).to_check@.len() ==> old(self).checked@.contains(
                    #[trigger] old(self).to_check@[i],
                ),
            r matches Some(p) ==> exists|n: int|
                0 <= n < old(self).to_check@.len() && old(self).to_check@[n] == p
                    && !old(self).checked@.contains(p) && (forall|i: int|
                    n < i < old(self).to_check@.len() ==> old(self).checked@.contains(
                        #[trigger] old(self).to_check@[i],
                    )) && final(self).to_check@ == old(self).to_check@.take(n)
                    && final(self).checked@ == old(self).checked@.insert(p)
                    && final(self).order@ == old(self).order@.push(p),
            forall|parent: i64, c: spec_fn(i64) -> Seq<i64>|
                #[trigger] old(self).scanning(parent, c, None) ==> final(self).scanning(parent, c, r),
    {
        let ghost o = *self;
        let r = self.take_unchecked();
        proof {
            assert forall|parent: i64, c: spec_fn(i64) -> Seq<i64>|
                #[trigger] o.scanning(parent, c, None) implies self.scanning(parent, c, r) by {
                self.lemma_next_keeps(o, parent, c, r);
            }
        }
        r
    }

    proof fn lemma_next_keeps(self, o: ChildScan, parent: i64, c: spec_fn(i64) -> Seq<i64>, r: Option<i64>)
        requires
            o.scanning(parent, c, None),
            self.children == o.children,
            r is None ==> self.to_check@.len() == 0 && self.checked@ == o.checked@ && self.order == o.order
                && forall|i: int| 0 <= i < o.to_check@.len() ==> o.checked@.contains(#[trigger] o.to_check@[i]),
            r matches Some(p) ==> exists|n: int|
                0 <= n < o.to_check@.len() && o.to_check@[n] == p && !o.checked@.contains(p) && (forall|i: int|
                    n < i < o.to_check@.len() ==> o.checked@.contains(#[trigger] o.to_check@[i]))
                    && self.to_check@ == o.to_check@.take(n) && self.checked@ == o.checked@.insert(p)
                    && self.order@ == o.order@.push(p),
        ensures
            self.scanning(parent, c, r),
    {
        // Where each process that was still to check has gone.
        assert forall|x: i64| #[trigger] o.to_check@.contains(x) implies self.to_check@.contains(x)
            || self.order@.contains(x) by {
            let i = choose|i: int| 0 <= i < o.to_check@.len() && o.to_check@[i] == x;
            match r {
                None => {
                    assert(o.checked@.contains(o.to_check@[i]));
                },
                Some(p) => {
                    let n = choose|n: int|
                        0 <= n < o.to_check@.len() && o.to_check@[n] == p && !o.checked@.contains(p) && (forall|i: int|
                            n < i < o.to_check@.len() ==> o.checked@.contains(#[trigger] o.to_check@[i]))
                            && self.to_check@ == o.to_check@.take(n) && self.checked@ == o.checked@.insert(p)
                            && self.order@ == o.order@.push(p);
                    if i < n {
                        assert(self.to_check@[i] == x);
                    } else if i == n {
                        assert(self.order@[self.order@.len() - 1] == x);
                    } else {
                        assert(o.checked@.contains(o.to_check@[i]));
                        assert(o.order@.contains(x));
                        let k = choose|k: int| 0 <= k < o.order@.len() && o.order@[k] == x;
                        assert(self.order@[k] == x);
                    }
                },
            }
        }
        match r {
            None => {
                assert forall|x: i64| #[trigger] self.to_check@.contains(x) implies x == parent
                    || self.children@.contains(x) by {}
            },
            Some(p) => {
                let n = choose|n: int|
                    0 <= n < o.to_check@.len() && o.to_check@[n] == p && !o.checked@.contains(p) && (forall|i: int|
                        n < i < o.to_check@.len() ==> o.checked@.contains(#[trigger] o.to_check@[i]))
                        && self.to_check@ == o.to_check@.take(n) && self.checked@ == o.checked@.insert(p)
                        && self.order@ == o.order@.push(p);
                assert(o.to_check@.contains(p));
                assert(!o.order@.contains(p));
                assert(self.order@.drop_last() =~= o.order@);
                assert(self.checked@ =~= self.order@.to_set()) by {
                    assert forall|x: i64| self.order@.contains(x) <==> o.order@.contains(x) || x == p by {
                        if self.order@.contains(x) {
                            let k = choose|k: int| 0 <= k < self.order@.len() && self.order@[k] == x;
                            if k < o.order@.len() {
                                assert(o.order@[k] == x);
                            }
                        }
                        if o.order@.contains(x) {
                            let k = choose|k: int| 0 <= k < o.order@.len() && o.order@[k] == x;
                            assert(self.order@[k] == x);
                        }
                        if x == p {
                            assert(self.order@[self.order@.len() - 1] == x);
                        }
                    }
                }
                assert(self.order@.no_duplicates()) by {
                    assert forall|i: int, j: int| 0 <= i < j < self.order@.len() implies self.order@[i]
                        != self.order@[j] by {
                        if j == self.order@.len() - 1 {
                            assert(o.order@[i] == self.order@[i]);
                        } else {
                            assert(o.order@[i] == self.order@[i] && o.order@[j] == self.order@[j]);
                        }
                    }
                }
                assert forall|x: i64| #[trigger] self.to_check@.contains(x) implies x == parent
                    || self.children@.contains(x) by {
                    let i = choose|i: int| 0 <= i < self.to_check@.len() && self.to_check@[i] == x;
                    assert(o.to_check@.take(n)[i] == o.to_check@[i]);
                    assert(o.to_check@.contains(x));
                }
                assert forall|x: i64| #[trigger] self.order@.contains(x) implies x == parent
                    || self.children@.contains(x) by {
                    let i = choose|i: int| 0 <= i < self.order@.len() && self.order@[i] == x;
                    if i < o.order@.len() {
                        assert(o.order@[i] == x);
                        assert(o.order@.contains(x));
                    } else {
                        assert(x == p);
                    }
                }
            },
        }
        assert(o.to_check@.contains(parent) || o.order@.contains(parent));
        if o.order@.contains(parent) {
            let k = choose|k: int| 0 <= k < o.order@.len() && o.order@[k] == parent;
            assert(self.order@[k] == parent);
        }
        assert forall|x: i64| #[trigger] self.children@.contains(x) implies self.to_check@.contains(x)
            || self.order@.contains(x) by {
            assert(o.children@.contains(x));
            if o.order@.contains(x) {
                let k = choose|k: int| 0 <= k < o.order@.len() && o.order@[k] == x;
                assert(self.order@[k] == x);
            }
        }
    }

    /// Records the children file of the process `next` gave last (`None`
    /// when it could not be read): each child it lists is found and is to be
    /// checked in turn. When the file lists what `c` gives for that process,
    /// the search stays in progress with nothing pending.
    pub fn record(&mut self, contents: Option<&str>)
        ensures
            final(self).checked == old(self).checked,
            final(self).order == old(self).order,
            match contents {
                Some(c) => final(self).children@ == old(self).children@ + pid_list_spec(ws_tokens(c@))
                    && final(self).to_check@ == old(self).to_check@ + pid_list_spec(ws_tokens(c@)),
                None => final(self).children == old(self).children && final(self).to_check
                    == old(self).to_check,
            },
            forall|parent: i64, c: spec_fn(i64) -> Seq<i64>, p: i64|
                #[trigger] old(self).scanning(parent, c, Some(p)) && c(p) == listed(
                    match contents {
                        Some(t) => Some(t@),
                        None => None,
                    },
                ) ==> final(self).scanning(parent, c, None),
    {
        let ghost o = *self;
        self.append_listed(contents);
        let ghost l = listed(
            match contents {
                Some(t) => Some(t@),
                None => None,
            },
        );
        proof {
            assert(self.children@ == o.children@ + l && self.to_check@ == o.to_check@ + l) by {
                if contents is None {
                    assert(o.children@ + l =~= o.children@);
                    assert(o.to_check@ + l =~= o.to_check@);
                }
            }
            assert forall|parent: i64, c: spec_fn(i64) -> Seq<i64>, p: i64|
                #[trigger] o.scanning(parent, c, Some(p)) && c(p) == l implies self.scanning(parent, c, None) by {
                self.lemma_record_keeps(o, parent, c, p, l);
            }
        }
    }

    proof fn lemma_record_keeps(self, o: ChildScan, parent: i64, c: spec_fn(i64) -> Seq<i64>, p: i64, l: Seq<i64>)
        requires
            o.scanning(parent, c, Some(p)),
            c(p) == l,
            self.checked == o.checked,
            self.order == o.order,
            self.children@ == o.children@ + l,
            self.to_check@ == o.to_check@ + l,
        ensures
            self.scanning(parent, c, None),
    {
        let s = self.order@;
        assert(s.drop_last().push(s.last()) =~= s);
        assert(found(c, s) == found(c, s.drop_last()) + c(s.last()));
        assert forall|x: i64| #[trigger] self.to_check@.contains(x) implies x == parent
            || self.children@.contains(x) by {
            lemma_concat_contains(o.to_check@, l, x);
            lemma_concat_contains(o.children@, l, x);
        }
        assert forall|x: i64| #[trigger] self.order@.contains(x) implies x == parent
            || self.children@.contains(x) by {
            assert(o.order@.contains(x));
            lemma_concat_contains(o.children@, l, x);
        }
        lemma_concat_contains(o.to_check@, l, parent);
        assert forall|x: i64| #[trigger] self.children@.contains(x) implies self.to_check@.contains(x)
            || self.order@.contains(x) by {
            lemma_concat_contains(o.children@, l, x);
            lemma_concat_contains(o.to_check@, l, x);
        }
        // `p` is `parent` or a descendant, so what it lists are descendants.
        assert(o.order@.contains(p)) by {
            assert(o.order@[o.order@.len() - 1] == p);
        }
        assert forall|x: i64| #[trigger] self.children@.contains(x) implies descendant(c, parent, x) by {
            lemma_concat_contains(o.children@, l, x);
            if !o.children@.contains(x) {
                assert(l.contains(x));
                if p == parent {
                    assert(chain(c, seq![parent], parent, parent));
                    lemma_chain_step(c, seq![parent], parent, parent, x);
                } else {
                    assert(o.children@.contains(p));
                    let t = choose|t: Seq<i64>| t.len() > 1 && #[trigger] chain(c, t, parent, p);
                    lemma_chain_step(c, t, parent, p, x);
                }
            }
        }
    }
}

/// `KEY=VALUE` split at the first `=`; an entry without `=` is a name with
/// an empty value.
pub open spec fn split_var_spec(s: Seq<char>) -> (Seq<char>, Seq<char>) {
    let k = lead_count(s, not_char_pred('='));
    if k >= s.len() {
        (s, Seq::<char>::empty())
    } else {
        (s.take(k as int), s.skip(k as int + 1))
    }
}

/// Splits an environment entry into name and value.
pub fn split_env_var(s: &str) -> (r: (String, String))
    ensures
        (r.0@, r.1@) == split_var_spec(s@),
{
    let v = to_chars(s);
    let mut k: usize = 0;
    while k < v.len() && v[k] != '='
        invariant
            v@ == s@,
            k <= v.len(),
            forall|j: int| 0 <= j < k ==> v@[j] != '=',
        decreases v.len() - k,
    {
        k += 1;
    }
    proof {
        lemma_lead_count(s@, not_char_pred('='), k as int);
    }
    if k == v.len() {
        assert(v@.subrange(0, k as int) =~= s@);
        (chars_range(&v, 0, k), String::new())
    } else {
        assert(v@.subrange(0, k as int) =~= s@.take(k as int));
        assert(v@.subrange(k + 1, v.len() as int) =~= s@.skip(k + 1));
        (chars_range(&v, 0, k), chars_range(&v, k + 1, v.len()))
    }
}

} // verus!
