//! Properties that hold across several operations of the library.

use vstd::prelude::*;
use crate::cli::clean_name_spec;
use crate::daemon::{action_spec, Action};
use crate::id::lemma_usize_decimal_round_trip;
use crate::process::{Launch, Runner};
use crate::num::{decimal, lemma_decimal_scan, parse_i32_spec, parse_u64_spec, parse_usize_spec, signed_decimal, IntErrorKind};
use crate::sys::{chain, descendant, status_scan, forest, found, lemma_found_has, lemma_found_no_duplicates, lemma_found_origin, ChildScan};
use crate::text::{char_pred, is_ws, replace_spec, starts_with_spec, ws_tokens, lemma_lead_count, lemma_trail_count, trail_count, trim_end_char_spec, trim_spec, ws_pred};

verus! {

/// Text that starts and ends with something other than whitespace is left
/// as it is by trimming.
proof fn lemma_trim_unchanged(s: Seq<char>)
    requires
        s.len() > 0,
        !is_ws(s[0]),
        !is_ws(s.last()),
    ensures
        trim_spec(s) == s,
{
    lemma_lead_count(s, ws_pred(), 0);
    let a = s.skip(0);
    assert(a =~= s);
    lemma_trail_count(a, ws_pred(), a.len() as int);
    assert(a.take(a.len() as int) =~= s);
}

/// The trailing run that `trail_count` measures: every character in it
/// satisfies `p`, and the one before it does not.
proof fn lemma_trail_run(s: Seq<char>, p: spec_fn(char) -> bool)
    ensures
        trail_count(s, p) <= s.len(),
        forall|j: int| s.len() - trail_count(s, p) <= j < s.len() ==> p(#[trigger] s[j]),
        trail_count(s, p) < s.len() ==> !p(s[s.len() - trail_count(s, p) - 1]),
    decreases s.len(),
{
    if s.len() > 0 && p(s.last()) {
        let t = s.drop_last();
        lemma_trail_run(t, p);
        assert forall|j: int| s.len() - trail_count(s, p) <= j < s.len() implies p(#[trigger] s[j]) by {
            if j < s.len() - 1 {
                assert(s[j] == t[j]);
            }
        }
        if trail_count(s, p) < s.len() {
            assert(s[s.len() - trail_count(s, p) - 1] == t[t.len() - trail_count(t, p) - 1]);
        }
    }
}

/// Normalising a server address twice gives what normalising it once
/// gives, and a normalised address never ends with `/`.
pub proof fn law_server_address_normal(address: Seq<char>)
    ensures
        trim_end_char_spec(trim_end_char_spec(address, '/'), '/') == trim_end_char_spec(address, '/'),
        trim_end_char_spec(address, '/').len() > 0 ==> trim_end_char_spec(address, '/').last() != '/',
{
    let p = char_pred('/');
    lemma_trail_run(address, p);
    let t = trim_end_char_spec(address, '/');
    let n = trail_count(address, p);
    if t.len() > 0 {
        assert(t.last() == address[address.len() - n - 1]);
    }
    lemma_trail_count(t, p, t.len() as int);
    assert(t.take(t.len() - trail_count(t, p)) =~= t);
}

/// The pid the daemon writes to its pid file is read back from it, for
/// every pid that fits the `i32` the file is read as.
pub proof fn law_pid_file_round_trip(pid: u32)
    requires
        pid <= i32::MAX,
    ensures
        parse_i32_spec(trim_spec(decimal(pid as nat))) == Ok::<int, IntErrorKind>(pid as int),
{
    lemma_decimal_scan(pid as nat, false, i32::MIN as int, i32::MAX as int);
    lemma_trim_unchanged(decimal(pid as nat));
}

/// The text of a pid (its `Display`) reads back as the same pid.
pub proof fn law_pid_text_round_trip(pid: i32)
    ensures
        parse_i32_spec(trim_spec(signed_decimal(pid as int))) == Ok::<int, IntErrorKind>(pid as int),
{
    if pid < 0 {
        let m = (-(pid as int)) as nat;
        lemma_decimal_scan(m, true, i32::MIN as int, i32::MAX as int);
        let s = seq!['-'] + decimal(m);
        assert(s.last() == decimal(m).last());
        lemma_trim_unchanged(s);
        assert(s.drop_first() =~= decimal(m));
    } else {
        lemma_decimal_scan(pid as nat, false, i32::MIN as int, i32::MAX as int);
        lemma_trim_unchanged(decimal(pid as nat));
    }
}

/// The decimal text of an id, as `Id` displays it and as `pmc list` shows
/// it, is read back as that same id: by `Id::parse` and by the command
/// line's `validate`, which then never takes it for a process name.
pub proof fn law_id_text_reads_back(id: usize)
    ensures
        parse_usize_spec(decimal(id as nat)) == Ok::<int, IntErrorKind>(id as int),
{
    lemma_usize_decimal_round_trip(id);
}

/// Along a chain from `parent`, every process is `parent` or a child found,
/// once a search from `parent` has checked everything it found.
proof fn lemma_chain_found(s: ChildScan, parent: i64, c: spec_fn(i64) -> Seq<i64>, t: Seq<i64>, q: i64, i: int)
    requires
        s.scanning(parent, c, None),
        s.to_check@.len() == 0,
        chain(c, t, parent, q),
        0 <= i < t.len(),
    ensures
        i > 0 ==> s.children@.contains(t[i]),
        t[i] == parent || s.children@.contains(t[i]),
    decreases i,
{
    if i > 0 {
        lemma_chain_found(s, parent, c, t, q, i - 1);
        let m = t[i - 1];
        assert(c(t[i - 1]).contains(t[i]));
        assert(!s.to_check@.contains(m));
        assert(s.order@.contains(m));
        lemma_found_has(c, s.order@, m, t[i]);
    }
}

/// A search for the descendants of `parent`, run until `next` gives `None`
/// while each children file read was what `c` lists, has found exactly the
/// descendants of `parent` under `c`.
pub proof fn law_scan_finds_descendants(s: ChildScan, parent: i64, c: spec_fn(i64) -> Seq<i64>)
    requires
        s.scanning(parent, c, None),
        s.to_check@.len() == 0,
    ensures
        forall|q: i64| s.children@.contains(q) <==> descendant(c, parent, q),
{
    assert forall|q: i64| descendant(c, parent, q) implies s.children@.contains(q) by {
        let t = choose|t: Seq<i64>| t.len() > 1 && #[trigger] chain(c, t, parent, q);
        lemma_chain_found(s, parent, c, t, q, t.len() - 1);
    }
}

/// When `c` is a forest rooted at `parent` (each process has at most one
/// parent, lists no child twice, and `parent` is nobody's child), a search
/// from `parent` finds no process twice and never finds `parent` itself.
pub proof fn law_scan_in_forest(s: ChildScan, parent: i64, c: spec_fn(i64) -> Seq<i64>)
    requires
        s.scanning(parent, c, None),
        forest(c, parent),
    ensures
        s.children@.no_duplicates(),
        !s.children@.contains(parent),
{
    lemma_found_no_duplicates(c, parent, s.order@);
    if s.children@.contains(parent) {
        lemma_found_origin(c, s.order@, parent);
    }
}

/// A search never checks more processes than a finite set `r` that holds
/// `parent` and all its descendants. As each `next` that gives a process
/// checks one more, `next` gives at most `r.len()` processes and then `None`:
/// the search ends, even where the children files form cycles.
pub proof fn law_scan_ends(
    s: ChildScan,
    parent: i64,
    c: spec_fn(i64) -> Seq<i64>,
    pending: Option<i64>,
    r: Set<i64>,
)
    requires
        s.scanning(parent, c, pending),
        r.finite(),
        r.contains(parent),
        forall|q: i64| descendant(c, parent, q) ==> r.contains(q),
    ensures
        s.checked@.len() <= r.len(),
{
    let seen = s.order@.to_set();
    assert(seen.subset_of(r)) by {
        assert forall|x: i64| seen.contains(x) implies r.contains(x) by {
            assert(s.order@.contains(x));
        }
    }
    s.order@.unique_seq_to_set();
    vstd::set_lib::lemma_len_subset(seen, r);
}

/// Each method of an action request asks for the action it names, and no
/// other: `start` and `restart` restart the process, `stop` and `kill` stop
/// it, `reset_env` and `clear_env` clear its environment, `remove` and
/// `delete` remove it, `flush` and `clean` empty its logs; any other method
/// asks for nothing.
pub proof fn law_action_methods(m: Seq<char>)
    ensures
        action_spec(m) == Some(Action::Restart) <==> (m == "start"@ || m == "restart"@),
        action_spec(m) == Some(Action::Stop) <==> (m == "stop"@ || m == "kill"@),
        action_spec(m) == Some(Action::ClearEnv) <==> (m == "reset_env"@ || m == "clear_env"@),
        action_spec(m) == Some(Action::Remove) <==> (m == "remove"@ || m == "delete"@),
        action_spec(m) == Some(Action::Flush) <==> (m == "flush"@ || m == "clean"@),
        action_spec(m) is None <==> !(m == "start"@ || m == "restart"@ || m == "stop"@ || m == "kill"@
            || m == "reset_env"@ || m == "clear_env"@ || m == "remove"@ || m == "delete"@ || m
            == "flush"@ || m == "clean"@),
{
    reveal_strlit("start");
    reveal_strlit("restart");
    reveal_strlit("stop");
    reveal_strlit("kill");
    reveal_strlit("reset_env");
    reveal_strlit("clear_env");
    reveal_strlit("remove");
    reveal_strlit("delete");
    reveal_strlit("flush");
    reveal_strlit("clean");
    // The names differ in length, or else in their first letter.
    assert("start"@.len() == 5 && "restart"@.len() == 7 && "stop"@.len() == 4 && "kill"@.len() == 4);
    assert("reset_env"@.len() == 9 && "clear_env"@.len() == 9 && "remove"@.len() == 6 && "delete"@.len() == 6);
    assert("flush"@.len() == 5 && "clean"@.len() == 5);
    assert("start"@[0] == 's' && "flush"@[0] == 'f' && "clean"@[0] == 'c');
}

/// Reading the status lines `lines` and then the line `l` is reading `l`
/// from the figures that `lines` gave.
proof fn lemma_status_scan_push(lines: Seq<Seq<char>>, l: Seq<char>, rss: int, vms: int)
    ensures
        status_scan(lines.push(l), rss, vms) == status_scan(
            seq![l],
            status_scan(lines, rss, vms).0,
            status_scan(lines, rss, vms).1,
        ),
    decreases lines.len(),
{
    if lines.len() > 0 {
        assert(lines.push(l).drop_first() =~= lines.drop_first().push(l));
        assert(lines.push(l)[0] == lines[0]);
        let h = lines[0];
        let (r1, v1) = if starts_with_spec(h, "VmRSS:"@) {
            match crate::sys::status_field(h) {
                Some(x) => (x, vms),
                None => (rss, vms),
            }
        } else if starts_with_spec(h, "VmSize:"@) {
            match crate::sys::status_field(h) {
                Some(x) => (rss, x),
                None => (rss, vms),
            }
        } else {
            (rss, vms)
        };
        lemma_status_scan_push(lines.drop_first(), l, r1, v1);
    } else {
        assert(lines.push(l) =~= seq![l]);
    }
}

/// A status line that starts with neither `VmRSS:` nor `VmSize:` changes
/// neither figure; a `VmRSS:` line whose second word is the number `n` makes
/// the resident size `n` KiB (`1024 * n` bytes) and leaves the virtual size;
/// a `VmSize:` line whose second word is `n` makes the virtual size `1024 * n`
/// bytes and leaves the resident size. So the resident size that a status
/// file gives is read from its last `VmRSS:` line.
pub proof fn law_memory_status_lines(lines: Seq<Seq<char>>, l: Seq<char>, rss: int, vms: int)
    ensures
        !starts_with_spec(l, "VmRSS:"@) && !starts_with_spec(l, "VmSize:"@) ==> status_scan(lines.push(l), rss, vms)
            == status_scan(lines, rss, vms),
        starts_with_spec(l, "VmRSS:"@) && ws_tokens(l).len() > 1 ==> (match parse_u64_spec(ws_tokens(l)[1]) {
            Ok(n) => status_scan(lines.push(l), rss, vms) == (1024 * n, status_scan(lines, rss, vms).1),
            Err(_) => status_scan(lines.push(l), rss, vms) == (0int, status_scan(lines, rss, vms).1),
        }),
        starts_with_spec(l, "VmSize:"@) && ws_tokens(l).len() > 1 ==> (match parse_u64_spec(ws_tokens(l)[1]) {
            Ok(n) => status_scan(lines.push(l), rss, vms) == (status_scan(lines, rss, vms).0, 1024 * n),
            Err(_) => status_scan(lines.push(l), rss, vms) == (status_scan(lines, rss, vms).0, 0int),
        }),
{
    lemma_status_scan_push(lines, l, rss, vms);
    let r = status_scan(lines, rss, vms).0;
    let v = status_scan(lines, rss, vms).1;
    let one = seq![l];
    assert(one.drop_first() =~= Seq::<Seq<char>>::empty());
    assert(one[0] == l);
    reveal_strlit("VmRSS:");
    reveal_strlit("VmSize:");
    let rss_line = starts_with_spec(l, "VmRSS:"@);
    let size_line = starts_with_spec(l, "VmSize:"@);
    if size_line {
        assert("VmSize:"@[2] == 'S' && "VmRSS:"@[2] == 'R');
        assert(l.take(7)[2] == l[2]);
        if rss_line {
            assert(l.take(6)[2] == l[2]);
        }
        assert(!rss_line);
        assert(status_scan(one, r, v) == match crate::sys::status_field(l) {
            Some(x) => status_scan(one.drop_first(), r, x),
            None => status_scan(one.drop_first(), r, v),
        });
    } else if !rss_line {
        assert(status_scan(one, r, v) == status_scan(one.drop_first(), r, v));
    } else {
        assert(status_scan(one, r, v) == match crate::sys::status_field(l) {
            Some(x) => status_scan(one.drop_first(), x, v),
            None => status_scan(one.drop_first(), r, v),
        });
    }
}

/// Adding the variables `env` to process `id` gives each added name its
/// added value, replacing any value it had, and leaves every other name of
/// the process as it was.
pub proof fn law_set_env_values(before: Runner, after: Runner, id: usize, env: crate::process::Env)
    requires
        before.env_extended(after, id, env),
    ensures
        forall|k: Seq<char>| #[trigger] env.map().contains_key(k) ==> after.processes()[id].env.map().contains_key(k)
            && after.processes()[id].env.map()[k] == env.map()[k],
        forall|k: Seq<char>|
            !env.map().contains_key(k) ==> (#[trigger] after.processes()[id].env.map().contains_key(k)
                <==> before.processes()[id].env.map().contains_key(k)),
        forall|k: Seq<char>|
            !env.map().contains_key(k) && before.processes()[id].env.map().contains_key(k) ==> #[trigger] after.processes()[id].env.map()[k]
                == before.processes()[id].env.map()[k],
{
}

/// A restart on request that launches the process leaves its crash count at
/// 0 and its restart count as it was; a restart after a crash that
/// launches it counts one more restart and one more crash (for counts below
/// the largest `u64`, as `restart` requires). Either way the process runs
/// under the new pid.
pub proof fn law_restart_counts(before: Runner, after: Runner, id: usize, dead: bool, launch: Launch)
    requires
        before.restarted(after, id, dead, Some(launch)),
        before.remote is None,
        before.processes().contains_key(id),
        dead ==> before.processes()[id].restarts < u64::MAX && before.processes()[id].crash.value < u64::MAX,
    ensures
        after.processes()[id].running,
        after.processes()[id].pid == launch.pid,
        !dead ==> after.processes()[id].crash.value == 0 && after.processes()[id].restarts
            == before.processes()[id].restarts,
        dead ==> after.processes()[id].crash.value == before.processes()[id].crash.value + 1
            && after.processes()[id].restarts == before.processes()[id].restarts + 1,
{
}

/// Text with no `\n` is left as it is by removing line breaks.
proof fn lemma_no_line_breaks(s: Seq<char>)
    requires
        !s.contains('\n'),
    ensures
        replace_spec(s, seq!['\n'], Seq::<char>::empty()) == s,
    decreases s.len(),
{
    if s.len() > 0 {
        assert(s[0] != '\n');
        assert(s.take(1) != seq!['\n']) by {
            assert(s.take(1)[0] == s[0]);
        }
        assert(!s.drop_first().contains('\n')) by {
            if s.drop_first().contains('\n') {
                let i = choose|i: int| 0 <= i < s.drop_first().len() && s.drop_first()[i] == '\n';
                assert(s[i + 1] == '\n');
            }
        }
        lemma_no_line_breaks(s.drop_first());
        assert(seq![s[0]] + s.drop_first() =~= s);
    }
}

/// Cleaning a new name only trims surrounding whitespace and removes line
/// breaks: a name that starts and ends with something other than whitespace
/// and holds no `\n` (one with inner spaces, say) is kept as it is.
pub proof fn law_clean_name_keeps_clean_names(n: Seq<char>)
    requires
        n.len() > 0 ==> !is_ws(n[0]) && !is_ws(n.last()),
        !n.contains('\n'),
    ensures
        clean_name_spec(n) == n,
{
    if n.len() > 0 {
        lemma_trim_unchanged(n);
    } else {
        lemma_lead_count(n, ws_pred(), 0);
        assert(n.skip(0) =~= n);
        lemma_trail_count(n, ws_pred(), 0);
        assert(trim_spec(n) =~= n);
    }
    lemma_no_line_breaks(n);
}

} // verus!
