//! The debugger's session logic: its state machine, the breakpoint list,
//! the commands sent to GDB, and what is learned from GDB's output. The
//! process itself is driven by the caller, who hands in a `send` function
//! that writes one command to the debugger.

use vstd::prelude::*;
use crate::debugger::{Breakpoint, DebugConfig, DebuggerState, StackFrame, Variable};
use crate::text::{
    chars_of, concat, decimal, decimal_string, parse_u32, parsed_u32,
    split_words, string_from_chars, string_of, words,
};

verus! {

/// `send` was called once with a command whose text is `cmd`, and `r` is
/// what it returned.
pub open spec fn sent<F: FnOnce(String) -> Result<(), String>>(send: F, cmd: Seq<char>, r: Result<(), String>) -> bool {
    exists|c: String| c@ == cmd && send.ensures((c,), r)
}

/// The command that inserts a breakpoint at `file`:`line`.
pub open spec fn break_insert(file: Seq<char>, line: nat) -> Seq<char> {
    "-break-insert "@ + file + ":"@ + decimal(line)
}

/// The breakpoints without those with id `id`.
pub open spec fn without_id(bps: Seq<Breakpoint>, id: u32) -> Seq<Breakpoint>
    decreases bps.len(),
{
    if bps.len() == 0 {
        bps
    } else {
        let prev = without_id(bps.drop_last(), id);
        if bps.last().id == id {
            prev
        } else {
            prev.push(bps.last())
        }
    }
}

/// Breakpoint ids grow in list order and stay below `next`: every
/// breakpoint has its own id, and the next one gets a fresh id.
pub open spec fn ids_ordered(bps: Seq<Breakpoint>, next: u32) -> bool {
    &&& forall|i: int, j: int| 0 <= i < j < bps.len() ==> (#[trigger] bps[i]).id < (#[trigger] bps[j]).id
    &&& forall|i: int| 0 <= i < bps.len() ==> (#[trigger] bps[i]).id < next
}

proof fn lemma_without_id_within(bps: Seq<Breakpoint>, id: u32)
    ensures
        forall|x: Breakpoint| #[trigger] without_id(bps, id).contains(x) ==> bps.contains(x) && x.id != id,
    decreases bps.len(),
{
    if bps.len() > 0 {
        let d = bps.drop_last();
        lemma_without_id_within(d, id);
        let prev = without_id(d, id);
        assert forall|x: Breakpoint| #[trigger] without_id(bps, id).contains(x) implies bps.contains(x) && x.id != id by {
            if prev.contains(x) {
                let m = choose|m: int| 0 <= m < d.len() && d[m] == x;
                assert(bps[m] == x);
            } else {
                assert(bps[bps.len() - 1] == x);
            }
        }
    }
}

/// Removing breakpoints keeps the ids ordered and below `next`.
pub proof fn lemma_without_id_ordered(bps: Seq<Breakpoint>, id: u32, next: u32)
    requires
        ids_ordered(bps, next),
    ensures
        ids_ordered(without_id(bps, id), next),
    decreases bps.len(),
{
    if bps.len() > 0 {
        let d = bps.drop_last();
        assert(ids_ordered(d, next)) by {
            assert forall|i: int, j: int| 0 <= i < j < d.len() implies (#[trigger] d[i]).id < (#[trigger] d[j]).id by {
                assert(bps[i] == d[i] && bps[j] == d[j]);
            }
            assert forall|i: int| 0 <= i < d.len() implies (#[trigger] d[i]).id < next by {
                assert(bps[i] == d[i]);
            }
        }
        lemma_without_id_ordered(d, id, next);
        lemma_without_id_within(d, id);
        let prev = without_id(d, id);
        if bps.last().id != id {
            let r = without_id(bps, id);
            assert forall|i: int, j: int| 0 <= i < j < r.len() implies (#[trigger] r[i]).id < (#[trigger] r[j]).id by {
                if j == r.len() - 1 {
                    assert(prev.contains(r[i]));
                    let m = choose|m: int| 0 <= m < d.len() && d[m] == r[i];
                    assert(bps[m] == r[i]);
                    assert(bps[bps.len() - 1] == r[j]);
                } else {
                    assert(r[i] == prev[i] && r[j] == prev[j]);
                }
            }
            assert forall|i: int| 0 <= i < r.len() implies (#[trigger] r[i]).id < next by {
                if i == r.len() - 1 {
                    assert(bps[bps.len() - 1] == r[i]);
                } else {
                    assert(r[i] == prev[i]);
                }
            }
        }
    }
}

/// Index of the first breakpoint with id `id`, from `i` on.
pub open spec fn first_bp_from(bps: Seq<Breakpoint>, id: u32, i: int) -> Option<int>
    decreases bps.len() - i,
{
    if i < 0 || i >= bps.len() {
        None
    } else if bps[i].id == id {
        Some(i)
    } else {
        first_bp_from(bps, id, i + 1)
    }
}

/// The commands sent to GDB after it started: fork handling, no paging or
/// confirmations, the environment variable that marks a debugged instance,
/// the enabled breakpoints, the program's arguments, a temporary breakpoint
/// on `main` when stopping on entry, then run.
pub open spec fn startup_plan(config: DebugConfig, bps: Seq<Breakpoint>) -> Seq<Seq<char>> {
    let fixed = seq![
        "set follow-fork-mode parent"@,
        "set detach-on-fork on"@,
        "set pagination off"@,
        "set confirm off"@,
        "set environment DVOP_DEBUG_INSTANCE=1"@
    ];
    let args = config.args@.map_values(|a: String| a@);
    fixed + enabled_inserts(bps) + (if args.len() > 0 {
        seq!["-exec-arguments "@ + joined(args)]
    } else {
        Seq::empty()
    }) + (if config.stop_on_entry {
        seq!["-break-insert -t main"@]
    } else {
        Seq::empty()
    }) + seq!["-exec-run"@]
}

/// The insert commands of the enabled breakpoints, in order.
pub open spec fn enabled_inserts(bps: Seq<Breakpoint>) -> Seq<Seq<char>>
    decreases bps.len(),
{
    if bps.len() == 0 {
        Seq::empty()
    } else {
        let prev = enabled_inserts(bps.drop_last());
        if bps.last().enabled {
            prev.push(break_insert(bps.last().file@, bps.last().line as nat))
        } else {
            prev
        }
    }
}

/// The strings joined with single spaces.
pub open spec fn joined(ss: Seq<Seq<char>>) -> Seq<char>
    decreases ss.len(),
{
    if ss.len() == 0 {
        Seq::empty()
    } else if ss.len() == 1 {
        ss[0]
    } else {
        joined(ss.drop_last()) + " "@ + ss.last()
    }
}

/// How to start the debugger: which one, its arguments, and the environment
/// of the program; then the commands to send once it runs.
pub struct LaunchPlan {
    pub debugger: String,
    pub args: Vec<String>,
    pub working_dir: String,
    pub env_vars: Vec<(String, String)>,
    pub commands: Vec<String>,
}

/// What a line of GDB's output says about the debugged process.
#[derive(Debug, Clone, Copy, PartialEq, Eq, Structural)]
pub enum PidHint {
    /// `process N`: the process id.
    Process(u32),
    /// `(LWP N)`: a thread id, whose parent process is the debugged one.
    Lwp(u32),
    /// Nothing.
    Nothing,
}

/// Index of the first occurrence of `p` in `s`, if any.
pub open spec fn find_sub(s: Seq<char>, p: Seq<char>) -> Option<int> {
    if exists|i: int| 0 <= i && i + p.len() <= s.len() && #[trigger] s.subrange(i, i + p.len()) == p {
        Some(choose|i: int| 0 <= i && i + p.len() <= s.len() && #[trigger] s.subrange(i, i + p.len()) == p
            && forall|j: int| 0 <= j < i ==> #[trigger] s.subrange(j, j + p.len()) != p)
    } else {
        None
    }
}

/// The ASCII digits at the start of `s`.
pub open spec fn leading_digits(s: Seq<char>) -> Seq<char>
    decreases s.len(),
{
    if s.len() > 0 && '0' <= s[0] && s[0] <= '9' {
        seq![s[0]] + leading_digits(s.subrange(1, s.len() as int))
    } else {
        Seq::empty()
    }
}

/// The number written right after the first occurrence of `marker`, if it
/// parses.
pub open spec fn number_after(s: Seq<char>, marker: Seq<char>) -> Option<u32> {
    match find_sub(s, marker) {
        Some(i) => parsed_u32(leading_digits(s.subrange(i + marker.len(), s.len() as int))),
        None => None,
    }
}

/// What a line of GDB's output says: the number after `process `, else the
/// number after `(LWP `, else nothing.
pub open spec fn pid_hint_of(line: Seq<char>) -> PidHint {
    match number_after(line, "process "@) {
        Some(p) => PidHint::Process(p),
        None => match number_after(line, "(LWP "@) {
            Some(l) => PidHint::Lwp(l),
            None => PidHint::Nothing,
        },
    }
}

fn find_sub_exec(s: &Vec<char>, p: &Vec<char>) -> (r: Option<usize>)
    ensures
        match r {
            Some(i) => find_sub(s@, p@) == Some(i as int) && i + p@.len() <= s@.len(),
            None => find_sub(s@, p@) is None,
        },
{
    if p.len() > s.len() {
        return None;
    }
    let lim = s.len() - p.len();
    let mut i: usize = 0;
    loop
        invariant
            p@.len() <= s@.len(),
            s@.len() <= usize::MAX,
            lim == s@.len() - p@.len(),
            i <= lim,
            forall|j: int| 0 <= j < i ==> #[trigger] s@.subrange(j, j + p@.len()) != p@,
        decreases lim - i,
    {
        let mut k: usize = 0;
        let mut ok = true;
        while k < p.len()
            invariant
                p@.len() <= s@.len(),
                s@.len() <= usize::MAX,
                i <= lim,
                lim == s@.len() - p@.len(),
                k <= p@.len(),
                ok == (forall|m: int| 0 <= m < k ==> s@[i + m] == p@[m]),
            decreases p.len() - k,
        {
            if s[i + k] != p[k] {
                ok = false;
            }
            k = k + 1;
        }
        if ok {
            assert(s@.subrange(i as int, i + p@.len()) =~= p@);
            proof {
                let w = i as int;
                assert(forall|j: int| 0 <= j < w ==> #[trigger] s@.subrange(j, j + p@.len()) != p@);
            }
            return Some(i);
        }
        proof {
            assert(s@.subrange(i as int, i + p@.len()) != p@) by {
                let m = choose|m: int| 0 <= m < p@.len() && s@[i + m] != p@[m];
                assert(s@.subrange(i as int, i + p@.len())[m] == s@[i + m]);
            }
        }
        if i == lim {
            proof {
                assert forall|j: int| 0 <= j && j + p@.len() <= s@.len() implies #[trigger] s@.subrange(j, j + p@.len()) != p@ by {
                    assert(j <= i);
                }
            }
            return None;
        }
        i = i + 1;
    }
}

fn leading_digits_exec(s: &Vec<char>, from: usize) -> (r: Vec<char>)
    requires
        from <= s@.len(),
    ensures
        r@ == leading_digits(s@.subrange(from as int, s@.len() as int)),
    decreases s.len() - from,
{
    let ghost rest = s@.subrange(from as int, s@.len() as int);
    if from < s.len() && '0' <= s[from] && s[from] <= '9' {
        let tail = leading_digits_exec(s, from + 1);
        assert(rest.subrange(1, rest.len() as int) =~= s@.subrange(from + 1, s@.len() as int));
        let mut r: Vec<char> = Vec::new();
        r.push(s[from]);
        let mut t = tail;
        r.append(&mut t);
        assert(r@ =~= seq![rest[0]] + leading_digits(rest.subrange(1, rest.len() as int)));
        r
    } else {
        Vec::new()
    }
}

fn number_after_exec(s: &Vec<char>, marker: &str) -> (r: Option<u32>)
    ensures
        r == number_after(s@, marker@),
{
    let m = chars_of(marker);
    let total = s.len();
    match find_sub_exec(s, &m) {
        Some(i) => {
            let ds = leading_digits_exec(s, i + m.len());
            let t = string_from_chars(&ds);
            parse_u32(t.as_str())
        },
        None => None,
    }
}

/// What a line of GDB's output says about the debugged process (see
/// `pid_hint_of`).
pub fn pid_hint(line: &str) -> (r: PidHint)
    ensures
        r == pid_hint_of(line@),
{
    let cs = chars_of(line);
    match number_after_exec(&cs, "process ") {
        Some(p) => PidHint::Process(p),
        None => match number_after_exec(&cs, "(LWP ") {
            Some(l) => PidHint::Lwp(l),
            None => PidHint::Nothing,
        },
    }
}

/// Index of the last `)` in `s`, if any.
pub open spec fn last_paren(s: Seq<char>) -> Option<int>
    decreases s.len(),
{
    if s.len() == 0 {
        None
    } else if s.last() == ')' {
        Some(s.len() - 1)
    } else {
        last_paren(s.drop_last())
    }
}

/// A `/proc/<pid>/stat` line that can be cut after its command name: no
/// `)`, or the `)` is followed by a one-byte character.
pub open spec fn stat_cuttable(stat: Seq<char>) -> bool {
    match last_paren(stat) {
        Some(i) => i + 1 < stat.len() && (stat[i + 1] as int) < 128,
        None => true,
    }
}

/// The parent process id in a `/proc/<pid>/stat` line: the second field
/// after the command name, which ends at the last `)`.
pub open spec fn ppid_of(stat: Seq<char>) -> Option<u32> {
    match last_paren(stat) {
        Some(i) => {
            let fields = words(stat.subrange(i + 2, stat.len() as int));
            if fields.len() >= 2 {
                parsed_u32(fields[1])
            } else {
                None
            }
        },
        None => None,
    }
}

/// The parent process id in a `/proc/<pid>/stat` line (see `ppid_of`).
pub fn ppid_from_stat(stat: &str) -> (r: Option<u32>)
    requires
        stat_cuttable(stat@),
    ensures
        r == ppid_of(stat@),
{
    let cs = chars_of(stat);
    let mut n = cs.len();
    assert(stat@.take(cs@.len() as int) =~= stat@);
    while n > 0
        invariant
            cs@ == stat@,
            cs@.len() <= usize::MAX,
            stat_cuttable(stat@),
            n <= cs@.len(),
            last_paren(stat@) == last_paren(stat@.take(n as int)),
        decreases n,
    {
        proof {
            assert(stat@.take(n as int).drop_last() =~= stat@.take(n - 1));
            assert(stat@.take(n as int).last() == stat@[n - 1]);
        }
        if cs[n - 1] == ')' {
            let paren = n - 1;
            assert(last_paren(stat@) == Some(paren as int));
            let mut after: Vec<char> = Vec::new();
            let mut k = paren + 2;
            while k < cs.len()
                invariant
                    cs@ == stat@,
                    paren + 2 <= k <= cs@.len(),
                    after@ == stat@.subrange(paren + 2, k as int),
                decreases cs.len() - k,
            {
                after.push(cs[k]);
                assert(after@ =~= stat@.subrange(paren + 2, k + 1));
                k = k + 1;
            }
            let rest = string_from_chars(&after);
            let fields = split_words(rest.as_str());
            let ghost fv = fields@.map_values(|w: String| w@);
            if fields.len() >= 2 {
                assert(fv[1] == fields@[1]@);
                return parse_u32(fields[1].as_str());
            }
            return None;
        }
        n = n - 1;
    }
    proof {
        assert(stat@.take(0) =~= Seq::<char>::empty());
    }
    None
}

/// A process to kill when a session stops.
#[derive(Debug, Clone, Copy, PartialEq, Eq, Structural)]
pub enum KillTarget {
    /// The process group led by this process.
    Group(u32),
    /// This process.
    Process(u32),
    /// The processes under this one, children first, and then itself,
    /// leaving alone the editor's own process and ids 0 and 1 with
    /// everything under them (see `spares_tree`).
    Tree(u32),
    /// Every process whose parent is this one.
    ChildrenOf(u32),
}

/// The found descendants of the debugger to kill: all but the editor's own
/// process, in order.
pub open spec fn descendants_to_kill(ds: Seq<u32>, own: u32) -> Seq<KillTarget>
    decreases ds.len(),
{
    if ds.len() == 0 {
        Seq::empty()
    } else {
        let rest = descendants_to_kill(ds.drop_last(), own);
        if ds.last() != own {
            rest.push(KillTarget::Process(ds.last()))
        } else {
            rest
        }
    }
}

/// The processes seen during the session to kill, each with its tree: all
/// but the editor's own process and ids 0 and 1, in order.
pub open spec fn seen_to_kill(ps: Seq<u32>, own: u32) -> Seq<KillTarget>
    decreases ps.len(),
{
    if ps.len() == 0 {
        Seq::empty()
    } else {
        let rest = seen_to_kill(ps.drop_last(), own);
        let p = ps.last();
        if p != own && p > 1 {
            rest + seq![KillTarget::Process(p), KillTarget::Tree(p)]
        } else {
            rest
        }
    }
}

/// What to kill when a session stops, in order: the debugger's process
/// group; the debugged process and its tree, unless it is the editor's
/// own; the debugger's descendants; every process seen during the session
/// with its tree; and, last, whatever is still a child of the debugger.
pub open spec fn kill_plan(gdb: Option<u32>, inferior: Option<u32>, descendants: Seq<u32>, seen: Seq<u32>, own: u32) -> Seq<KillTarget> {
    let group = match gdb {
        Some(g) => seq![KillTarget::Group(g)],
        None => Seq::empty(),
    };
    let debugged = match inferior {
        Some(p) => if p != own { seq![KillTarget::Process(p), KillTarget::Tree(p)] } else { Seq::empty() },
        None => Seq::empty(),
    };
    let below = match gdb {
        Some(_) => descendants_to_kill(descendants, own),
        None => Seq::empty(),
    };
    let last = match gdb {
        Some(g) => seq![KillTarget::ChildrenOf(g)],
        None => Seq::empty(),
    };
    group + debugged + below + seen_to_kill(seen, own) + last
}

/// No process or tree to kill is the editor's own process.
pub open spec fn spares(plan: Seq<KillTarget>, own: u32) -> bool {
    forall|k: int| 0 <= k < plan.len() ==> match #[trigger] plan[k] {
        KillTarget::Process(p) => p != own,
        KillTarget::Tree(p) => p != own,
        _ => true,
    }
}

proof fn lemma_descendants_spare(ds: Seq<u32>, own: u32)
    ensures
        spares(descendants_to_kill(ds, own), own),
    decreases ds.len(),
{
    if ds.len() > 0 {
        lemma_descendants_spare(ds.drop_last(), own);
    }
}

proof fn lemma_seen_spare(ps: Seq<u32>, own: u32)
    ensures
        spares(seen_to_kill(ps, own), own),
    decreases ps.len(),
{
    if ps.len() > 0 {
        lemma_seen_spare(ps.drop_last(), own);
        let rest = seen_to_kill(ps.drop_last(), own);
        let p = ps.last();
        if p != own && p > 1 {
            let t = rest + seq![KillTarget::Process(p), KillTarget::Tree(p)];
            assert forall|k: int| 0 <= k < t.len() implies match #[trigger] t[k] {
                KillTarget::Process(q) => q != own,
                KillTarget::Tree(q) => q != own,
                _ => true,
            } by {
                if k < rest.len() {
                    assert(t[k] == rest[k]);
                }
            }
        }
    }
}

proof fn lemma_spares_concat(a: Seq<KillTarget>, b: Seq<KillTarget>, own: u32)
    requires
        spares(a, own),
        spares(b, own),
    ensures
        spares(a + b, own),
{
    assert forall|k: int| 0 <= k < (a + b).len() implies match #[trigger] (a + b)[k] {
        KillTarget::Process(q) => q != own,
        KillTarget::Tree(q) => q != own,
        _ => true,
    } by {
        if k < a.len() {
            assert((a + b)[k] == a[k]);
        } else {
            assert((a + b)[k] == b[k - a.len()]);
        }
    }
}

/// Stopping a session never kills the editor's own process: no process or
/// tree in the kill plan is it, whatever the debugger's descendants and the
/// processes seen.
pub proof fn lemma_kill_plan_spares_own(gdb: Option<u32>, inferior: Option<u32>, descendants: Seq<u32>, seen: Seq<u32>, own: u32)
    ensures
        spares(kill_plan(gdb, inferior, descendants, seen, own), own),
{
    let group: Seq<KillTarget> = match gdb {
        Some(g) => seq![KillTarget::Group(g)],
        None => Seq::empty(),
    };
    let debugged: Seq<KillTarget> = match inferior {
        Some(p) => if p != own { seq![KillTarget::Process(p), KillTarget::Tree(p)] } else { Seq::empty() },
        None => Seq::empty(),
    };
    let below: Seq<KillTarget> = match gdb {
        Some(_) => descendants_to_kill(descendants, own),
        None => Seq::empty(),
    };
    let last: Seq<KillTarget> = match gdb {
        Some(g) => seq![KillTarget::ChildrenOf(g)],
        None => Seq::empty(),
    };
    lemma_descendants_spare(descendants, own);
    lemma_seen_spare(seen, own);
    assert(spares(group, own));
    assert(spares(debugged, own));
    assert(spares(below, own));
    assert(spares(last, own));
    lemma_spares_concat(group, debugged, own);
    lemma_spares_concat(group + debugged, below, own);
    lemma_spares_concat(group + debugged + below, seen_to_kill(seen, own), own);
    lemma_spares_concat(group + debugged + below + seen_to_kill(seen, own), last, own);
}

/// The tree under `pid` is left alone: it is the protected process or one
/// of ids 0 and 1.
pub fn spares_tree(pid: u32, protected: u32) -> (r: bool)
    ensures
        r == (pid == protected || pid <= 1),
{
    pid == protected || pid <= 1
}

/// The processes of `table` whose parent is `parent`, in order.
pub open spec fn child_pids_of(table: Seq<(u32, u32)>, parent: u32) -> Seq<u32>
    decreases table.len(),
{
    if table.len() == 0 {
        Seq::empty()
    } else {
        let rest = child_pids_of(table.drop_last(), parent);
        if table.last().1 == parent {
            rest.push(table.last().0)
        } else {
            rest
        }
    }
}

/// The processes of `table`, read as (process, parent) pairs, whose parent
/// is `parent`, in order.
pub fn child_pids(table: &Vec<(u32, u32)>, parent: u32) -> (r: Vec<u32>)
    ensures
        r@ == child_pids_of(table@, parent),
{
    let mut r: Vec<u32> = Vec::new();
    let mut i: usize = 0;
    while i < table.len()
        invariant
            i <= table@.len(),
            r@ == child_pids_of(table@.take(i as int), parent),
        decreases table.len() - i,
    {
        proof {
            assert(table@.take(i + 1).drop_last() =~= table@.take(i as int));
        }
        let (pid, ppid) = table[i];
        if ppid == parent {
            r.push(pid);
        }
        i = i + 1;
    }
    assert(table@.take(table@.len() as int) =~= table@);
    r
}

/// The commands that end a debugging session: interrupt all threads, kill
/// the debugged program, confirm, and quit the debugger.
pub fn stop_commands() -> (r: Vec<String>)
    ensures
        r@.map_values(|c: String| c@) == seq!["-exec-interrupt --all"@, "kill"@, "y"@, "-gdb-exit"@],
{
    let mut r: Vec<String> = Vec::new();
    r.push(string_of("-exec-interrupt --all"));
    r.push(string_of("kill"));
    r.push(string_of("y"));
    r.push(string_of("-gdb-exit"));
    assert(r@.map_values(|c: String| c@) =~= seq!["-exec-interrupt --all"@, "kill"@, "y"@, "-gdb-exit"@]);
    r
}

/// A debugging session: its state, breakpoints, launch configuration, the
/// debugger's output not yet read, and the processes seen to be debugged.
pub struct DebugSession {
    state: DebuggerState,
    breakpoints: Vec<Breakpoint>,
    next_breakpoint_id: u32,
    config: Option<DebugConfig>,
    output: Vec<String>,
    inferior_pid: Option<u32>,
    all_inferior_pids: Vec<u32>,
    our_pid: u32,
}

/// The message when the debugger must be paused and is not.
pub open spec fn not_paused() -> Seq<char> {
    "Debugger is not paused"@
}

/// The message when the debugger must be running and is not.
pub open spec fn not_running() -> Seq<char> {
    "Debugger is not running"@
}

fn err_text(msg: &str) -> (r: Result<(), String>)
    ensures
        r matches Err(e) && e@ == msg@,
{
    Err(string_of(msg))
}

fn send_text<F: FnOnce(String) -> Result<(), String>>(send: F, cmd: &str) -> (r: Result<(), String>)
    requires
        forall|c: String| send.requires((c,)),
    ensures
        sent(send, cmd@, r),
{
    let c = string_of(cmd);
    let ghost cv = c;
    let r = send(c);
    assert(send.ensures((cv,), r));
    r
}

fn send_owned<F: FnOnce(String) -> Result<(), String>>(send: F, cmd: String) -> (r: Result<(), String>)
    requires
        forall|c: String| send.requires((c,)),
    ensures
        sent(send, cmd@, r),
{
    let ghost cv = cmd;
    let r = send(cmd);
    assert(send.ensures((cv,), r));
    r
}

/// The insert command for a breakpoint.
fn insert_command(file: &str, line: u32) -> (r: String)
    ensures
        r@ == break_insert(file@, line as nat),
{
    let mut r = string_of("-break-insert ");
    r.append(file);
    r.append(":");
    let l = decimal_string(line as u64);
    r.append(l.as_str());
    r
}

/// A command that names a breakpoint by id.
fn id_command(prefix: &str, id: u32) -> (r: String)
    ensures
        r@ == prefix@ + decimal(id as nat),
{
    let mut r = string_of(prefix);
    let d = decimal_string(id as u64);
    r.append(d.as_str());
    r
}

fn join_spaces(ss: &Vec<String>) -> (r: String)
    ensures
        r@ == joined(ss@.map_values(|a: String| a@)),
{
    let ghost sv = ss@.map_values(|a: String| a@);
    let mut r = String::new();
    for i in 0..ss.len()
        invariant
            sv == ss@.map_values(|a: String| a@),
            r@ == joined(sv.take(i as int)),
    {
        proof {
            assert(sv.take(i + 1).drop_last() =~= sv.take(i as int));
        }
        if i > 0 {
            r.append(" ");
        }
        r.append(ss[i].as_str());
        proof {
            if i == 0 {
                assert(sv.take(1) =~= seq![sv[0]]);
            }
        }
    }
    proof {
        assert(sv.take(sv.len() as int) =~= sv);
    }
    r
}

/// The commands sent to GDB once it started (see `startup_plan`).
pub fn startup_commands(config: &DebugConfig, breakpoints: &Vec<Breakpoint>) -> (r: Vec<String>)
    ensures
        r@.map_values(|c: String| c@) == startup_plan(*config, breakpoints@),
{
    let mut r: Vec<String> = Vec::new();
    r.push(string_of("set follow-fork-mode parent"));
    r.push(string_of("set detach-on-fork on"));
    r.push(string_of("set pagination off"));
    r.push(string_of("set confirm off"));
    r.push(string_of("set environment DVOP_DEBUG_INSTANCE=1"));
    let ghost fixed = r@.map_values(|c: String| c@);
    for i in 0..breakpoints.len()
        invariant
            r@.map_values(|c: String| c@) == fixed + enabled_inserts(breakpoints@.take(i as int)),
    {
        proof {
            assert(breakpoints@.take(i + 1).drop_last() =~= breakpoints@.take(i as int));
        }
        let bp = &breakpoints[i];
        if bp.enabled {
            let ghost before = r@.map_values(|c: String| c@);
            r.push(insert_command(bp.file.as_str(), bp.line));
            assert(r@.map_values(|c: String| c@) =~= before.push(break_insert(bp.file@, bp.line as nat)));
        }
    }
    proof {
        assert(breakpoints@.take(breakpoints@.len() as int) =~= breakpoints@);
    }
    let ghost mid = r@.map_values(|c: String| c@);
    if config.args.len() > 0 {
        let joined_args = join_spaces(&config.args);
        r.push(concat("-exec-arguments ", joined_args.as_str()));
        assert(r@.map_values(|c: String| c@) =~= mid + seq!["-exec-arguments "@ + joined(config.args@.map_values(|a: String| a@))]);
    } else {
        assert(r@.map_values(|c: String| c@) =~= mid + Seq::<Seq<char>>::empty());
    }
    let ghost mid2 = r@.map_values(|c: String| c@);
    if config.stop_on_entry {
        r.push(string_of("-break-insert -t main"));
        assert(r@.map_values(|c: String| c@) =~= mid2 + seq!["-break-insert -t main"@]);
    } else {
        assert(r@.map_values(|c: String| c@) =~= mid2 + Seq::<Seq<char>>::empty());
    }
    let ghost mid3 = r@.map_values(|c: String| c@);
    r.push(string_of("-exec-run"));
    assert(r@.map_values(|c: String| c@) =~= mid3 + seq!["-exec-run"@]);
    assert(fixed =~= seq![
        "set follow-fork-mode parent"@,
        "set detach-on-fork on"@,
        "set pagination off"@,
        "set confirm off"@,
        "set environment DVOP_DEBUG_INSTANCE=1"@
    ]);
    r
}

impl DebugSession {
    /// The session's state.
    pub closed spec fn state_of(&self) -> DebuggerState {
        self.state
    }

    /// The breakpoints, in the order they were added.
    pub closed spec fn breakpoints(&self) -> Seq<Breakpoint> {
        self.breakpoints@
    }

    /// The id the next breakpoint gets.
    pub closed spec fn next_id(&self) -> u32 {
        self.next_breakpoint_id
    }

    /// The launch configuration.
    pub closed spec fn config(&self) -> Option<DebugConfig> {
        self.config
    }

    /// The debugger's output lines not yet read.
    pub closed spec fn output(&self) -> Seq<Seq<char>> {
        self.output@.map_values(|l: String| l@)
    }

    /// The process being debugged, once seen.
    pub closed spec fn inferior(&self) -> Option<u32> {
        self.inferior_pid
    }

    /// Every process seen to be debugged, each once, in the order seen.
    pub closed spec fn seen_pids(&self) -> Seq<u32> {
        self.all_inferior_pids@
    }

    /// The editor's own process, which is never treated as debugged.
    pub closed spec fn own_pid(&self) -> u32 {
        self.our_pid
    }

    /// Breakpoint ids are ordered and below the next id (see `ids_ordered`).
    pub open spec fn wf(&self) -> bool {
        ids_ordered(self.breakpoints(), self.next_id())
    }

    /// A stopped session with no breakpoints, configuration or output; the
    /// first breakpoint gets id 1.
    pub fn new(our_pid: u32) -> (r: Self)
        ensures
            r.state_of() == DebuggerState::Stopped,
            r.breakpoints().len() == 0,
            r.next_id() == 1,
            r.config() is None,
            r.output().len() == 0,
            r.inferior() is None,
            r.seen_pids().len() == 0,
            r.own_pid() == our_pid,
            r.wf(),
    {
        let r = DebugSession {
            state: DebuggerState::Stopped,
            breakpoints: Vec::new(),
            next_breakpoint_id: 1,
            config: None,
            output: Vec::new(),
            inferior_pid: None,
            all_inferior_pids: Vec::new(),
            our_pid,
        };
        assert(r.output() =~= Seq::<Seq<char>>::empty());
        r
    }

    /// The session's state.
    pub fn state(&self) -> (r: DebuggerState)
        ensures
            r == self.state_of(),
    {
        self.state
    }

    /// The id the next breakpoint gets.
    pub fn next_breakpoint_id(&self) -> (r: u32)
        ensures
            r == self.next_id(),
    {
        self.next_breakpoint_id
    }

    /// Set the launch configuration.
    pub fn set_config(&mut self, config: DebugConfig)
        ensures
            final(self).config() == Some(config),
            final(self).state_of() == old(self).state_of(),
            final(self).breakpoints() == old(self).breakpoints(),
            final(self).next_id() == old(self).next_id(),
    {
        self.config = Some(config);
    }

    /// The launch configuration.
    pub fn get_config(&self) -> (r: Option<DebugConfig>)
        ensures
            match (r, self.config()) {
                (Some(a), Some(b)) => a.same(b),
                (None, None) => true,
                _ => false,
            },
    {
        match &self.config {
            Some(c) => Some(c.clone()),
            None => None,
        }
    }

    /// How to start the debugger, given whether the program exists and
    /// which debugger is installed: an error when there is no
    /// configuration, no program, no debugger, or one other than `gdb` or
    /// `lldb`.
    pub fn launch_plan(&self, program_exists: bool, debugger: Option<&str>) -> (r: Result<LaunchPlan, String>)
        ensures
            match self.config() {
                None => r matches Err(e) && e@ == "No debug configuration set"@,
                Some(c) => if !program_exists {
                    r matches Err(e) && e@ == "Program not found: "@ + c.program@ + ". Please build the project first."@
                } else {
                    match debugger {
                        None => r matches Err(e) && e@ == "No debugger available (GDB or LLDB required)"@,
                        Some(d) => if d@ == "gdb"@ {
                            r matches Ok(p) && p.debugger@ == "gdb"@ && p.args@.map_values(|a: String| a@)
                                == seq!["--interpreter=mi2"@, "--quiet"@, c.program@] && p.working_dir@ == c.working_dir@
                                && p.env_vars@ == c.env_vars@
                                && p.commands@.map_values(|x: String| x@) == startup_plan(c, self.breakpoints())
                        } else if d@ == "lldb"@ {
                            r matches Ok(p) && p.debugger@ == "lldb"@ && p.args@.map_values(|a: String| a@)
                                == seq!["--"@, c.program@] && p.working_dir@ == c.working_dir@
                                && p.env_vars@ == c.env_vars@
                                && p.commands@.map_values(|x: String| x@) == startup_plan(c, self.breakpoints())
                        } else {
                            r matches Err(e) && e@ == "Unsupported debugger"@
                        },
                    }
                },
            },
    {
        let c = match &self.config {
            Some(c) => c,
            None => return Err(string_of("No debug configuration set")),
        };
        if !program_exists {
            let mut e = string_of("Program not found: ");
            e.append(c.program.as_str());
            e.append(". Please build the project first.");
            return Err(e);
        }
        let d = match debugger {
            Some(d) => d,
            None => return Err(string_of("No debugger available (GDB or LLDB required)")),
        };
        let mut args: Vec<String> = Vec::new();
        if crate::text::str_eq(d, "gdb") {
            args.push(string_of("--interpreter=mi2"));
            args.push(string_of("--quiet"));
            args.push(string_of(c.program.as_str()));
        } else if crate::text::str_eq(d, "lldb") {
            args.push(string_of("--"));
            args.push(string_of(c.program.as_str()));
        } else {
            return Err(string_of("Unsupported debugger"));
        }
        let ghost av = args@.map_values(|a: String| a@);
        assert(d@ == "gdb"@ ==> av =~= seq!["--interpreter=mi2"@, "--quiet"@, c.program@]);
        assert(d@ != "gdb"@ ==> av =~= seq!["--"@, c.program@]);
        Ok(LaunchPlan {
            debugger: string_of(d),
            args,
            working_dir: string_of(c.working_dir.as_str()),
            env_vars: clone_env(&c.env_vars),
            commands: startup_commands(c, &self.breakpoints),
        })
    }

    /// The debugger was started and told to run the program.
    pub fn mark_running(&mut self)
        ensures
            final(self).state_of() == DebuggerState::Running,
            final(self).breakpoints() == old(self).breakpoints(),
            final(self).next_id() == old(self).next_id(),
            final(self).config() == old(self).config(),
    {
        self.state = DebuggerState::Running;
    }

    /// Resume a paused program: `-exec-continue`, then it runs. Refused
    /// unless paused; when sending fails the state stays.
    pub fn continue_execution<F: FnOnce(String) -> Result<(), String>>(&mut self, send: F) -> (r: Result<(), String>)
        requires
            forall|c: String| send.requires((c,)),
        ensures
            final(self).breakpoints() == old(self).breakpoints(),
            final(self).next_id() == old(self).next_id(),
            old(self).state_of() != DebuggerState::Paused ==> (r matches Err(e) && e@ == not_paused())
                && final(self).state_of() == old(self).state_of(),
            old(self).state_of() == DebuggerState::Paused ==> sent(send, "-exec-continue"@, r)
                && final(self).state_of() == (if r is Ok { DebuggerState::Running } else { DebuggerState::Paused }),
    {
        if self.state != DebuggerState::Paused {
            return err_text("Debugger is not paused");
        }
        let r = send_text(send, "-exec-continue");
        if r.is_ok() {
            self.state = DebuggerState::Running;
        }
        r
    }

    /// Interrupt a running program: `-exec-interrupt`, then it is paused.
    /// Refused unless running; when sending fails the state stays.
    pub fn pause<F: FnOnce(String) -> Result<(), String>>(&mut self, send: F) -> (r: Result<(), String>)
        requires
            forall|c: String| send.requires((c,)),
        ensures
            final(self).breakpoints() == old(self).breakpoints(),
            final(self).next_id() == old(self).next_id(),
            old(self).state_of() != DebuggerState::Running ==> (r matches Err(e) && e@ == not_running())
                && final(self).state_of() == old(self).state_of(),
            old(self).state_of() == DebuggerState::Running ==> sent(send, "-exec-interrupt"@, r)
                && final(self).state_of() == (if r is Ok { DebuggerState::Paused } else { DebuggerState::Running }),
    {
        if self.state != DebuggerState::Running {
            return err_text("Debugger is not running");
        }
        let r = send_text(send, "-exec-interrupt");
        if r.is_ok() {
            self.state = DebuggerState::Paused;
        }
        r
    }

    fn step<F: FnOnce(String) -> Result<(), String>>(&self, send: F, cmd: &str) -> (r: Result<(), String>)
        requires
            forall|c: String| send.requires((c,)),
        ensures
            self.state_of() != DebuggerState::Paused ==> (r matches Err(e) && e@ == not_paused()),
            self.state_of() == DebuggerState::Paused ==> sent(send, cmd@, r),
    {
        if self.state != DebuggerState::Paused {
            return err_text("Debugger is not paused");
        }
        send_text(send, cmd)
    }

    /// Step over the current line (`-exec-next`); refused unless paused.
    pub fn step_over<F: FnOnce(String) -> Result<(), String>>(&self, send: F) -> (r: Result<(), String>)
        requires
            forall|c: String| send.requires((c,)),
        ensures
            self.state_of() != DebuggerState::Paused ==> (r matches Err(e) && e@ == not_paused()),
            self.state_of() == DebuggerState::Paused ==> sent(send, "-exec-next"@, r),
    {
        self.step(send, "-exec-next")
    }

    /// Step into the call on the current line (`-exec-step`); refused unless
    /// paused.
    pub fn step_into<F: FnOnce(String) -> Result<(), String>>(&self, send: F) -> (r: Result<(), String>)
        requires
            forall|c: String| send.requires((c,)),
        ensures
            self.state_of() != DebuggerState::Paused ==> (r matches Err(e) && e@ == not_paused()),
            self.state_of() == DebuggerState::Paused ==> sent(send, "-exec-step"@, r),
    {
        self.step(send, "-exec-step")
    }

    /// Run to the end of the current function (`-exec-finish`); refused
    /// unless paused.
    pub fn step_out<F: FnOnce(String) -> Result<(), String>>(&self, send: F) -> (r: Result<(), String>)
        requires
            forall|c: String| send.requires((c,)),
        ensures
            self.state_of() != DebuggerState::Paused ==> (r matches Err(e) && e@ == not_paused()),
            self.state_of() == DebuggerState::Paused ==> sent(send, "-exec-finish"@, r),
    {
        self.step(send, "-exec-finish")
    }

    /// The session is over: it is stopped, forgets the processes it saw,
    /// and returns what to kill (see `kill_plan`), given the debugger's
    /// process and the processes found under it. The editor's own process
    /// is never among the processes and trees to kill.
    pub fn stop(&mut self, gdb_pid: Option<u32>, gdb_descendants: &Vec<u32>) -> (r: Vec<KillTarget>)
        ensures
            final(self).state_of() == DebuggerState::Stopped,
            final(self).breakpoints() == old(self).breakpoints(),
            final(self).next_id() == old(self).next_id(),
            final(self).config() == old(self).config(),
            final(self).output() == old(self).output(),
            final(self).own_pid() == old(self).own_pid(),
            final(self).inferior() is None,
            final(self).seen_pids().len() == 0,
            r@ == kill_plan(gdb_pid, old(self).inferior(), gdb_descendants@, old(self).seen_pids(), old(self).own_pid()),
            spares(r@, old(self).own_pid()),
    {
        self.state = DebuggerState::Stopped;
        let own = self.our_pid;
        let mut plan: Vec<KillTarget> = Vec::new();
        if let Some(g) = gdb_pid {
            plan.push(KillTarget::Group(g));
        }
        match self.inferior_pid {
            Some(p) => {
                if p != own {
                    plan.push(KillTarget::Process(p));
                    plan.push(KillTarget::Tree(p));
                }
            },
            None => {},
        }
        let ghost head = plan@;
        if gdb_pid.is_some() {
            let mut i: usize = 0;
            while i < gdb_descendants.len()
                invariant
                    i <= gdb_descendants@.len(),
                    plan@ == head + descendants_to_kill(gdb_descendants@.take(i as int), own),
                decreases gdb_descendants.len() - i,
            {
                proof {
                    assert(gdb_descendants@.take(i + 1).drop_last() =~= gdb_descendants@.take(i as int));
                }
                let c = gdb_descendants[i];
                if c != own {
                    plan.push(KillTarget::Process(c));
                }
                i = i + 1;
            }
            assert(gdb_descendants@.take(gdb_descendants@.len() as int) =~= gdb_descendants@);
        }
        let ghost mid = plan@;
        let mut i: usize = 0;
        while i < self.all_inferior_pids.len()
            invariant
                i <= self.all_inferior_pids@.len(),
                plan@ == mid + seen_to_kill(self.all_inferior_pids@.take(i as int), own),
            decreases self.all_inferior_pids.len() - i,
        {
            proof {
                assert(self.all_inferior_pids@.take(i + 1).drop_last() =~= self.all_inferior_pids@.take(i as int));
            }
            let p = self.all_inferior_pids[i];
            if p != own && p > 1 {
                plan.push(KillTarget::Process(p));
                plan.push(KillTarget::Tree(p));
            }
            i = i + 1;
        }
        assert(self.all_inferior_pids@.take(self.all_inferior_pids@.len() as int) =~= self.all_inferior_pids@);
        if let Some(g) = gdb_pid {
            plan.push(KillTarget::ChildrenOf(g));
        }
        self.inferior_pid = None;
        self.all_inferior_pids = Vec::new();
        proof {
            assert(plan@ =~= kill_plan(gdb_pid, old(self).inferior(), gdb_descendants@, old(self).seen_pids(), own));
            lemma_kill_plan_spares_own(gdb_pid, old(self).inferior(), gdb_descendants@, old(self).seen_pids(), own);
        }
        plan
    }

    /// Add an enabled breakpoint at `file`:`line` with the next id; while a
    /// program is debugged it is inserted at once (the breakpoint stays in
    /// the list even when sending fails).
    pub fn add_breakpoint<F: FnOnce(String) -> Result<(), String>>(&mut self, file: String, line: u32, send: F) -> (r: Result<Breakpoint, String>)
        requires
            old(self).next_id() < u32::MAX,
            forall|c: String| send.requires((c,)),
        ensures
            old(self).wf() ==> final(self).wf(),
            old(self).wf() ==> forall|k: int| 0 <= k < old(self).breakpoints().len()
                ==> (#[trigger] old(self).breakpoints()[k]).id != old(self).next_id(),
            final(self).state_of() == old(self).state_of(),
            final(self).next_id() == old(self).next_id() + 1,
            final(self).breakpoints() == old(self).breakpoints().push(Breakpoint {
                id: old(self).next_id(),
                file,
                line,
                enabled: true,
                hit_count: 0,
                condition: None,
            }),
            old(self).state_of() == DebuggerState::Stopped ==> r == Ok::<Breakpoint, String>(final(self).breakpoints().last()),
            old(self).state_of() != DebuggerState::Stopped ==> exists|s: Result<(), String>| {
                &&& sent(send, break_insert(file@, line as nat), s)
                &&& match s {
                    Ok(_) => r == Ok::<Breakpoint, String>(final(self).breakpoints().last()),
                    Err(e) => r == Err::<Breakpoint, String>(e),
                }
            },
    {
        let id = self.next_breakpoint_id;
        self.next_breakpoint_id = id + 1;
        let cmd = insert_command(file.as_str(), line);
        let bp = Breakpoint { id, file, line, enabled: true, hit_count: 0, condition: None };
        let ret = bp.clone();
        self.breakpoints.push(bp);
        if self.state != DebuggerState::Stopped {
            let s = send_owned(send, cmd);
            match s {
                Ok(_) => Ok(ret),
                Err(e) => Err(e),
            }
        } else {
            Ok(ret)
        }
    }

    /// Remove the breakpoints with this id; while a program is debugged the
    /// debugger is told (`-break-delete <id>`).
    pub fn remove_breakpoint<F: FnOnce(String) -> Result<(), String>>(&mut self, id: u32, send: F) -> (r: Result<(), String>)
        requires
            forall|c: String| send.requires((c,)),
        ensures
            old(self).wf() ==> final(self).wf(),
            final(self).state_of() == old(self).state_of(),
            final(self).next_id() == old(self).next_id(),
            final(self).breakpoints() == without_id(old(self).breakpoints(), id),
            old(self).state_of() == DebuggerState::Stopped ==> r is Ok,
            old(self).state_of() != DebuggerState::Stopped ==> sent(send, "-break-delete "@ + decimal(id as nat), r),
    {
        let ghost bv = self.breakpoints@;
        let mut kept: Vec<Breakpoint> = Vec::new();
        for i in 0..self.breakpoints.len()
            invariant
                bv == self.breakpoints@,
                kept@ == without_id(bv.take(i as int), id),
        {
            proof {
                assert(bv.take(i + 1).drop_last() =~= bv.take(i as int));
            }
            if self.breakpoints[i].id != id {
                kept.push(self.breakpoints[i].clone());
            }
        }
        proof {
            assert(bv.take(bv.len() as int) =~= bv);
            if ids_ordered(bv, self.next_breakpoint_id) {
                lemma_without_id_ordered(bv, id, self.next_breakpoint_id);
            }
        }
        self.breakpoints = kept;
        if self.state != DebuggerState::Stopped {
            let cmd = id_command("-break-delete ", id);
            send_owned(send, cmd)
        } else {
            Ok(())
        }
    }

    /// Enable or disable (whichever it is not) the first breakpoint with
    /// this id; while a program is debugged the debugger is told
    /// (`-break-enable <id>` or `-break-disable <id>`). No such breakpoint:
    /// nothing happens.
    pub fn toggle_breakpoint<F: FnOnce(String) -> Result<(), String>>(&mut self, id: u32, send: F) -> (r: Result<(), String>)
        requires
            forall|c: String| send.requires((c,)),
        ensures
            old(self).wf() ==> final(self).wf(),
            final(self).state_of() == old(self).state_of(),
            final(self).next_id() == old(self).next_id(),
            match first_bp_from(old(self).breakpoints(), id, 0) {
                Some(k) => {
                    let b = old(self).breakpoints()[k];
                    &&& final(self).breakpoints() == old(self).breakpoints().update(k, Breakpoint { enabled: !b.enabled, ..b })
                    &&& old(self).state_of() == DebuggerState::Stopped ==> r is Ok
                    &&& old(self).state_of() != DebuggerState::Stopped ==> sent(
                        send,
                        (if !b.enabled { "-break-enable "@ } else { "-break-disable "@ }) + decimal(id as nat),
                        r,
                    )
                },
                None => r is Ok && final(self).breakpoints() == old(self).breakpoints(),
            },
    {
        let mut i: usize = 0;
        while i < self.breakpoints.len()
            invariant
                i <= self.breakpoints@.len(),
                self.breakpoints@ == old(self).breakpoints@,
                self.state == old(self).state,
                self.next_breakpoint_id == old(self).next_breakpoint_id,
                forall|c: String| send.requires((c,)),
                first_bp_from(old(self).breakpoints@, id, 0) == first_bp_from(old(self).breakpoints@, id, i as int),
            decreases self.breakpoints.len() - i,
        {
            if self.breakpoints[i].id == id {
                let mut b = self.breakpoints.remove(i);
                b.enabled = !b.enabled;
                let now_enabled = b.enabled;
                self.breakpoints.insert(i, b);
                assert(self.breakpoints@ =~= old(self).breakpoints@.update(
                    i as int,
                    Breakpoint { enabled: !old(self).breakpoints@[i as int].enabled, ..old(self).breakpoints@[i as int] },
                ));
                if self.state != DebuggerState::Stopped {
                    let prefix = if now_enabled { "-break-enable " } else { "-break-disable " };
                    let cmd = id_command(prefix, id);
                    return send_owned(send, cmd);
                }
                return Ok(());
            }
            i = i + 1;
        }
        Ok(())
    }

    /// The breakpoints, in the order they were added.
    pub fn get_breakpoints(&self) -> (r: Vec<Breakpoint>)
        ensures
            r@ == self.breakpoints(),
    {
        let mut r: Vec<Breakpoint> = Vec::new();
        for i in 0..self.breakpoints.len()
            invariant
                r@ == self.breakpoints@.take(i as int),
        {
            r.push(self.breakpoints[i].clone());
            assert(r@ =~= self.breakpoints@.take(i + 1));
        }
        assert(self.breakpoints@.take(self.breakpoints@.len() as int) =~= self.breakpoints@);
        r
    }

    /// Ask for the call stack (`-stack-list-frames`); refused when stopped.
    /// The reply is read from the output later, so the list is empty.
    pub fn get_stack_trace<F: FnOnce(String) -> Result<(), String>>(&self, send: F) -> (r: Result<Vec<StackFrame>, String>)
        requires
            forall|c: String| send.requires((c,)),
        ensures
            self.state_of() == DebuggerState::Stopped ==> (r matches Err(e) && e@ == not_running()),
            self.state_of() != DebuggerState::Stopped ==> exists|s: Result<(), String>| {
                &&& sent(send, "-stack-list-frames"@, s)
                &&& match s {
                    Ok(_) => r matches Ok(v) && v@.len() == 0,
                    Err(e) => r == Err::<Vec<StackFrame>, String>(e),
                }
            },
    {
        if self.state == DebuggerState::Stopped {
            return Err(string_of("Debugger is not running"));
        }
        match send_text(send, "-stack-list-frames") {
            Ok(_) => Ok(Vec::new()),
            Err(e) => Err(e),
        }
    }

    /// Ask for the local variables (`-stack-list-locals --all-values`);
    /// refused when stopped. The reply is read from the output later, so the
    /// list is empty.
    pub fn get_locals<F: FnOnce(String) -> Result<(), String>>(&self, send: F) -> (r: Result<Vec<Variable>, String>)
        requires
            forall|c: String| send.requires((c,)),
        ensures
            self.state_of() == DebuggerState::Stopped ==> (r matches Err(e) && e@ == not_running()),
            self.state_of() != DebuggerState::Stopped ==> exists|s: Result<(), String>| {
                &&& sent(send, "-stack-list-locals --all-values"@, s)
                &&& match s {
                    Ok(_) => r matches Ok(v) && v@.len() == 0,
                    Err(e) => r == Err::<Vec<Variable>, String>(e),
                }
            },
    {
        if self.state == DebuggerState::Stopped {
            return Err(string_of("Debugger is not running"));
        }
        match send_text(send, "-stack-list-locals --all-values") {
            Ok(_) => Ok(Vec::new()),
            Err(e) => Err(e),
        }
    }

    /// Ask the debugger to evaluate an expression
    /// (`-data-evaluate-expression "<expression>"`); refused when stopped.
    /// The reply is read from the output later, so the text is empty.
    pub fn evaluate<F: FnOnce(String) -> Result<(), String>>(&self, expression: &str, send: F) -> (r: Result<String, String>)
        requires
            forall|c: String| send.requires((c,)),
        ensures
            self.state_of() == DebuggerState::Stopped ==> (r matches Err(e) && e@ == not_running()),
            self.state_of() != DebuggerState::Stopped ==> exists|s: Result<(), String>| {
                &&& sent(send, "-data-evaluate-expression \""@ + expression@ + "\""@, s)
                &&& match s {
                    Ok(_) => r matches Ok(v) && v@.len() == 0,
                    Err(e) => r == Err::<String, String>(e),
                }
            },
    {
        if self.state == DebuggerState::Stopped {
            return Err(string_of("Debugger is not running"));
        }
        let mut cmd = string_of("-data-evaluate-expression \"");
        cmd.append(expression);
        cmd.append("\"");
        match send_owned(send, cmd) {
            Ok(_) => Ok(String::new()),
            Err(e) => Err(e),
        }
    }

    /// Keep a line the debugger printed.
    pub fn record_output(&mut self, line: String)
        ensures
            final(self).output() == old(self).output().push(line@),
            final(self).state_of() == old(self).state_of(),
            final(self).breakpoints() == old(self).breakpoints(),
            final(self).next_id() == old(self).next_id(),
    {
        let ghost before = self.output();
        self.output.push(line);
        assert(self.output() =~= before.push(line@));
    }

    /// A process seen to be debugged: remembered once, and taken as the
    /// debugged process when none is known yet. The editor's own process and
    /// ids 0 and 1 are ignored.
    pub fn record_inferior_pid(&mut self, pid: u32)
        ensures
            final(self).state_of() == old(self).state_of(),
            final(self).breakpoints() == old(self).breakpoints(),
            final(self).next_id() == old(self).next_id(),
            final(self).own_pid() == old(self).own_pid(),
            pid == old(self).own_pid() || pid <= 1 ==> final(self).seen_pids() == old(self).seen_pids()
                && final(self).inferior() == old(self).inferior(),
            pid != old(self).own_pid() && pid > 1 ==> {
                &&& final(self).seen_pids() == if old(self).seen_pids().contains(pid) {
                    old(self).seen_pids()
                } else {
                    old(self).seen_pids().push(pid)
                }
                &&& final(self).inferior() == match old(self).inferior() {
                    Some(p) => Some(p),
                    None => Some(pid),
                }
            },
    {
        if pid == self.our_pid || pid <= 1 {
            return;
        }
        let mut known = false;
        let mut i: usize = 0;
        while i < self.all_inferior_pids.len()
            invariant
                i <= self.all_inferior_pids@.len(),
                known == exists|k: int| 0 <= k < i && self.all_inferior_pids@[k] == pid,
            decreases self.all_inferior_pids.len() - i,
        {
            if self.all_inferior_pids[i] == pid {
                known = true;
            }
            i = i + 1;
        }
        if !known {
            self.all_inferior_pids.push(pid);
        }
        if self.inferior_pid.is_none() {
            self.inferior_pid = Some(pid);
        }
    }

    /// The output not yet read, which is then gone.
    pub fn read_output(&mut self) -> (r: Vec<String>)
        ensures
            r@.map_values(|l: String| l@) == old(self).output(),
            final(self).output().len() == 0,
            final(self).state_of() == old(self).state_of(),
            final(self).breakpoints() == old(self).breakpoints(),
            final(self).next_id() == old(self).next_id(),
    {
        let mut r: Vec<String> = Vec::new();
        std::mem::swap(&mut r, &mut self.output);
        assert(self.output() =~= Seq::<Seq<char>>::empty());
        r
    }

    /// The output not yet read, which stays.
    pub fn get_output(&self) -> (r: Vec<String>)
        ensures
            r@.map_values(|l: String| l@) == self.output(),
    {
        let ghost ov = self.output();
        let mut r: Vec<String> = Vec::new();
        for i in 0..self.output.len()
            invariant
                ov == self.output@.map_values(|l: String| l@),
                r@.map_values(|l: String| l@) == ov.take(i as int),
        {
            let ghost before = r@.map_values(|l: String| l@);
            r.push(string_of(self.output[i].as_str()));
            assert(ov[i as int] == self.output@[i as int]@);
            assert(r@.map_values(|l: String| l@) =~= before.push(ov[i as int]));
            assert(ov.take(i + 1) =~= ov.take(i as int).push(ov[i as int]));
        }
        assert(ov.take(ov.len() as int) =~= ov);
        r
    }

    /// Forget the output not yet read.
    pub fn clear_output(&mut self)
        ensures
            final(self).output().len() == 0,
            final(self).state_of() == old(self).state_of(),
            final(self).breakpoints() == old(self).breakpoints(),
            final(self).next_id() == old(self).next_id(),
    {
        self.output = Vec::new();
        assert(self.output() =~= Seq::<Seq<char>>::empty());
    }
}

fn clone_env(v: &Vec<(String, String)>) -> (r: Vec<(String, String)>)
    ensures
        r@ == v@,
{
    let mut r: Vec<(String, String)> = Vec::new();
    for i in 0..v.len()
        invariant
            r@ == v@.take(i as int),
    {
        r.push((v[i].0.clone(), v[i].1.clone()));
        assert(r@ =~= v@.take(i + 1));
    }
    assert(v@.take(v@.len() as int) =~= v@);
    r
}

} // verus!
