//! Which processes are listeners.
//!
//! The PID file only ever names the last listener that wrote it, so stopping means finding
//! listeners by command line, not just trusting the file.
use vstd::prelude::*;
use crate::number::{decimal, decimal_is_number, parse_unsigned, parsed};
use crate::text::{
    contains, has, is_digit, is_space, list_has, lowercase_of, texts, to_lowercase, trim, trimmed,
    trimming_takes_white_space_alone,
};

verus! {

/// How long a listener that was asked to end may take, in seconds.
pub const STOP_TIMEOUT: u64 = 3;

/// A process that runs: its number, and the parts of its command line.
#[derive(Debug)]
pub struct ProcessInfo {
    pub pid: u32,
    pub command: Vec<String>,
}

/// The parts of a command line in lower case.
pub open spec fn lower_parts(command: Seq<Seq<char>>) -> Seq<Seq<char>> {
    command.map_values(|part: Seq<char>| lowercase_of(part))
}

/// Whether a part names one of our programs: the marker alone is too generic.
pub open spec fn names_us(part: Seq<char>) -> bool {
    has(part, "wisper"@) || has(part, "nextbase"@) || has(part, "cli.js"@)
}

/// Whether a command line, in lower case, is a listener's.
pub open spec fn is_listener(parts: Seq<Seq<char>>) -> bool {
    &&& parts.contains("_listen"@)
    &&& exists|i: int| 0 <= i < parts.len() && names_us(#[trigger] parts[i])
}

/// Whether a process is a listener other than the one that asks.
pub open spec fn is_other(p: ProcessInfo, own: u32) -> bool {
    p.pid != own && is_listener(lower_parts(texts(p.command@)))
}

/// Whether some process that runs has this number.
pub open spec fn is_alive(processes: Seq<ProcessInfo>, pid: u32) -> bool {
    exists|i: int| 0 <= i < processes.len() && (#[trigger] processes[i]).pid == pid
}

/// Whether a number is that of another live listener: a process that is one, or the process
/// that the PID file names. A file left behind by a process that is gone names nobody.
pub open spec fn is_other_pid(
    processes: Seq<ProcessInfo>,
    own: u32,
    recorded: Option<u32>,
    pid: u32,
) -> bool {
    ||| exists|i: int|
        0 <= i < processes.len() && (#[trigger] processes[i]).pid == pid && is_other(
            processes[i],
            own,
        )
    ||| recorded == Some(pid) && pid != own && is_alive(processes, pid)
}

pub open spec fn ascending(pids: Seq<u32>) -> bool {
    forall|i: int, j: int| 0 <= i < j < pids.len() ==> pids[i] < pids[j]
}

fn lowered_parts(command: &Vec<String>) -> (r: Vec<String>)
    ensures
        texts(r@) == lower_parts(texts(command@)),
{
    let mut r: Vec<String> = Vec::new();
    let mut i: usize = 0;
    while i < command.len()
        invariant
            i <= command.len(),
            r.len() == i,
            forall|j: int| 0 <= j < i ==> (#[trigger] r@[j])@ == lowercase_of(command@[j]@),
        decreases command.len() - i,
    {
        r.push(to_lowercase(command[i].as_str()));
        i = i + 1;
    }
    assert(texts(r@) =~= lower_parts(texts(command@)));
    r
}

/// Whether a command line, in lower case, is a listener's.
pub fn is_listener_command(parts: &Vec<String>) -> (r: bool)
    ensures
        r == is_listener(texts(parts@)),
{
    if !list_has(parts, "_listen") {
        return false;
    }
    let ghost all = texts(parts@);
    let mut i: usize = 0;
    while i < parts.len()
        invariant
            i <= parts.len(),
            all == texts(parts@),
            all.contains("_listen"@),
            forall|j: int| 0 <= j < i ==> !names_us(#[trigger] all[j]),
        decreases parts.len() - i,
    {
        let part = parts[i].as_str();
        assert(all[i as int] == part@);
        if contains(part, "wisper") || contains(part, "nextbase") || contains(part, "cli.js") {
            return true;
        }
        i = i + 1;
    }
    false
}

/// Puts a number into an ascending list, unless it is there.
fn add_pid(pids: &mut Vec<u32>, pid: u32)
    requires
        ascending(old(pids)@),
    ensures
        ascending(final(pids)@),
        forall|x: u32| final(pids)@.contains(x) <==> old(pids)@.contains(x) || x == pid,
{
    let ghost before = pids@;
    let mut i: usize = 0;
    while i < pids.len() && pids[i] < pid
        invariant
            i <= pids.len(),
            pids@ == before,
            forall|j: int| 0 <= j < i ==> before[j] < pid,
        decreases pids.len() - i,
    {
        i = i + 1;
    }
    if i < pids.len() && pids[i] == pid {
        assert(before[i as int] == pid);
        return;
    }
    pids.insert(i, pid);
    proof {
        let after = before.insert(i as int, pid);
        assert(pids@ == after);
        assert forall|m: int, n: int| 0 <= m < n < after.len() implies after[m] < after[n] by {
            let m0 = if m < i { m } else { m - 1 };
            let n0 = if n < i { n } else { n - 1 };
            if m != i && n != i {
                assert(before[m0] < before[n0]);
            } else if m == i {
                assert(pid < before[i as int]);
                if n0 > i {
                    assert(before[i as int] < before[n0]);
                }
            }
        }
        assert forall|x: u32| after.contains(x) <==> before.contains(x) || x == pid by {
            if before.contains(x) {
                let k = choose|k: int| 0 <= k < before.len() && before[k] == x;
                let k2 = if k < i { k } else { k + 1 };
                assert(after[k2] == x);
            }
            if x == pid {
                assert(after[i as int] == x);
            }
            if after.contains(x) && x != pid {
                let k = choose|k: int| 0 <= k < after.len() && after[k] == x;
                let k2 = if k < i { k } else { k - 1 };
                assert(before[k2] == x);
            }
        }
    }
}

fn some_process_has(processes: &Vec<ProcessInfo>, pid: u32) -> (r: bool)
    ensures
        r == is_alive(processes@, pid),
{
    let mut i: usize = 0;
    while i < processes.len()
        invariant
            i <= processes.len(),
            forall|j: int| 0 <= j < i ==> (#[trigger] processes@[j]).pid != pid,
        decreases processes.len() - i,
    {
        if processes[i].pid == pid {
            assert(processes@[i as int].pid == pid);
            return true;
        }
        i = i + 1;
    }
    false
}

/// Every other live listener, in ascending order and each once.
pub fn other_listener_pids(processes: &Vec<ProcessInfo>, own: u32, recorded: Option<u32>) -> (r: Vec<
    u32,
>)
    ensures
        ascending(r@),
        forall|pid: u32|
            r@.contains(pid) <==> #[trigger] is_other_pid(processes@, own, recorded, pid),
{
    let mut pids: Vec<u32> = Vec::new();
    let mut i: usize = 0;
    while i < processes.len()
        invariant
            i <= processes.len(),
            ascending(pids@),
            forall|pid: u32|
                pids@.contains(pid) <==> #[trigger] is_other_pid(
                    processes@.take(i as int),
                    own,
                    None,
                    pid,
                ),
        decreases processes.len() - i,
    {
        let process = &processes[i];
        let found = process.pid != own && is_listener_command(&lowered_parts(&process.command));
        assert(found == is_other(processes@[i as int], own));
        let ghost before = pids@;
        if found {
            add_pid(&mut pids, process.pid);
        }
        assert forall|pid: u32|
            pids@.contains(pid) <==> #[trigger] is_other_pid(
                processes@.take(i + 1),
                own,
                None,
                pid,
            ) by {
            let all = processes@.take(i + 1);
            let shorter = processes@.take(i as int);
            assert(before.contains(pid) <==> is_other_pid(shorter, own, None, pid));
            if is_other_pid(shorter, own, None, pid) {
                let k = choose|k: int|
                    0 <= k < shorter.len() && (#[trigger] shorter[k]).pid == pid && is_other(
                        shorter[k],
                        own,
                    );
                assert(all[k] == shorter[k]);
            }
            if found && pid == processes@[i as int].pid {
                assert(all[i as int] == processes@[i as int]);
            }
            if is_other_pid(all, own, None, pid) {
                let k = choose|k: int|
                    0 <= k < all.len() && (#[trigger] all[k]).pid == pid && is_other(all[k], own);
                if k < i {
                    assert(shorter[k] == all[k]);
                }
            }
        }
        i = i + 1;
    }
    assert(processes@.take(i as int) == processes@);
    if let Some(pid) = recorded {
        if pid != own && some_process_has(processes, pid) {
            let ghost before = pids@;
            add_pid(&mut pids, pid);
            assert forall|x: u32|
                pids@.contains(x) <==> #[trigger] is_other_pid(processes@, own, recorded, x) by {
                assert(before.contains(x) <==> is_other_pid(processes@, own, None, x));
            }
        } else {
            assert forall|x: u32|
                pids@.contains(x) <==> #[trigger] is_other_pid(processes@, own, recorded, x) by {
                assert(pids@.contains(x) <==> is_other_pid(processes@, own, None, x));
            }
        }
    }
    pids
}

/// The number that the text of a PID file gives.
pub open spec fn pid_in(text: Seq<char>) -> Option<u32> {
    match parsed(trimmed(text), u32::MAX as nat) {
        Some(n) => if n > 0 {
            Some(n as u32)
        } else {
            None
        },
        None => None,
    }
}

pub fn read_pid(text: &str) -> (r: Option<u32>)
    ensures
        r == pid_in(text@),
{
    match parse_unsigned(trim(text).as_str(), 0xffff_ffff) {
        Some(n) => if n > 0 {
            Some(n as u32)
        } else {
            None
        },
        None => None,
    }
}

pub fn listener_is_running(processes: &Vec<ProcessInfo>, own: u32, recorded: Option<u32>) -> (r: bool)
    ensures
        r == exists|pid: u32| #[trigger] is_other_pid(processes@, own, recorded, pid),
{
    let pids = other_listener_pids(processes, own, recorded);
    if pids.len() > 0 {
        assert(pids@.contains(pids@[0]));
        assert(is_other_pid(processes@, own, recorded, pids@[0]));
        true
    } else {
        assert forall|pid: u32| !#[trigger] is_other_pid(processes@, own, recorded, pid) by {
            assert(!pids@.contains(pid));
        }
        false
    }
}

/// Only a process that runs is counted: one that the PID file names and that is gone does
/// not keep a listener from starting.
pub proof fn the_dead_are_not_counted(
    processes: Seq<ProcessInfo>,
    own: u32,
    recorded: Option<u32>,
    pid: u32,
)
    ensures
        is_other_pid(processes, own, recorded, pid) ==> is_alive(processes, pid),
{
    if is_other_pid(processes, own, recorded, pid) && !(recorded == Some(pid)) {
        let i = choose|i: int|
            0 <= i < processes.len() && (#[trigger] processes[i]).pid == pid && is_other(
                processes[i],
                own,
            );
        assert(processes[i].pid == pid);
    }
}

/// A listener never counts itself among those it stops, even where the PID file names it.
pub proof fn a_listener_never_stops_itself(
    processes: Seq<ProcessInfo>,
    own: u32,
    recorded: Option<u32>,
)
    ensures
        !is_other_pid(processes, own, recorded, own),
{
}

/// A process is one of ours exactly where it was started as a listener and one of its words names
/// us.
pub proof fn a_listener_is_told_by_its_command(parts: Seq<Seq<char>>, i: int, j: int)
    requires
        0 <= i < parts.len(),
        0 <= j < parts.len(),
        parts[i] == "_listen"@,
        has(parts[j], "wisper"@) || has(parts[j], "nextbase"@) || has(parts[j], "cli.js"@),
    ensures
        is_listener(parts),
{
    assert(parts.contains("_listen"@));
    assert(names_us(parts[j]));
}

/// Without the word that starts a listener nothing is one.
pub proof fn other_commands_are_no_listeners(parts: Seq<Seq<char>>)
    requires
        !parts.contains("_listen"@),
    ensures
        !is_listener(parts),
{
}

/// The number of a process that was written down is read back.
pub proof fn a_process_number_reads_back(pid: u32)
    requires
        pid > 0,
    ensures
        pid_in(decimal(pid as nat)) == Some(pid),
{
    decimal_is_number(pid as nat);
    let digits = decimal(pid as nat);
    let ends = trimming_takes_white_space_alone(digits);
    assert forall|k: int| 0 <= k < digits.len() implies !is_space(#[trigger] digits[k]) by {
        assert(is_digit(digits[k]));
    }
    if ends.0 > 0 {
        assert(is_space(digits[0]));
    }
    if ends.1 < digits.len() {
        assert(is_space(digits[digits.len() - 1]));
    }
    assert(digits.subrange(0, digits.len() as int) =~= digits);
}

} // verus!
