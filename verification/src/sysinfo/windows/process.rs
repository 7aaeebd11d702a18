//! The processes of a Windows system: how the process query is retried with a larger
//! buffer, how the chain of its entries is walked, and how each process is named.
use vstd::prelude::*;
use std::collections::HashMap;
use crate::sysinfo::error::{Error, InnerError};
use crate::sysinfo::process::Pid;
use crate::sysinfo::windows::text::{utf16_lossy, utf16_text};
use crate::text::{chars_of, contains, contains_chars, decimal, decimal_chars, push_str, string_of};
use crate::sysinfo::procfs::chars_eq;

verus! {

broadcast use vstd::std_specs::hash::group_hash_axioms;

/// The status with which the process query asks for a larger buffer.
pub const STATUS_INFO_LENGTH_MISMATCH: i32 = -1073741820i32;

/// What to do after a process query.
#[derive(Debug, Clone, Copy, PartialEq, Eq, Structural)]
pub enum QueryStep {
    /// The query failed.
    Failed,
    /// The buffer holds the entries.
    Parse,
    /// Ask again with a buffer of this size.
    Retry(usize),
}

/// The step after a query of a buffer of `size` bytes that answered `status` and `needed`:
/// a status other than the length mismatch ends the queries, failed where negative; on a
/// mismatch the buffer doubles where the query named no size, and takes the named size
/// and 10 KiB more otherwise.
pub open spec fn step_after(status: i32, needed: u32, size: usize) -> QueryStep {
    if status != STATUS_INFO_LENGTH_MISMATCH {
        if status < 0 {
            QueryStep::Failed
        } else {
            QueryStep::Parse
        }
    } else if needed == 0 {
        QueryStep::Retry((size * 2) as usize)
    } else {
        QueryStep::Retry((needed + 10240) as usize)
    }
}

/// Decides `step_after`.
pub fn next_step(status: i32, needed: u32, size: usize) -> (r: QueryStep)
    requires
        status == STATUS_INFO_LENGTH_MISMATCH && needed == 0 ==> size * 2 <= usize::MAX,
        status == STATUS_INFO_LENGTH_MISMATCH && needed != 0 ==> needed + 10240 <= u32::MAX,
    ensures
        r == step_after(status, needed, size),
{
    if status != STATUS_INFO_LENGTH_MISMATCH {
        if status < 0 {
            QueryStep::Failed
        } else {
            QueryStep::Parse
        }
    } else if needed == 0 {
        QueryStep::Retry(size * 2)
    } else {
        QueryStep::Retry((needed + 10240) as usize)
    }
}

/// The little-endian `u32` at byte `at` of `buf`.
pub open spec fn u32_at(buf: Seq<u8>, at: int) -> int {
    buf[at] + buf[at + 1] * 256 + buf[at + 2] * 65536 + buf[at + 3] * 16777216
}

/// The offsets of the entries chained from offset `at`: each entry starts with the
/// distance to the next one, zero for the last. `None` where a distance leads out of the
/// buffer.
pub open spec fn entry_chain(buf: Seq<u8>, at: int) -> Option<Seq<int>>
    decreases buf.len() - at,
{
    if at < 0 || at + 4 > buf.len() {
        None
    } else if u32_at(buf, at) == 0 {
        Some(seq![at])
    } else if at + u32_at(buf, at) + 4 > buf.len() {
        None
    } else {
        match entry_chain(buf, at + u32_at(buf, at)) {
            None => None,
            Some(rest) => Some(seq![at] + rest),
        }
    }
}

/// The offsets of the entries of a query buffer, from the first; `None` where the chain
/// leads out of the buffer.
pub fn entry_offsets(buf: &[u8]) -> (r: Option<Vec<usize>>)
    ensures
        match entry_chain(buf@, 0) {
            None => r is None,
            Some(offs) => r matches Some(v) && v@.len() == offs.len() && forall|i: int|
                0 <= i < v@.len() ==> v@[i] == offs[i],
        },
{
    let mut out: Vec<usize> = Vec::new();
    let mut at: usize = 0;
    let ghost mut done: Seq<int> = Seq::empty();
    loop
        invariant
            at <= buf@.len(),
            out@.len() == done.len(),
            forall|i: int| 0 <= i < out@.len() ==> out@[i] == done[i],
            entry_chain(buf@, 0) == match entry_chain(buf@, at as int) {
                None => None,
                Some(rest) => Some(done + rest),
            },
        decreases buf@.len() - at,
    {
        if buf.len() < 4 || at > buf.len() - 4 {
            return None;
        }
        let next: u32 = buf[at] as u32 + buf[at + 1] as u32 * 256 + buf[at + 2] as u32 * 65536
            + buf[at + 3] as u32 * 16777216;
        assert(next == u32_at(buf@, at as int));
        out.push(at);
        proof {
            done = done.push(at as int);
        }
        if next == 0 {
            assert(done =~= done.subrange(0, done.len() - 1) + seq![at as int]);
            return Some(out);
        }
        if next as usize > buf.len() - 4 - at {
            return None;
        }
        proof {
            let d0 = done.subrange(0, done.len() - 1);
            assert(done =~= d0.push(at as int));
            match entry_chain(buf@, at + next) {
                None => {},
                Some(rest) => {
                    assert(d0 + (seq![at as int] + rest) =~= done + rest);
                },
            }
        }
        at = at + next as usize;
    }
}

/// The debug text of a process id: `Pid(n)`.
pub open spec fn pid_debug(pid: usize) -> Seq<char> {
    "Pid("@ + decimal(pid as nat) + ")"@
}

/// The name of process `pid` whose image name is `image`: the decoded image name; without
/// one, `Idle` for process 0, `System` for process 4, and `<no name> Process Pid(n)`
/// otherwise.
pub open spec fn process_name_of(pid: usize, image: Option<Seq<u16>>) -> Seq<char> {
    match image {
        Some(u) => utf16_text(u),
        None => if pid == 0 {
            "Idle"@
        } else if pid == 4 {
            "System"@
        } else {
            "<no name> Process "@ + pid_debug(pid)
        },
    }
}

/// The code units of an image name, where there is one.
pub open spec fn image_view(image: Option<Vec<u16>>) -> Option<Seq<u16>> {
    match image {
        Some(u) => Some(u@),
        None => None,
    }
}

/// The name of process `pid` whose image name is `image`.
pub fn process_name(pid: usize, image: &Option<Vec<u16>>) -> (r: String)
    ensures
        r@ == process_name_of(pid, image_view(*image)),
{
    match image {
        Some(u) => utf16_lossy(u.as_slice()),
        None => {
            if pid == 0 {
                "Idle".to_owned()
            } else if pid == 4 {
                "System".to_owned()
            } else {
                let mut v = chars_of("<no name> Process ");
                push_str(&mut v, "Pid(");
                let digits = decimal_chars(pid as u64);
                crate::text::push_all(&mut v, digits.as_slice());
                push_str(&mut v, ")");
                proof {
                    reveal_strlit("<no name> Process ");
                    reveal_strlit("Pid(");
                    reveal_strlit(")");
                }
                assert(v@ =~= "<no name> Process "@ + pid_debug(pid));
                string_of(v.as_slice())
            }
        },
    }
}

/// An entry of the process query: the process id and the image name, where it has one.
#[derive(Debug, Clone)]
pub struct ProcessEntry {
    pub pid: usize,
    pub image: Option<Vec<u16>>,
}

/// A process: its name and id.
#[derive(Debug)]
pub struct Process {
    name: String,
    pid: Pid,
}

/// The view of a process: its name and id.
pub struct ProcessView {
    pub name: Seq<char>,
    pub pid: usize,
}

impl View for Process {
    type V = ProcessView;

    closed spec fn view(&self) -> ProcessView {
        ProcessView { name: self.name@, pid: self.pid.0 }
    }
}

impl Process {
    /// The name of the process.
    pub fn name(&self) -> (r: &str)
        ensures
            r@ == self@.name,
    {
        self.name.as_str()
    }

    /// The id of the process.
    pub fn pid(&self) -> (r: &Pid)
        ensures
            r.0 == self@.pid,
    {
        &self.pid
    }
}

/// The process of an entry.
pub open spec fn entry_process(e: ProcessEntry) -> ProcessView {
    ProcessView { name: process_name_of(e.pid, image_view(e.image)), pid: e.pid }
}

/// The processes of the first `n` entries, each id taken from its first entry.
pub open spec fn process_table(es: Seq<ProcessEntry>, n: int) -> Map<usize, ProcessView>
    decreases n,
{
    if n <= 0 {
        Map::empty()
    } else {
        let m = process_table(es, n - 1);
        if m.contains_key(es[n - 1].pid) {
            m
        } else {
            m.insert(es[n - 1].pid, entry_process(es[n - 1]))
        }
    }
}

/// The views of a table of processes.
pub open spec fn table_view(m: Map<usize, Process>) -> Map<usize, ProcessView> {
    m.map_values(|p: Process| p@)
}

/// The processes of the system, keyed by process id.
pub struct ProcessesInfo {
    processes: HashMap<usize, Process>,
}

fn read_entries(entries: &Vec<ProcessEntry>) -> (r: HashMap<usize, Process>)
    ensures
        table_view(r@) == process_table(entries@, entries@.len() as int),
{
    let mut m: HashMap<usize, Process> = HashMap::new();
    let mut i: usize = 0;
    assert(table_view(m@) =~= Map::empty());
    while i < entries.len()
        invariant
            i <= entries@.len(),
            table_view(m@) == process_table(entries@, i as int),
        decreases entries.len() - i,
    {
        let pid = entries[i].pid;
        if !m.contains_key(&pid) {
            let name = process_name(pid, &entries[i].image);
            let ghost old_m = m@;
            let p = Process { name, pid: Pid(pid) };
            let ghost pv = p@;
            m.insert(pid, p);
            assert(table_view(m@) =~= table_view(old_m).insert(pid, pv));
        }
        i = i + 1;
    }
    m
}

impl ProcessesInfo {
    /// The processes, keyed by process id.
    pub closed spec fn table(&self) -> Map<usize, ProcessView> {
        table_view(self.processes@)
    }

    /// The processes of the entries of a query, each id taken from its first entry.
    pub fn new(entries: &Vec<ProcessEntry>) -> (r: Result<Self, Error>)
        ensures
            r matches Ok(info) && info.table() == process_table(entries@, entries@.len() as int),
    {
        Ok(ProcessesInfo { processes: read_entries(entries) })
    }

    /// Replaces the processes with those of the entries of a newer query.
    pub fn update(&mut self, entries: &Vec<ProcessEntry>) -> (r: Result<(), Error>)
        ensures
            r is Ok,
            final(self).table() == process_table(entries@, entries@.len() as int),
    {
        self.processes = read_entries(entries);
        Ok(())
    }

    /// The processes, keyed by process id.
    pub fn processes(&self) -> (r: &HashMap<usize, Process>)
        ensures
            table_view(r@) == self.table(),
    {
        &self.processes
    }

    /// The process with id `pid`.
    pub fn process(&self, pid: &Pid) -> (r: Option<&Process>)
        ensures
            match r {
                Some(p) => self.table().contains_key(pid.0) && p@ == self.table()[pid.0],
                None => !self.table().contains_key(pid.0),
            },
    {
        self.processes.get(&pid.0)
    }

    /// The processes whose name contains `name`.
    pub fn processes_by_name(&self, name: &str) -> (r: Vec<&Process>)
        ensures
            forall|k: int|
                0 <= k < r@.len() ==> self.table().values().contains(#[trigger] r@[k]@) && contains(
                    r@[k]@.name,
                    name@,
                ),
            forall|pid: usize|
                self.table().contains_key(pid) && contains(self.table()[pid].name, name@)
                    ==> exists|k: int| 0 <= k < r@.len() && r@[k]@ == self.table()[pid],
    {
        self.select(name, false)
    }

    /// The processes whose name is `name`.
    pub fn processes_by_exact_name(&self, name: &str) -> (r: Vec<&Process>)
        ensures
            forall|k: int|
                0 <= k < r@.len() ==> self.table().values().contains(#[trigger] r@[k]@) && r@[k]@.name
                    == name@,
            forall|pid: usize|
                self.table().contains_key(pid) && self.table()[pid].name == name@ ==> exists|
                    k: int,
                | 0 <= k < r@.len() && r@[k]@ == self.table()[pid],
    {
        self.select(name, true)
    }

    fn select(&self, name: &str, exact: bool) -> (r: Vec<&Process>)
        ensures
            forall|k: int|
                0 <= k < r@.len() ==> self.table().values().contains(#[trigger] r@[k]@)
                    && crate::sysinfo::process::matches_name(r@[k]@.name, name@, exact),
            forall|pid: usize|
                self.table().contains_key(pid) && crate::sysinfo::process::matches_name(
                    self.table()[pid].name,
                    name@,
                    exact,
                ) ==> exists|k: int| 0 <= k < r@.len() && r@[k]@ == self.table()[pid],
    {
        let pat = chars_of(name);
        let mut out: Vec<&Process> = Vec::new();
        let ghost m = self.processes@;
        for p in it: self.processes.values()
            invariant
                m == self.processes@,
                pat@ == name@,
                it.seq().unref().to_set() == m.values(),
                forall|k: int|
                    0 <= k < out@.len() ==> m.values().contains(*out@[k])
                        && crate::sysinfo::process::matches_name(out@[k]@.name, name@, exact),
                forall|j: int|
                    0 <= j < it.index() && crate::sysinfo::process::matches_name(
                        (*it.seq()[j])@.name,
                        name@,
                        exact,
                    ) ==> exists|k: int| 0 <= k < out@.len() && *out@[k] == *it.seq()[j],
                it.index() == it.seq().len() ==> forall|pid: usize|
                    m.contains_key(pid) && crate::sysinfo::process::matches_name(
                        m[pid]@.name,
                        name@,
                        exact,
                    ) ==> exists|k: int| 0 <= k < out@.len() && *out@[k] == m[pid],
        {
            let pn = chars_of(p.name.as_str());
            let keep = if exact {
                chars_eq(pn.as_slice(), pat.as_slice())
            } else {
                contains_chars(pn.as_slice(), pat.as_slice())
            };
            let ghost idx = it.index();
            let ghost old_out = out@;
            assert(*it.seq()[idx] == *p);
            if keep {
                out.push(p);
            }
            assert forall|j: int|
                0 <= j < idx + 1 && crate::sysinfo::process::matches_name(
                    (*it.seq()[j])@.name,
                    name@,
                    exact,
                ) implies exists|k: int| 0 <= k < out@.len() && *out@[k] == *it.seq()[j] by {
                if j == idx {
                    assert(*out@[out@.len() - 1] == *it.seq()[j]);
                } else {
                    let k = choose|k: int| 0 <= k < old_out.len() && *old_out[k] == *it.seq()[j];
                    assert(out@[k] == old_out[k]);
                }
            }
            assert forall|pid: usize|
                idx + 1 == it.seq().len() && m.contains_key(pid)
                    && crate::sysinfo::process::matches_name(
                    m[pid]@.name,
                    name@,
                    exact,
                ) implies exists|k: int| 0 <= k < out@.len() && *out@[k] == m[pid] by {
                assert(m.values().contains(m[pid]));
                assert(it.seq().unref().to_set().contains(m[pid]));
                assert(it.seq().unref().contains(m[pid]));
                let j = choose|j: int|
                    0 <= j < it.seq().unref().len() && it.seq().unref()[j] == m[pid];
                assert(*it.seq()[j] == m[pid]);
            }
        }
        proof {
            assert forall|k: int| 0 <= k < out@.len() implies self.table().values().contains(
                #[trigger] out@[k]@,
            ) by {
                let pid = choose|pid: usize| m.contains_key(pid) && m[pid] == *out@[k];
                assert(self.table().contains_key(pid));
                assert(self.table()[pid] == out@[k]@);
            }
        }
        out
    }
}

/// Each process is filed under its own id, and its name follows the naming rule of its
/// first entry.
pub proof fn law_processes_keyed_by_pid(es: Seq<ProcessEntry>, n: int)
    ensures
        forall|pid: usize| #[trigger]
            process_table(es, n).contains_key(pid) ==> process_table(es, n)[pid].pid == pid,
    decreases n,
{
    if n > 0 {
        law_processes_keyed_by_pid(es, n - 1);
        let m = process_table(es, n - 1);
        assert forall|pid: usize| #[trigger]
            process_table(es, n).contains_key(pid) implies process_table(es, n)[pid].pid == pid by {
            if pid != es[n - 1].pid {
                assert(m.contains_key(pid));
            }
        }
    }
}

/// A query that asks for a larger buffer without naming a size gets one twice as large.
pub proof fn law_retry_grows(size: usize)
    requires
        0 < size,
        size * 2 <= usize::MAX,
    ensures
        step_after(STATUS_INFO_LENGTH_MISMATCH, 0, size) matches QueryStep::Retry(s) && s > size,
{
}

/// The entries chained from offset `at` start there, each lies within the buffer with room
/// for its link, each next one is as far on as the little-endian 32-bit number at the
/// start of the one before says (never zero), and the last one's number is zero.
pub proof fn law_entry_chain(buf: Seq<u8>, at: int)
    ensures
        entry_chain(buf, at) matches Some(o) ==> {
            &&& o.len() >= 1
            &&& o[0] == at
            &&& forall|i: int| 0 <= i < o.len() ==> 0 <= #[trigger] o[i] && o[i] + 4 <= buf.len()
            &&& forall|i: int|
                #![trigger o[i]]
                0 <= i < o.len() - 1 ==> {
                    let d = buf[o[i]] + buf[o[i] + 1] * 256 + buf[o[i] + 2] * 65536 + buf[o[i]
                        + 3] * 16777216;
                    d != 0 && o[i + 1] == o[i] + d
                }
            &&& buf[o.last()] == 0 && buf[o.last() + 1] == 0 && buf[o.last() + 2] == 0
                && buf[o.last() + 3] == 0
        },
    decreases buf.len() - at,
{
    if at >= 0 && at + 4 <= buf.len() && u32_at(buf, at) != 0 && at + u32_at(buf, at) + 4
        <= buf.len() {
        law_entry_chain(buf, at + u32_at(buf, at));
        if let Some(o) = entry_chain(buf, at) {
            let rest = entry_chain(buf, at + u32_at(buf, at))->Some_0;
            assert(o == seq![at] + rest);
            assert forall|i: int| 0 <= i < o.len() implies 0 <= #[trigger] o[i] && o[i] + 4
                <= buf.len() by {
                if i > 0 {
                    assert(o[i] == rest[i - 1]);
                }
            }
            assert forall|i: int| #![trigger o[i]] 0 <= i < o.len() - 1 implies {
                let d = buf[o[i]] + buf[o[i] + 1] * 256 + buf[o[i] + 2] * 65536 + buf[o[i] + 3]
                    * 16777216;
                d != 0 && o[i + 1] == o[i] + d
            } by {
                if i > 0 {
                    assert(o[i] == rest[i - 1]);
                    assert(o[i + 1] == rest[i]);
                } else {
                    assert(o[0] == at);
                    assert(o[1] == rest[0]);
                    assert(rest[0] == at + u32_at(buf, at));
                }
            }
            assert(o.last() == rest.last());
        }
    } else if at >= 0 && at + 4 <= buf.len() && u32_at(buf, at) == 0 {
        assert(buf[at] == 0 && buf[at + 1] == 0 && buf[at + 2] == 0 && buf[at + 3] == 0) by (
        nonlinear_arith)
            requires
                0 <= buf[at] < 256,
                0 <= buf[at + 1] < 256,
                0 <= buf[at + 2] < 256,
                0 <= buf[at + 3] < 256,
                buf[at] + buf[at + 1] * 256 + buf[at + 2] * 65536 + buf[at + 3] * 16777216 == 0,
        ;
    }
}

} // verus!
