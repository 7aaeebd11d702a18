//! Processes, read from `/proc/<pid>/stat`, `/proc/<pid>/status`,
//! `/proc/<pid>/limits` and `/proc/<pid>/cgroup`.
use vstd::prelude::*;
use std::collections::HashMap;
use vstd::std_specs::iter::IteratorSpec;
use crate::text::{
    chars_of, find_from, find_from_chars, is_ascii_char, parse_char, parse_char_chars, parse_uint,
    parse_uint_chars, pieces_view, push_all, push_str, rfind, rfind_char, slice_to_vec, split_ws,
    split_ws_chars, string_of, CharErrorKind, IntErrorKind,
};
use crate::sysinfo::error::{
    char_error_debug, char_error_debug_str, int_error_debug, int_error_debug_str, read_error,
    read_error_text, strs_view, Error, InnerError,
};
use crate::sysinfo::procfs::{
    entries, entries_view, field_view, find_line, find_line_from, gather_fields, gathered,
    key_value_entries, lookup, lookup_entry, Field, last_with_key, lemma_gathered_values,
    lemma_lookup_last,
};
use crate::text::{is_ws, last_index_before, lemma_last_index_bounds, lemma_last_index_suffix, lemma_split_ws_lead};
use crate::text::{lines, lines_chars, split, split_chars, trim, trim_chars, decimal, decimal_chars, occurs_at};

verus! {

/// A process identifier.
#[derive(Debug, Copy, Clone, Hash, PartialEq, Eq)]
pub struct Pid(pub usize);

impl Pid {
    /// Creates a `Pid`.
    pub fn new(pid: usize) -> (r: Self)
        ensures
            r.0 == pid,
    {
        Pid(pid)
    }
}

/// State of a process, as the third field of `/proc/<pid>/stat` gives it.
#[derive(Debug, Clone, Copy, PartialEq, Eq)]
pub enum Status {
    Dead,
    Idle,
    Parked,
    Running,
    Sleeping,
    Stopped,
    Tracing,
    Waiting,
    Wakekill,
    Waking,
    Zombie,
}

/// The state that a state letter stands for.
pub open spec fn status_of(c: char) -> Option<Status> {
    if c == 'D' {
        Some(Status::Waiting)
    } else if c == 'I' {
        Some(Status::Idle)
    } else if c == 'K' {
        Some(Status::Wakekill)
    } else if c == 'P' {
        Some(Status::Parked)
    } else if c == 'R' {
        Some(Status::Running)
    } else if c == 'S' {
        Some(Status::Sleeping)
    } else if c == 'T' {
        Some(Status::Stopped)
    } else if c == 't' {
        Some(Status::Tracing)
    } else if c == 'W' {
        Some(Status::Waking)
    } else if c == 'X' || c == 'x' {
        Some(Status::Dead)
    } else if c == 'Z' {
        Some(Status::Zombie)
    } else {
        None
    }
}

/// Text of an unknown state letter.
pub open spec fn unknown_state_text(c: char) -> Seq<char> {
    "Unknown process state "@.push(c)
}

impl Status {
    /// The state that the letter `value` stands for.
    pub fn try_from(value: char) -> (r: Result<Status, Error>)
        ensures
            match r {
                Ok(s) => status_of(value) == Some(s),
                Err(e) => e matches Error::Internal(InnerError::ReadError(m)) && m@
                    == unknown_state_text(value) && status_of(value) is None,
            },
    {
        match value {
            'D' => Ok(Status::Waiting),
            'I' => Ok(Status::Idle),
            'K' => Ok(Status::Wakekill),
            'P' => Ok(Status::Parked),
            'R' => Ok(Status::Running),
            'S' => Ok(Status::Sleeping),
            'T' => Ok(Status::Stopped),
            't' => Ok(Status::Tracing),
            'W' => Ok(Status::Waking),
            'X' | 'x' => Ok(Status::Dead),
            'Z' => Ok(Status::Zombie),
            _ => {
                let mut m: Vec<char> = Vec::new();
                push_str(&mut m, "Unknown process state ");
                m.push(value);
                proof {
                    reveal_strlit("Unknown process state ");
                }
                Err(Error::Internal(InnerError::ReadError(string_of(m.as_slice()))))
            },
        }
    }
}

/// The fields of a process's stat file.
pub struct StatView {
    pub pid: int,
    pub name: Seq<char>,
    pub state: Status,
    pub ppid: int,
    pub utime: int,
    pub stime: int,
    pub cutime: int,
    pub cstime: int,
    pub start_time: int,
}

/// Why a stat file cannot be read.
pub enum StatError {
    /// The file has no space (`LenSizeError`).
    TooShort,
    /// A read error with this text.
    Read(Seq<char>),
}

/// What reading a stat file gives.
pub enum StatOutcome {
    Parsed(StatView),
    Failed(StatError),
    /// The file cannot be sliced where the reader slices it.
    Unsliceable,
}

/// The number in the `k`-th word, or the text of its read error labelled `label`.
pub open spec fn stat_number(words: Seq<Seq<char>>, k: int, label: Seq<char>) -> Result<int, Seq<char>> {
    match parse_uint(words[k], u64::MAX as int) {
        Ok(v) => Ok(v),
        Err(e) => Err(read_error_text(label, words[k], int_error_debug(e))),
    }
}

/// The fields after the command name, given as words.
pub open spec fn stat_words(pid: int, name: Seq<char>, words: Seq<Seq<char>>) -> StatOutcome {
    match parse_char(words[0]) {
        Err(k) => StatOutcome::Failed(
            StatError::Read(read_error_text("status"@, words[0], char_error_debug(k))),
        ),
        Ok(c) => match status_of(c) {
            None => StatOutcome::Failed(StatError::Read(unknown_state_text(c))),
            Some(state) => match stat_number(words, 1, "ppid"@) {
                Err(t) => StatOutcome::Failed(StatError::Read(t)),
                Ok(ppid) => match stat_number(words, 11, "utime"@) {
                    Err(t) => StatOutcome::Failed(StatError::Read(t)),
                    Ok(utime) => match stat_number(words, 12, "stime"@) {
                        Err(t) => StatOutcome::Failed(StatError::Read(t)),
                        Ok(stime) => match stat_number(words, 13, "cutime"@) {
                            Err(t) => StatOutcome::Failed(StatError::Read(t)),
                            Ok(cutime) => match stat_number(words, 14, "cstime"@) {
                                Err(t) => StatOutcome::Failed(StatError::Read(t)),
                                Ok(cstime) => match stat_number(words, 19, "start_time"@) {
                                    Err(t) => StatOutcome::Failed(StatError::Read(t)),
                                    Ok(start_time) => StatOutcome::Parsed(
                                        StatView {
                                            pid,
                                            name,
                                            state,
                                            ppid,
                                            utime,
                                            stime,
                                            cutime,
                                            cstime,
                                            start_time,
                                        },
                                    ),
                                },
                            },
                        },
                    },
                },
            },
        },
    }
}

/// The stat file can be sliced around the command name: its first character is one
/// byte long, the name is not empty of its opening bracket, and the closing bracket is
/// followed by a one-byte character.
pub open spec fn comm_sliceable(left: Seq<char>, ce: int) -> bool {
    ce >= 1 && is_ascii_char(left[0]) && ce + 1 < left.len() && is_ascii_char(left[ce + 1])
}

/// Text of a stat file with too few fields.
pub open spec fn too_few_fields_text(stat: Seq<char>) -> Seq<char> {
    "Parts for status and ppid len less than 20, stat file is "@ + stat + "."@
}

/// What reading the stat file `stat` gives: the process id before the first space, the
/// command name between the bracket after it and the last `)`, and the fields after
/// that as whitespace-separated words.
pub open spec fn stat_outcome(stat: Seq<char>) -> StatOutcome {
    let i = find_from(stat, seq![' '], 0);
    if i < 0 {
        StatOutcome::Failed(StatError::TooShort)
    } else {
        let first = stat.subrange(0, i);
        let left = stat.subrange(i + 1, stat.len() as int);
        match parse_uint(first, usize::MAX as int) {
            Err(k) => StatOutcome::Failed(
                StatError::Read(read_error_text("pid"@, first, int_error_debug(k))),
            ),
            Ok(pid) => {
                let ce = rfind(left, ')');
                if ce < 0 {
                    StatOutcome::Failed(
                        StatError::Read(read_error_text(")"@, first, "Kind(InvalidData)"@)),
                    )
                } else if !comm_sliceable(left, ce) {
                    StatOutcome::Unsliceable
                } else {
                    let words = split_ws(left.subrange(ce + 2, left.len() as int));
                    if words.len() < 20 {
                        StatOutcome::Failed(StatError::Read(too_few_fields_text(stat)))
                    } else {
                        stat_words(pid, left.subrange(1, ce), words)
                    }
                }
            },
        }
    }
}

/// The stat file can be read without a panic: it can be sliced, and the sum of the
/// four times fits in 64 bits.
pub open spec fn stat_readable(stat: Seq<char>) -> bool {
    match stat_outcome(stat) {
        StatOutcome::Unsliceable => false,
        StatOutcome::Parsed(v) => v.utime + v.stime + v.cutime + v.cstime <= u64::MAX,
        StatOutcome::Failed(_) => true,
    }
}

/// A process as its stat file describes it.
#[derive(Debug, Clone, PartialEq, Eq)]
pub struct Process {
    pid: Pid,
    name: String,
    state: Status,
    ppid: u64,
    utime: u64,
    stime: u64,
    cutime: u64,
    cstime: u64,
    start_time: u64,
    total_time: u64,
}

/// The fields of a process.
pub struct ProcessView {
    pub pid: int,
    pub name: Seq<char>,
    pub state: Status,
    pub ppid: int,
    pub utime: int,
    pub stime: int,
    pub cutime: int,
    pub cstime: int,
    pub start_time: int,
    pub total_time: int,
}

impl View for Process {
    type V = ProcessView;

    closed spec fn view(&self) -> ProcessView {
        ProcessView {
            pid: self.pid.0 as int,
            name: self.name@,
            state: self.state,
            ppid: self.ppid as int,
            utime: self.utime as int,
            stime: self.stime as int,
            cutime: self.cutime as int,
            cstime: self.cstime as int,
            start_time: self.start_time as int,
            total_time: self.total_time as int,
        }
    }
}

/// The process that stat fields describe; its total time is the sum of the four times.
pub open spec fn process_of(v: StatView) -> ProcessView {
    ProcessView {
        pid: v.pid,
        name: v.name,
        state: v.state,
        ppid: v.ppid,
        utime: v.utime,
        stime: v.stime,
        cutime: v.cutime,
        cstime: v.cstime,
        start_time: v.start_time,
        total_time: v.utime + v.stime + v.cutime + v.cstime,
    }
}

fn stat_number_exec(words: &Vec<Vec<char>>, k: usize, label: &str) -> (r: Result<u64, Error>)
    requires
        k < words@.len(),
    ensures
        match r {
            Ok(v) => stat_number(pieces_view(words@), k as int, label@) == Ok::<int, Seq<char>>(
                v as int,
            ),
            Err(e) => e matches Error::Internal(InnerError::ReadError(m)) && stat_number(
                pieces_view(words@),
                k as int,
                label@,
            ) == Err::<int, Seq<char>>(m@),
        },
{
    assert(pieces_view(words@)[k as int] == words@[k as int]@);
    match parse_uint_chars(words[k].as_slice(), u64::MAX) {
        Ok(v) => Ok(v),
        Err(e) => {
            let w = string_of(words[k].as_slice());
            Err(read_error(label, w.as_str(), int_error_debug_str(e)))
        },
    }
}

impl Process {
    /// Reads process `pid` from the content of its stat file `/proc/<pid>/stat`.
    pub fn from_pid(pid: u64, stat: &str) -> (r: Result<Process, Error>)
        requires
            stat_readable(stat@),
        ensures
            match r {
                Ok(p) => stat_outcome(stat@) matches StatOutcome::Parsed(v) && p@ == process_of(v),
                Err(e) => match stat_outcome(stat@) {
                    StatOutcome::Failed(StatError::TooShort) => e matches Error::Internal(
                        InnerError::LenSizeError,
                    ),
                    StatOutcome::Failed(StatError::Read(t)) => e matches Error::Internal(
                        InnerError::ReadError(m),
                    ) && m@ == t,
                    _ => false,
                },
            },
    {
        let content = chars_of(stat);
        let space: Vec<char> = vec![' '];
        assert(space@ =~= seq![' ']);
        let i = match find_from_chars(content.as_slice(), space.as_slice(), 0) {
            None => {
                return Err(Error::Internal(InnerError::LenSizeError));
            },
            Some(i) => i,
        };
        proof {
            crate::text::lemma_find_from_found(content@, space@, 0);
        }
        assert(i < content.len());
        let first = slice_to_vec(content.as_slice(), 0, i);
        let left = slice_to_vec(content.as_slice(), i + 1, content.len());
        let first_s = string_of(first.as_slice());
        let pid_value = match parse_uint_chars(first.as_slice(), usize::MAX as u64) {
            Err(k) => {
                return Err(read_error("pid", first_s.as_str(), int_error_debug_str(k)));
            },
            Ok(v) => v as usize,
        };
        let ce = match rfind_char(left.as_slice(), ')') {
            None => {
                return Err(read_error(")", first_s.as_str(), "Kind(InvalidData)"));
            },
            Some(ce) => ce,
        };
        let name = slice_to_vec(left.as_slice(), 1, ce);
        let rest = slice_to_vec(left.as_slice(), ce + 2, left.len());
        let words = split_ws_chars(rest.as_slice());
        if words.len() < 20 {
            let mut m: Vec<char> = Vec::new();
            push_str(&mut m, "Parts for status and ppid len less than 20, stat file is ");
            push_str(&mut m, stat);
            push_str(&mut m, ".");
            proof {
                reveal_strlit("Parts for status and ppid len less than 20, stat file is ");
                reveal_strlit(".");
            }
            return Err(Error::Internal(InnerError::ReadError(string_of(m.as_slice()))));
        }
        assert(pieces_view(words@)[0] == words@[0]@);
        let c = match parse_char_chars(words[0].as_slice()) {
            Err(k) => {
                let w = string_of(words[0].as_slice());
                return Err(read_error("status", w.as_str(), char_error_debug_str(k)));
            },
            Ok(c) => c,
        };
        let state = Status::try_from(c)?;
        let ppid = stat_number_exec(&words, 1, "ppid")?;
        let utime = stat_number_exec(&words, 11, "utime")?;
        let stime = stat_number_exec(&words, 12, "stime")?;
        let cutime = stat_number_exec(&words, 13, "cutime")?;
        let cstime = stat_number_exec(&words, 14, "cstime")?;
        let start_time = stat_number_exec(&words, 19, "start_time")?;
        proof {
            reveal_strlit("ppid");
            reveal_strlit("utime");
            reveal_strlit("stime");
            reveal_strlit("cutime");
            reveal_strlit("cstime");
            reveal_strlit("start_time");
            reveal_strlit("status");
        }
        let total_time = utime + stime + cutime + cstime;
        Ok(
            Process {
                pid: Pid::new(pid_value),
                name: string_of(name.as_slice()),
                state,
                ppid,
                utime,
                stime,
                cutime,
                cstime,
                start_time,
                total_time,
            },
        )
    }

    /// Whether a stat file can be read by `from_pid`: it can be sliced around the command
    /// name, and the sum of its four times fits in 64 bits.
    pub fn is_readable(stat: &str) -> (b: bool)
        ensures
            b == stat_readable(stat@),
    {
        let content = chars_of(stat);
        let space: Vec<char> = vec![' '];
        assert(space@ =~= seq![' ']);
        let i = match find_from_chars(content.as_slice(), space.as_slice(), 0) {
            None => {
                return true;
            },
            Some(i) => i,
        };
        proof {
            crate::text::lemma_find_from_found(content@, space@, 0);
        }
        assert(i < content.len());
        let first = slice_to_vec(content.as_slice(), 0, i);
        let left = slice_to_vec(content.as_slice(), i + 1, content.len());
        match parse_uint_chars(first.as_slice(), usize::MAX as u64) {
            Err(_) => {
                return true;
            },
            Ok(_) => {},
        }
        let ce = match rfind_char(left.as_slice(), ')') {
            None => {
                return true;
            },
            Some(ce) => ce,
        };
        if !(ce >= 1 && (left[0] as u32) < 128 && ce + 1 < left.len() && (left[ce + 1] as u32)
            < 128) {
            return false;
        }
        let rest = slice_to_vec(left.as_slice(), ce + 2, left.len());
        let words = split_ws_chars(rest.as_slice());
        if words.len() < 20 {
            return true;
        }
        assert(pieces_view(words@)[0] == words@[0]@);
        match parse_char_chars(words[0].as_slice()) {
            Err(_) => {
                return true;
            },
            Ok(c) => match Status::try_from(c) {
                Err(_) => {
                    return true;
                },
                Ok(_) => {},
            },
        }
        proof {
            reveal_strlit("ppid");
            reveal_strlit("utime");
            reveal_strlit("stime");
            reveal_strlit("cutime");
            reveal_strlit("cstime");
            reveal_strlit("start_time");
            reveal_strlit("status");
        }
        match stat_number_exec(&words, 1, "ppid") {
            Err(_) => {
                return true;
            },
            Ok(_) => {},
        }
        let utime = match stat_number_exec(&words, 11, "utime") {
            Err(_) => {
                return true;
            },
            Ok(v) => v,
        };
        let stime = match stat_number_exec(&words, 12, "stime") {
            Err(_) => {
                return true;
            },
            Ok(v) => v,
        };
        let cutime = match stat_number_exec(&words, 13, "cutime") {
            Err(_) => {
                return true;
            },
            Ok(v) => v,
        };
        let cstime = match stat_number_exec(&words, 14, "cstime") {
            Err(_) => {
                return true;
            },
            Ok(v) => v,
        };
        match stat_number_exec(&words, 19, "start_time") {
            Err(_) => {
                return true;
            },
            Ok(_) => {},
        }
        (utime as u128) + (stime as u128) + (cutime as u128) + (cstime as u128) <= u64::MAX as u128
    }

    /// Gets the name of the process.
    pub fn name(&self) -> (r: &str)
        ensures
            r@ == self@.name,
    {
        self.name.as_str()
    }

    /// Gets the pid of the process.
    pub fn pid(&self) -> (r: &Pid)
        ensures
            r.0 == self@.pid,
    {
        &self.pid
    }

    /// Gets the state of the process.
    pub fn state(&self) -> (r: Status)
        ensures
            r == self@.state,
    {
        self.state
    }

    /// Gets the pid of the parent process.
    pub fn ppid(&self) -> (r: u64)
        ensures
            r == self@.ppid,
    {
        self.ppid
    }

    /// Gets the time spent in user mode, in clock ticks.
    pub fn utime(&self) -> (r: u64)
        ensures
            r == self@.utime,
    {
        self.utime
    }

    /// Gets the time spent in kernel mode, in clock ticks.
    pub fn stime(&self) -> (r: u64)
        ensures
            r == self@.stime,
    {
        self.stime
    }

    /// Gets the time that waited-for children spent in user mode, in clock ticks.
    pub fn cutime(&self) -> (r: u64)
        ensures
            r == self@.cutime,
    {
        self.cutime
    }

    /// Gets the time that waited-for children spent in kernel mode, in clock ticks.
    pub fn cstime(&self) -> (r: u64)
        ensures
            r == self@.cstime,
    {
        self.cstime
    }

    /// Gets the time the process started after boot, in clock ticks.
    pub fn start_time(&self) -> (r: u64)
        ensures
            r == self@.start_time,
    {
        self.start_time
    }

    /// Gets the sum of the four times, in clock ticks.
    pub fn total_time(&self) -> (r: u64)
        ensures
            r == self@.total_time,
    {
        self.total_time
    }
}

/// Parent, thread count and owner of a process, read from its status file.
#[derive(Clone, Copy, Debug)]
pub struct StatusFile {
    ppid: u64,
    threads: u64,
    uid: u64,
    gid: u64,
}

/// The field `key` of a status file, whose value is the number itself.
pub open spec fn status_number_field(es: Seq<(Seq<char>, Seq<char>)>, key: Seq<char>) -> Option<
    Result<int, IntErrorKind>,
> {
    match lookup(es, key) {
        None => None,
        Some(c) => Some(parse_uint(c, u64::MAX as int)),
    }
}

/// The field `key` of a status file, whose number is before the first tab.
pub open spec fn status_id_field(es: Seq<(Seq<char>, Seq<char>)>, key: Seq<char>) -> Option<
    Result<int, IntErrorKind>,
> {
    match lookup(es, key) {
        None => None,
        Some(c) => Some(parse_uint(trim(split(c, '\t')[0]), u64::MAX as int)),
    }
}

/// What reading a status file gives: `PPid`, `Threads`, `Uid` and `Gid`, or the text
/// of the error.
pub open spec fn status_fields(status: Seq<char>) -> Result<Seq<int>, Seq<char>> {
    let es = entries(status);
    gathered(
        seq![
            status_number_field(es, "PPid"@),
            status_number_field(es, "Threads"@),
            status_id_field(es, "Uid"@),
            status_id_field(es, "Gid"@),
        ],
        seq!["PPid"@, "Threads"@, "Uid"@, "Gid"@],
        "status"@,
        seq!["PPid"@, "Threads"@, "Uid"@, "Gid"@],
        "status"@,
    )
}

fn status_number_field_exec(es: &Vec<(Vec<char>, Vec<char>)>, key: &str) -> (f: Field)
    ensures
        field_view(f) == status_number_field(entries_view(es@), key@),
{
    let k = chars_of(key);
    match lookup_entry(es, k.as_slice()) {
        None => None,
        Some(c) => Some(parse_uint_chars(c.as_slice(), u64::MAX)),
    }
}

fn status_id_field_exec(es: &Vec<(Vec<char>, Vec<char>)>, key: &str) -> (f: Field)
    ensures
        field_view(f) == status_id_field(entries_view(es@), key@),
{
    let k = chars_of(key);
    match lookup_entry(es, k.as_slice()) {
        None => None,
        Some(c) => {
            let p = split_chars(c.as_slice(), '\t');
            assert(pieces_view(p@)[0] == p@[0]@);
            let t = trim_chars(p[0].as_slice());
            Some(parse_uint_chars(t.as_slice(), u64::MAX))
        },
    }
}

impl StatusFile {
    /// The parent process id.
    pub closed spec fn parent(&self) -> u64 {
        self.ppid
    }

    /// The number of threads.
    pub closed spec fn thread_count(&self) -> u64 {
        self.threads
    }

    /// The real user id.
    pub closed spec fn user(&self) -> u64 {
        self.uid
    }

    /// The real group id.
    pub closed spec fn group(&self) -> u64 {
        self.gid
    }

    /// Reads the status of process `pid` from the content of `/proc/<pid>/status`.
    pub fn from_pid(pid: u64, status: &str) -> (r: Result<StatusFile, Error>)
        ensures
            match r {
                Ok(f) => status_fields(status@) matches Ok(v) && f.parent() == v[0]
                    && f.thread_count() == v[1] && f.user() == v[2] && f.group() == v[3],
                Err(e) => status_fields(status@) matches Err(t) && e matches Error::Internal(
                    InnerError::ReadError(m),
                ) && m@ == t,
            },
    {
        let content = chars_of(status);
        let es = key_value_entries(content.as_slice());
        let mut fs: Vec<Field> = Vec::new();
        fs.push(status_number_field_exec(&es, "PPid"));
        fs.push(status_number_field_exec(&es, "Threads"));
        fs.push(status_id_field_exec(&es, "Uid"));
        fs.push(status_id_field_exec(&es, "Gid"));
        let mut keys: Vec<&str> = Vec::new();
        keys.push("PPid");
        keys.push("Threads");
        keys.push("Uid");
        keys.push("Gid");
        proof {
            let es_s = entries(status@);
            assert(fs@.map_values(|f: Field| field_view(f)) =~= seq![
                status_number_field(es_s, "PPid"@),
                status_number_field(es_s, "Threads"@),
                status_id_field(es_s, "Uid"@),
                status_id_field(es_s, "Gid"@),
            ]);
            assert(strs_view(keys@) =~= seq!["PPid"@, "Threads"@, "Uid"@, "Gid"@]);
        }
        let values = gather_fields(&fs, &keys, "status", &keys, "status")?;
        proof {
            let v = status_fields(status@)->Ok_0;
            assert(values@.map_values(|x: u64| x as int) == v);
            assert(v[0] == values@[0] as int);
            assert(v[1] == values@[1] as int);
            assert(v[2] == values@[2] as int);
            assert(v[3] == values@[3] as int);
        }
        Ok(StatusFile { ppid: values[0], threads: values[1], uid: values[2], gid: values[3] })
    }

    /// The parent process id.
    pub fn ppid(&self) -> (r: u64)
        ensures
            r == self.parent(),
    {
        self.ppid
    }

    /// The number of threads.
    pub fn threads(&self) -> (r: u64)
        ensures
            r == self.thread_count(),
    {
        self.threads
    }

    /// The real user id.
    pub fn uid(&self) -> (r: u64)
        ensures
            r == self.user(),
    {
        self.uid
    }

    /// The real group id.
    pub fn gid(&self) -> (r: u64)
        ensures
            r == self.group(),
    {
        self.gid
    }
}

/// Resource limits of a process, read from its limits file.
#[derive(Clone, Copy, Debug)]
pub struct Limits {
    max_stack_size: u64,
    max_processes: u64,
    max_open_files: u64,
}

/// Indices of the `Max stack size`, `Max processes` and `Max open files` lines of a
/// limits file, each searched after the one before (-1 where the search fails).
pub open spec fn limits_lines(limits: Seq<char>) -> (int, int, int) {
    let ls = lines(limits);
    let a = find_line(ls, "Max stack size"@, 0);
    let b = find_line(ls, "Max processes"@, a + 1);
    let c = find_line(ls, "Max open files"@, b + 1);
    (a, b, c)
}

/// The limits file holds the three lines in order, as reading it needs.
pub open spec fn limits_complete(limits: Seq<char>) -> bool {
    let (a, b, c) = limits_lines(limits);
    a >= 0 && b >= 0 && c >= 0
}

/// The soft limit on a limits line: its word number `index` (empty when there is none).
pub open spec fn limit_word(line: Seq<char>, index: int) -> Seq<char> {
    if split_ws(line).len() > index {
        trim(split_ws(line)[index])
    } else {
        Seq::empty()
    }
}

/// What reading a limits file of process `pid` gives: the open files, processes and
/// stack size limits, or the text of the error.
pub open spec fn limits_fields(limits: Seq<char>, pid: u64) -> Result<Seq<int>, Seq<char>> {
    let ls = lines(limits);
    let (a, b, c) = limits_lines(limits);
    let part = decimal(pid as nat);
    gathered(
        seq![
            Some(parse_uint(limit_word(ls[c], 3), u64::MAX as int)),
            Some(parse_uint(limit_word(ls[b], 2), u64::MAX as int)),
            Some(parse_uint(limit_word(ls[a], 3), u64::MAX as int)),
        ],
        seq!["max_open_files"@, "max_processes"@, "max_stack_size"@],
        "limits"@,
        seq![part, part, part],
        "limits"@,
    )
}

fn limit_word_chars(line: &[char], index: usize) -> (w: Vec<char>)
    ensures
        w@ == limit_word(line@, index as int),
{
    let ws = split_ws_chars(line);
    if ws.len() > index {
        assert(pieces_view(ws@)[index as int] == ws@[index as int]@);
        trim_chars(ws[index].as_slice())
    } else {
        Vec::new()
    }
}

fn limits_line_indices(limits: &str) -> (r: (Option<usize>, Option<usize>, Option<usize>, Vec<Vec<char>>))
    ensures
        pieces_view(r.3@) == lines(limits@),
        r.0 matches Some(a) ==> a == limits_lines(limits@).0 && a < r.3@.len(),
        r.0 is None ==> limits_lines(limits@).0 == -1,
        r.0 is Some ==> (r.1 matches Some(b) ==> b == limits_lines(limits@).1 && b < r.3@.len()),
        r.0 is Some ==> (r.1 is None ==> limits_lines(limits@).1 == -1),
        r.1 is Some ==> (r.2 matches Some(c) ==> c == limits_lines(limits@).2 && c < r.3@.len()),
        r.1 is Some ==> (r.2 is None ==> limits_lines(limits@).2 == -1),
{
    let content = chars_of(limits);
    let ls = lines_chars(content.as_slice());
    let n = ls.len();
    match find_line_from(&ls, "Max stack size", 0) {
        None => (None, None, None, ls),
        Some(a) => {
            assert(a < n);
            match find_line_from(&ls, "Max processes", a + 1) {
                None => (Some(a), None, None, ls),
                Some(b) => {
                    assert(b < n);
                    let c = find_line_from(&ls, "Max open files", b + 1);
                    (Some(a), Some(b), c, ls)
                },
            }
        },
    }
}

impl Limits {
    /// Decides `limits_complete`: whether the content of a limits file can be read.
    pub fn is_complete(limits: &str) -> (b: bool)
        ensures
            b == limits_complete(limits@),
    {
        let (a, b, c, _) = limits_line_indices(limits);
        a.is_some() && b.is_some() && c.is_some()
    }

    /// The soft limit of the stack size.
    pub closed spec fn stack(&self) -> u64 {
        self.max_stack_size
    }

    /// The soft limit of the number of processes.
    pub closed spec fn processes(&self) -> u64 {
        self.max_processes
    }

    /// The soft limit of the number of open files.
    pub closed spec fn open_files(&self) -> u64 {
        self.max_open_files
    }

    /// Reads the limits of process `pid` from the content of `/proc/<pid>/limits`.
    pub fn from_pid(pid: u64, limits: &str) -> (r: Result<Limits, Error>)
        requires
            limits_complete(limits@),
        ensures
            match r {
                Ok(l) => limits_fields(limits@, pid) matches Ok(v) && l.open_files() == v[0]
                    && l.processes() == v[1] && l.stack() == v[2],
                Err(e) => limits_fields(limits@, pid) matches Err(t) && e matches Error::Internal(
                    InnerError::ReadError(m),
                ) && m@ == t,
            },
    {
        let (a, b, c, ls) = limits_line_indices(limits);
        let a = a.unwrap();
        let b = b.unwrap();
        let c = c.unwrap();
        assert(pieces_view(ls@)[a as int] == ls@[a as int]@);
        assert(pieces_view(ls@)[b as int] == ls@[b as int]@);
        assert(pieces_view(ls@)[c as int] == ls@[c as int]@);
        let wc = limit_word_chars(ls[c].as_slice(), 3);
        let wb = limit_word_chars(ls[b].as_slice(), 2);
        let wa = limit_word_chars(ls[a].as_slice(), 3);
        let mut fs: Vec<Field> = Vec::new();
        fs.push(Some(parse_uint_chars(wc.as_slice(), u64::MAX)));
        fs.push(Some(parse_uint_chars(wb.as_slice(), u64::MAX)));
        fs.push(Some(parse_uint_chars(wa.as_slice(), u64::MAX)));
        let mut keys: Vec<&str> = Vec::new();
        keys.push("max_open_files");
        keys.push("max_processes");
        keys.push("max_stack_size");
        let pid_text = string_of(decimal_chars(pid).as_slice());
        let mut parts: Vec<&str> = Vec::new();
        parts.push(pid_text.as_str());
        parts.push(pid_text.as_str());
        parts.push(pid_text.as_str());
        proof {
            let ls_s = lines(limits@);
            assert(fs@.map_values(|f: Field| field_view(f)) =~= seq![
                Some(parse_uint(limit_word(ls_s[c as int], 3), u64::MAX as int)),
                Some(parse_uint(limit_word(ls_s[b as int], 2), u64::MAX as int)),
                Some(parse_uint(limit_word(ls_s[a as int], 3), u64::MAX as int)),
            ]);
            assert(strs_view(keys@) =~= seq!["max_open_files"@, "max_processes"@, "max_stack_size"@]);
            let part = decimal(pid as nat);
            assert(strs_view(parts@) =~= seq![part, part, part]);
        }
        let values = gather_fields(&fs, &keys, "limits", &parts, "limits")?;
        proof {
            let v = limits_fields(limits@, pid)->Ok_0;
            assert(values@.map_values(|x: u64| x as int) == v);
            assert(v[0] == values@[0] as int);
            assert(v[1] == values@[1] as int);
            assert(v[2] == values@[2] as int);
        }
        Ok(Limits { max_open_files: values[0], max_processes: values[1], max_stack_size: values[2] })
    }

    /// The soft limit of the stack size.
    pub fn max_stack_size(&self) -> (r: u64)
        ensures
            r == self.stack(),
    {
        self.max_stack_size
    }

    /// The soft limit of the number of processes.
    pub fn max_processes(&self) -> (r: u64)
        ensures
            r == self.processes(),
    {
        self.max_processes
    }

    /// The soft limit of the number of open files.
    pub fn max_open_files(&self) -> (r: u64)
        ensures
            r == self.open_files(),
    {
        self.max_open_files
    }
}

/// The pids control group of a process, read from its cgroup file.
#[derive(Clone, Debug)]
pub struct Cgroup {
    pid_cgroup: String,
}

/// The index of the first line that names the pids controller, or -1.
pub open spec fn pids_line(cgroup: Seq<char>) -> int {
    find_line(lines(cgroup), ":pids:"@, 0)
}

/// The cgroup file names the pids controller, as reading it needs.
pub open spec fn cgroup_complete(cgroup: Seq<char>) -> bool {
    pids_line(cgroup) >= 0
}

/// The piece of `line` between its first `:pids:` and the next one (or its end).
pub open spec fn after_pids(line: Seq<char>) -> Seq<char> {
    let i = find_from(line, ":pids:"@, 0);
    let j = find_from(line, ":pids:"@, i + 6);
    if j >= 0 {
        line.subrange(i + 6, j)
    } else {
        line.subrange(i + 6, line.len() as int)
    }
}

/// The group of a pids line: the last `/`-separated piece after `:pids:`.
pub open spec fn pids_group(line: Seq<char>) -> Seq<char> {
    split(after_pids(line), '/').last()
}

impl Cgroup {
    /// Decides `cgroup_complete`.
    pub fn is_complete(cgroup: &str) -> (b: bool)
        ensures
            b == cgroup_complete(cgroup@),
    {
        let content = chars_of(cgroup);
        let ls = lines_chars(content.as_slice());
        find_line_from(&ls, ":pids:", 0).is_some()
    }

    /// The group name.
    pub closed spec fn group(&self) -> Seq<char> {
        self.pid_cgroup@
    }

    /// Reads the pids control group of process `pid` from the content of
    /// `/proc/<pid>/cgroup`.
    pub fn from_pid(pid: u64, cgroup: &str) -> (r: Result<Cgroup, Error>)
        requires
            cgroup_complete(cgroup@),
        ensures
            r matches Ok(g) && g.group() == pids_group(lines(cgroup@)[pids_line(cgroup@)]),
    {
        let content = chars_of(cgroup);
        let ls = lines_chars(content.as_slice());
        let k = find_line_from(&ls, ":pids:", 0).unwrap();
        assert(pieces_view(ls@)[k as int] == ls@[k as int]@);
        let line = ls[k].as_slice();
        let pat = chars_of(":pids:");
        proof {
            reveal_strlit(":pids:");
            crate::text::lemma_find_from_found(line@, pat@, 0);
            let w = choose|w: int| occurs_at(line@, pat@, w);
            assert(occurs_at(line@, pat@, w));
        }
        let i = find_from_chars(line, pat.as_slice(), 0).unwrap();
        assert(i + 6 <= line.len());
        proof {
            crate::text::lemma_find_from_found(line@, pat@, i + 6);
        }
        let piece = match find_from_chars(line, pat.as_slice(), i + 6) {
            Some(j) => slice_to_vec(line, i + 6, j),
            None => slice_to_vec(line, i + 6, line.len()),
        };
        let parts = split_chars(piece.as_slice(), '/');
        let last = parts.len() - 1;
        assert(pieces_view(parts@)[last as int] == parts@[last as int]@);
        Ok(Cgroup { pid_cgroup: string_of(parts[last].as_slice()) })
    }

    /// The pids control group.
    pub fn pid_cgroup(&self) -> (r: &str)
        ensures
            r@ == self.group(),
    {
        self.pid_cgroup.as_str()
    }
}

/// The processes of the system, keyed by process id.
pub struct ProcessesInfo {
    processes: HashMap<usize, Process>,
}

/// The stat file at `i` is the first of the list for its process id.
pub open spec fn first_of_pid(stats: Seq<(usize, String)>, i: int) -> bool {
    forall|j: int| 0 <= j < i ==> stats[j].0 != stats[i].0
}

/// The processes that a list of stat files gives: one for each process id, read from
/// the first file listed for it.
pub open spec fn processes_of(stats: Seq<(usize, String)>, m: Map<usize, Process>) -> bool {
    &&& forall|i: int| 0 <= i < stats.len() ==> m.contains_key(#[trigger] stats[i].0)
    &&& forall|pid: usize|
        #[trigger] m.contains_key(pid) ==> exists|i: int|
            0 <= i < stats.len() && stats[i].0 == pid && first_of_pid(stats, i) && (
            stat_outcome(stats[i].1@) matches StatOutcome::Parsed(v) && m[pid]@ == process_of(v))
}

/// Every stat file of the list can be read without a panic.
pub open spec fn stats_readable(stats: Seq<(usize, String)>) -> bool {
    forall|i: int| 0 <= i < stats.len() ==> stat_readable(#[trigger] stats[i].1@)
}

/// The stat file has a value.
pub open spec fn stat_parsed(stat: Seq<char>) -> bool {
    stat_outcome(stat) is Parsed
}

fn read_processes(stats: &Vec<(usize, String)>) -> (r: Result<HashMap<usize, Process>, Error>)
    requires
        stats_readable(stats@),
    ensures
        match r {
            Ok(m) => processes_of(stats@, m@) && forall|i: int|
                0 <= i < stats@.len() ==> stat_parsed(#[trigger] stats@[i].1@),
            Err(_) => exists|i: int| 0 <= i < stats@.len() && !stat_parsed(#[trigger] stats@[i].1@),
        },
{
    broadcast use vstd::std_specs::hash::group_hash_axioms;

    let mut m: HashMap<usize, Process> = HashMap::new();
    let mut i: usize = 0;
    while i < stats.len()
        invariant
            i <= stats@.len(),
            stats_readable(stats@),
            processes_of(stats@.subrange(0, i as int), m@),
            forall|j: int| 0 <= j < i ==> stat_parsed(#[trigger] stats@[j].1@),
        decreases stats.len() - i,
    {
        let pid = stats[i].0;
        assert(stat_readable(stats@[i as int].1@));
        let p = match Process::from_pid(pid as u64, stats[i].1.as_str()) {
            Ok(p) => p,
            Err(e) => {
                assert(!stat_parsed(stats@[i as int].1@));
                return Err(e);
            },
        };
        let ghost before = stats@.subrange(0, i as int);
        let ghost after = stats@.subrange(0, i + 1);
        assert(after.drop_last() =~= before);
        if !m.contains_key(&pid) {
            let ghost old_m = m@;
            let ghost pv = p@;
            m.insert(pid, p);
            assert(m@[pid]@ == pv);
            assert(first_of_pid(after, i as int)) by {
                assert forall|j: int| 0 <= j < i implies after[j].0 != after[i as int].0 by {
                    assert(before[j] == after[j]);
                    assert(old_m.contains_key(before[j].0));
                }
            }
            assert forall|pid2: usize| #[trigger] m@.contains_key(pid2) implies exists|k: int|
                0 <= k < after.len() && after[k].0 == pid2 && first_of_pid(after, k) && (
                stat_outcome(after[k].1@) matches StatOutcome::Parsed(v) && m@[pid2]@
                    == process_of(v)) by {
                if pid2 == pid {
                    assert(after[i as int].0 == pid2);
                    assert(stat_outcome(after[i as int].1@) matches StatOutcome::Parsed(v) && m@[
                        pid2]@ == process_of(v));
                } else {
                    assert(old_m.contains_key(pid2));
                    assert(m@[pid2] == old_m[pid2]);
                    let k = choose|k: int|
                        0 <= k < before.len() && before[k].0 == pid2 && first_of_pid(before, k)
                            && (stat_outcome(before[k].1@) matches StatOutcome::Parsed(v)
                            && old_m[pid2]@ == process_of(v));
                    assert(after[k] == before[k]);
                    assert(first_of_pid(after, k));
                }
            }
        } else {
            assert forall|pid2: usize| #[trigger] m@.contains_key(pid2) implies exists|k: int|
                0 <= k < after.len() && after[k].0 == pid2 && first_of_pid(after, k) && (
                stat_outcome(after[k].1@) matches StatOutcome::Parsed(v) && m@[pid2]@
                    == process_of(v)) by {
                let k = choose|k: int|
                    0 <= k < before.len() && before[k].0 == pid2 && first_of_pid(before, k) && (
                    stat_outcome(before[k].1@) matches StatOutcome::Parsed(v) && m@[pid2]@
                        == process_of(v));
                assert(after[k] == before[k]);
                assert(first_of_pid(after, k));
            }
        }
        assert forall|j: int| 0 <= j < after.len() implies m@.contains_key(#[trigger] after[j].0) by {
            if j < i {
                assert(after[j] == before[j]);
            }
        }
        i = i + 1;
    }
    assert(stats@.subrange(0, stats@.len() as int) =~= stats@);
    Ok(m)
}

impl ProcessesInfo {
    /// Reads the processes of the system from the contents of their stat files, given
    /// with their process ids. The first file listed for an id is read.
    pub fn new(stats: &Vec<(usize, String)>) -> (r: Result<Self, Error>)
        requires
            stats_readable(stats@),
        ensures
            match r {
                Ok(info) => processes_of(stats@, info.table()) && forall|i: int|
                    0 <= i < stats@.len() ==> stat_parsed(#[trigger] stats@[i].1@),
                Err(_) => exists|i: int|
                    0 <= i < stats@.len() && !stat_parsed(#[trigger] stats@[i].1@),
            },
    {
        let processes = read_processes(stats)?;
        Ok(ProcessesInfo { processes })
    }

    /// Replaces the processes with those read from the contents of their stat files; on
    /// an error they are left as they were.
    pub fn update(&mut self, stats: &Vec<(usize, String)>) -> (r: Result<(), Error>)
        requires
            stats_readable(stats@),
        ensures
            match r {
                Ok(()) => processes_of(stats@, final(self).table()) && forall|i: int|
                    0 <= i < stats@.len() ==> stat_parsed(#[trigger] stats@[i].1@),
                Err(_) => final(self).table() == old(self).table() && exists|i: int|
                    0 <= i < stats@.len() && !stat_parsed(#[trigger] stats@[i].1@),
            },
    {
        let processes = read_processes(stats)?;
        self.processes = processes;
        Ok(())
    }

    /// The processes, keyed by process id.
    pub closed spec fn table(&self) -> Map<usize, Process> {
        self.processes@
    }

    /// Returns the table of processes.
    pub fn processes(&self) -> (r: &HashMap<usize, Process>)
        ensures
            r@ == self.table(),
    {
        &self.processes
    }

    /// Finds the process with the given pid.
    pub fn process(&self, pid: &Pid) -> (r: Option<&Process>)
        ensures
            match r {
                Some(p) => self.table().contains_key(pid.0) && *p == self.table()[pid.0],
                None => !self.table().contains_key(pid.0),
            },
    {
        broadcast use vstd::std_specs::hash::group_hash_axioms;

        self.processes.get(&pid.0)
    }

    /// Returns the processes whose name contains `name`.
    pub fn processes_by_name(&self, name: &str) -> (r: Vec<&Process>)
        ensures
            forall|k: int|
                0 <= k < r@.len() ==> self.table().values().contains(*r@[k])
                    && crate::text::contains(r@[k]@.name, name@),
            forall|pid: usize|
                self.table().contains_key(pid) && crate::text::contains(
                    self.table()[pid]@.name,
                    name@,
                ) ==> exists|k: int| 0 <= k < r@.len() && *r@[k] == self.table()[pid],
            drawn_once(self.table(), r@),
    {
        self.select(name, false)
    }

    /// Returns the processes whose name is `name`.
    pub fn processes_by_exact_name(&self, name: &str) -> (r: Vec<&Process>)
        ensures
            forall|k: int|
                0 <= k < r@.len() ==> self.table().values().contains(*r@[k]) && r@[k]@.name
                    == name@,
            forall|pid: usize|
                self.table().contains_key(pid) && self.table()[pid]@.name == name@ ==> exists|
                    k: int,
                | 0 <= k < r@.len() && *r@[k] == self.table()[pid],
            drawn_once(self.table(), r@),
    {
        self.select(name, true)
    }

    fn select(&self, name: &str, exact: bool) -> (r: Vec<&Process>)
        ensures
            forall|k: int|
                0 <= k < r@.len() ==> self.table().values().contains(*r@[k]) && matches_name(
                    r@[k]@.name,
                    name@,
                    exact,
                ),
            forall|pid: usize|
                self.table().contains_key(pid) && matches_name(self.table()[pid]@.name, name@, exact)
                    ==> exists|k: int| 0 <= k < r@.len() && *r@[k] == self.table()[pid],
            drawn_once(self.table(), r@),
    {
        broadcast use vstd::std_specs::hash::group_hash_axioms;

        let pat = chars_of(name);
        let mut out: Vec<&Process> = Vec::new();
        let ghost m = self.processes@;
        let ghost mut ks: Seq<usize> = Seq::empty();
        let ghost mut js: Seq<int> = Seq::empty();
        for pair in it: self.processes.iter()
            invariant
                m == self.processes@,
                pat@ == name@,
                it.seq() == self.processes.iter().remaining(),
                it.seq().no_duplicates(),
                ks.len() == out@.len(),
                ks.no_duplicates(),
                forall|a: int|
                    0 <= a < ks.len() ==> m.contains_key(#[trigger] ks[a]) && *out@[a] == m[ks[a]]
                        && matches_name(m[ks[a]]@.name, name@, exact),
                js.len() == ks.len(),
                forall|a: int|
                    0 <= a < ks.len() ==> 0 <= #[trigger] js[a] < it.index() && *it.seq()[js[a]].0
                        == ks[a],
                forall|j: int|
                    0 <= j < it.index() && matches_name((*it.seq()[j].1)@.name, name@, exact)
                        ==> exists|a: int| 0 <= a < ks.len() && ks[a] == *it.seq()[j].0,
                it.index() == it.seq().len() ==> forall|pid: usize|
                    m.contains_key(pid) && matches_name(m[pid]@.name, name@, exact) ==> exists|
                        a: int,
                    | 0 <= a < ks.len() && ks[a] == pid,
        {
            let ghost idx = it.index();
            let ghost old_ks = ks;
            let ghost old_out = out@;
            let (key, p) = pair;
            assert(it.seq()[idx] == pair);
            assert(m.contains_key(*key) && m[*key] == *p);
            let pn = chars_of(p.name.as_str());
            let keep = if exact {
                crate::sysinfo::procfs::chars_eq(pn.as_slice(), pat.as_slice())
            } else {
                crate::text::contains_chars(pn.as_slice(), pat.as_slice())
            };
            if keep {
                proof {
                    assert forall|a: int| 0 <= a < old_ks.len() implies old_ks[a] != *key by {
                        let j = js[a];
                        if old_ks[a] == *key {
                            assert(m[*it.seq()[j].0] == *it.seq()[j].1);
                            assert(it.seq()[j] == it.seq()[idx]);
                        }
                    }
                    assert(matches_name((*p)@.name, name@, exact));
                    ks = ks.push(*key);
                    js = js.push(idx);
                }
                out.push(p);
            }
            proof {
                assert forall|a: int| 0 <= a < ks.len() implies 0 <= #[trigger] js[a] < idx + 1
                    && *it.seq()[js[a]].0 == ks[a] by {
                    if a < old_ks.len() {
                        assert(ks[a] == old_ks[a]);
                    }
                }
                assert forall|j: int|
                    0 <= j < idx + 1 && matches_name((*it.seq()[j].1)@.name, name@, exact)
                        implies exists|a: int| 0 <= a < ks.len() && ks[a] == *it.seq()[j].0 by {
                    if j == idx {
                        assert(ks[ks.len() - 1] == *it.seq()[j].0);
                    } else {
                        let a = choose|a: int| 0 <= a < old_ks.len() && old_ks[a] == *it.seq()[j].0;
                        assert(ks[a] == old_ks[a]);
                    }
                }
                assert forall|a: int| 0 <= a < ks.len() implies m.contains_key(#[trigger] ks[a])
                    && *out@[a] == m[ks[a]] && matches_name(m[ks[a]]@.name, name@, exact) by {
                    if a < old_ks.len() {
                        assert(ks[a] == old_ks[a] && out@[a] == old_out[a]);
                    } else {
                        assert(ks[a] == *key && out@[a] == p);
                    }
                }
                let v = self.processes.iter().remaining();
                assert forall|pid: usize|
                    idx + 1 == it.seq().len() && m.contains_key(pid) && matches_name(
                        m[pid]@.name,
                        name@,
                        exact,
                    ) implies exists|a: int| 0 <= a < ks.len() && ks[a] == pid by {
                    assert(v.contains((&pid, &m[pid])));
                    let j = choose|j: int| 0 <= j < v.len() && v[j] == (&pid, &m[pid]);
                    assert(matches_name((*it.seq()[j].1)@.name, name@, exact));
                }
            }
        }
        proof {
            assert forall|k: int| 0 <= k < out@.len() implies m.values().contains(*out@[k])
                && matches_name(out@[k]@.name, name@, exact) by {
                assert(m.contains_key(ks[k]));
                assert(*out@[k] == m[ks[k]]);
            }
            assert forall|pid: usize|
                m.contains_key(pid) && matches_name(m[pid]@.name, name@, exact) implies exists|k: int|
                0 <= k < out@.len() && *out@[k] == m[pid] by {
                let a = choose|a: int| 0 <= a < ks.len() && ks[a] == pid;
                assert(*out@[a] == m[pid]);
            }
            assert(drawn_by(m, out@, ks));
        }
        out
    }
}

/// The entries of `r` are the processes of the ids `ks` in `table`, each id once.
pub open spec fn drawn_by(table: Map<usize, Process>, r: Seq<&Process>, ks: Seq<usize>) -> bool {
    ks.len() == r.len() && ks.no_duplicates() && forall|a: int|
        0 <= a < ks.len() ==> table.contains_key(#[trigger] ks[a]) && *r[a] == table[ks[a]]
}

/// Each entry of `r` is the process of its own id in `table`: no process is drawn twice.
pub open spec fn drawn_once(table: Map<usize, Process>, r: Seq<&Process>) -> bool {
    exists|ks: Seq<usize>| #[trigger] drawn_by(table, r, ks)
}

/// The name matches: equals `pat` when `exact`, contains it otherwise.
pub open spec fn matches_name(name: Seq<char>, pat: Seq<char>, exact: bool) -> bool {
    if exact {
        name == pat
    } else {
        crate::text::contains(name, pat)
    }
}

/// Whether `c` is a numeric character, as `char::is_numeric` tells it.
pub uninterp spec fn numeric(c: char) -> bool;

/// `char::is_numeric`.
#[verifier::external_body]
fn char_is_numeric(c: char) -> (b: bool)
    ensures
        b == numeric(c),
{
    c.is_numeric()
}

/// Whether an entry of `/proc` is named after a process: its name starts with a numeric
/// character.
pub open spec fn is_pid_name(name: Seq<char>) -> bool {
    name.len() > 0 && numeric(name[0])
}

/// The texts of a list of strings.
pub open spec fn texts(v: Seq<String>) -> Seq<Seq<char>> {
    v.map_values(|x: String| x@)
}

/// The names among `names` that are named after a process, in order.
pub open spec fn pid_names_of(names: Seq<Seq<char>>) -> Seq<Seq<char>>
    decreases names.len(),
{
    if names.len() == 0 {
        Seq::empty()
    } else {
        let rest = pid_names_of(names.drop_last());
        if is_pid_name(names.last()) {
            rest.push(names.last())
        } else {
            rest
        }
    }
}

/// The names of the entries of `/proc` that are named after processes, in order.
pub fn pid_names(names: Vec<String>) -> (r: Vec<String>)
    ensures
        texts(r@) == pid_names_of(texts(names@)),
{
    let mut out: Vec<String> = Vec::new();
    let mut i: usize = 0;
    while i < names.len()
        invariant
            i <= names@.len(),
            texts(out@) == pid_names_of(texts(names@).take(i as int)),
        decreases names.len() - i,
    {
        let ghost before = out@;
        let text = chars_of(names[i].as_str());
        let keep = text.len() > 0 && char_is_numeric(text[0]);
        assert(texts(names@).take(i + 1).drop_last() =~= texts(names@).take(i as int));
        if keep {
            out.push(names[i].clone());
            assert(texts(out@) =~= texts(before).push(names@[i as int]@));
        }
        i = i + 1;
    }
    assert(texts(names@).take(names@.len() as int) =~= texts(names@));
    out
}

/// The whitespace-separated words of a stat file after its last `)`, the one that closes
/// the command name: field 3 of proc(5) (the state) and those after it.
pub open spec fn words_after_comm(stat: Seq<char>) -> Seq<Seq<char>> {
    split_ws(stat.subrange(rfind(stat, ')') + 1, stat.len() as int))
}

/// A process read from a stat file whose command name is closed by `)` and whitespace has
/// the id written before the first space and the name between the bracket after it and
/// the last `)`; its parent id, user, system, children's user and children's system times
/// and start time are the numbers in words 1, 11, 12, 13, 14 and 19 after the command
/// name (fields 4, 14, 15, 16, 17 and 22 of proc(5)), and its total time is the sum of the
/// four times.
pub proof fn law_stat_fields(stat: Seq<char>, p: ProcessView)
    requires
        stat_outcome(stat) matches StatOutcome::Parsed(v) && p == process_of(v),
        is_ws(stat[rfind(stat, ')') + 1]),
    ensures
        ({
            let i = find_from(stat, seq![' '], 0);
            &&& parse_uint(stat.subrange(0, i), usize::MAX as int) == Ok::<int, IntErrorKind>(p.pid)
            &&& p.name == stat.subrange(i + 2, rfind(stat, ')'))
        }),
        ({
            let w = words_after_comm(stat);
            &&& w.len() >= 20
            &&& parse_uint(w[1], u64::MAX as int) == Ok::<int, IntErrorKind>(p.ppid)
            &&& parse_uint(w[11], u64::MAX as int) == Ok::<int, IntErrorKind>(p.utime)
            &&& parse_uint(w[12], u64::MAX as int) == Ok::<int, IntErrorKind>(p.stime)
            &&& parse_uint(w[13], u64::MAX as int) == Ok::<int, IntErrorKind>(p.cutime)
            &&& parse_uint(w[14], u64::MAX as int) == Ok::<int, IntErrorKind>(p.cstime)
            &&& parse_uint(w[19], u64::MAX as int) == Ok::<int, IntErrorKind>(p.start_time)
        }),
        p.total_time == p.utime + p.stime + p.cutime + p.cstime,
{
    let i = find_from(stat, seq![' '], 0);
    let left = stat.subrange(i + 1, stat.len() as int);
    let ce = rfind(left, ')');
    assert(i >= 0);
    crate::text::lemma_find_from_found(stat, seq![' '], 0);
    lemma_last_index_bounds(left, ')', left.len() as int);
    lemma_last_index_suffix(stat, ')', i + 1, left.len() as int);
    let k = rfind(stat, ')');
    assert(k == ce + i + 1);
    let tail = left.subrange(ce + 2, left.len() as int);
    assert(stat.subrange(k + 1, stat.len() as int) =~= seq![stat[k + 1]] + tail);
    lemma_split_ws_lead(stat[k + 1], tail);
    assert(words_after_comm(stat) == split_ws(tail));
    assert(left.subrange(1, ce) =~= stat.subrange(i + 2, k));
}

/// Limits read from a limits file are its soft limits, the numbers in the Soft Limit
/// column: the fourth whitespace-separated word of the first `Max stack size` line, the
/// third word of the first `Max processes` line after it, and the fourth word of the first
/// `Max open files` line after that.
pub proof fn law_limits_soft_column(limits: Seq<char>, pid: u64, l: Limits)
    requires
        limits_fields(limits, pid) matches Ok(v) && l.open_files() == v[0] && l.processes()
            == v[1] && l.stack() == v[2],
    ensures
        ({
            let ls = lines(limits);
            let a = find_line(ls, "Max stack size"@, 0);
            let b = find_line(ls, "Max processes"@, a + 1);
            let c = find_line(ls, "Max open files"@, b + 1);
            &&& split_ws(ls[c]).len() > 3
            &&& parse_uint(trim(split_ws(ls[c])[3]), u64::MAX as int) == Ok::<int, IntErrorKind>(
                l.open_files() as int,
            )
            &&& split_ws(ls[b]).len() > 2
            &&& parse_uint(trim(split_ws(ls[b])[2]), u64::MAX as int) == Ok::<int, IntErrorKind>(
                l.processes() as int,
            )
            &&& split_ws(ls[a]).len() > 3
            &&& parse_uint(trim(split_ws(ls[a])[3]), u64::MAX as int) == Ok::<int, IntErrorKind>(
                l.stack() as int,
            )
        }),
{
    let ls = lines(limits);
    let (a, b, c) = limits_lines(limits);
    let fs = seq![
        Some(parse_uint(limit_word(ls[c], 3), u64::MAX as int)),
        Some(parse_uint(limit_word(ls[b], 2), u64::MAX as int)),
        Some(parse_uint(limit_word(ls[a], 3), u64::MAX as int)),
    ];
    reveal_with_fuel(crate::sysinfo::procfs::first_failure, 4);
    reveal_with_fuel(crate::sysinfo::procfs::field_values, 4);
    assert(crate::sysinfo::procfs::first_failure(fs, 0) == -1);
    assert(!crate::sysinfo::procfs::is_failure(fs[0]));
    assert(!crate::sysinfo::procfs::is_failure(fs[1]));
    assert(!crate::sysinfo::procfs::is_failure(fs[2]));
    assert(fs.drop_last().drop_last().drop_last() =~= Seq::<Option<Result<int, IntErrorKind>>>::empty());
    assert(fs.drop_last().drop_last() =~= seq![fs[0]]);
    assert(fs.drop_last() =~= seq![fs[0], fs[1]]);
}

/// A status file read from `key: value` lines has as parent id and number of threads the
/// numbers of the last `PPid` and `Threads` lines, and as user and group ids the numbers
/// before the first tab of the last `Uid` and `Gid` lines (the real ids).
pub proof fn law_status_fields(status: Seq<char>, f: StatusFile)
    requires
        status_fields(status) matches Ok(v) && f.parent() == v[0] && f.thread_count() == v[1]
            && f.user() == v[2] && f.group() == v[3],
    ensures
        exists|j: int|
            #[trigger] last_with_key(entries(status), "PPid"@, j) && parse_uint(
                entries(status)[j].1,
                u64::MAX as int,
            ) == Ok::<int, IntErrorKind>(f.parent() as int),
        exists|j: int|
            #[trigger] last_with_key(entries(status), "Threads"@, j) && parse_uint(
                entries(status)[j].1,
                u64::MAX as int,
            ) == Ok::<int, IntErrorKind>(f.thread_count() as int),
        exists|j: int|
            #[trigger] last_with_key(entries(status), "Uid"@, j) && parse_uint(
                trim(split(entries(status)[j].1, '\t')[0]),
                u64::MAX as int,
            ) == Ok::<int, IntErrorKind>(f.user() as int),
        exists|j: int|
            #[trigger] last_with_key(entries(status), "Gid"@, j) && parse_uint(
                trim(split(entries(status)[j].1, '\t')[0]),
                u64::MAX as int,
            ) == Ok::<int, IntErrorKind>(f.group() as int),
{
    let es = entries(status);
    let fs = seq![
        status_number_field(es, "PPid"@),
        status_number_field(es, "Threads"@),
        status_id_field(es, "Uid"@),
        status_id_field(es, "Gid"@),
    ];
    let keys = seq!["PPid"@, "Threads"@, "Uid"@, "Gid"@];
    lemma_gathered_values(fs, keys, "status"@, keys, "status"@);
    assert(fs[0] == status_number_field(es, "PPid"@));
    assert(fs[1] == status_number_field(es, "Threads"@));
    assert(fs[2] == status_id_field(es, "Uid"@));
    assert(fs[3] == status_id_field(es, "Gid"@));
    lemma_lookup_last(es, "PPid"@);
    lemma_lookup_last(es, "Threads"@);
    lemma_lookup_last(es, "Uid"@);
    lemma_lookup_last(es, "Gid"@);
}

/// The pids group read from a cgroup file is the last `/`-separated piece of what follows
/// the first `:pids:` of the first line that holds `:pids:`, up to a second `:pids:` or the
/// end of that line: it holds no `/`, it ends where that text ends, and it starts right
/// after a `/` or right after the `:pids:`.
pub proof fn law_cgroup_group(cgroup: Seq<char>, g: Seq<char>)
    requires
        cgroup_complete(cgroup),
        g == pids_group(lines(cgroup)[pids_line(cgroup)]),
    ensures
        ({
            let k = find_line(lines(cgroup), ":pids:"@, 0);
            let l = lines(cgroup)[k];
            let i = find_from(l, ":pids:"@, 0);
            let e = if find_from(l, ":pids:"@, i + 6) >= 0 {
                find_from(l, ":pids:"@, i + 6)
            } else {
                l.len() as int
            };
            &&& 0 <= i && i + 6 <= e <= l.len()
            &&& l.subrange(i, i + 6) == ":pids:"@
            &&& forall|x: int| 0 <= x < g.len() ==> g[x] != '/'
            &&& g.len() <= e - (i + 6)
            &&& l.subrange(e - g.len(), e) == g
            &&& g.len() == e - (i + 6) || l[e - g.len() - 1] == '/'
        }),
{
    let ls = lines(cgroup);
    let k = pids_line(cgroup);
    crate::sysinfo::procfs::lemma_find_line_found(ls, ":pids:"@, 0);
    let l = ls[k];
    let pat = ":pids:"@;
    reveal_strlit(":pids:");
    assert(pat.len() == 6);
    crate::text::lemma_find_from_found(l, pat, 0);
    let w = choose|w: int| occurs_at(l, pat, w);
    assert(occurs_at(l, pat, w));
    let i = find_from(l, pat, 0);
    assert(i >= 0);
    crate::text::lemma_find_from_found(l, pat, i + 6);
    let e = if find_from(l, pat, i + 6) >= 0 {
        find_from(l, pat, i + 6)
    } else {
        l.len() as int
    };
    let a = after_pids(l);
    assert(a == l.subrange(i + 6, e));
    crate::text::lemma_split_upto_last(a, '/', a.len() as int);
    let p = split(a, '/').last();
    let b0 = a.len() - p.len();
    assert(l.subrange(i + 6 + b0, e) =~= p);
    if b0 > 0 {
        assert(l[i + 6 + b0 - 1] == a[b0 - 1]);
    }
    assert(i + 6 <= i + 6 + b0 <= e && l.subrange(i + 6 + b0, e) == g && (i + 6 + b0 == i + 6
        || l[i + 6 + b0 - 1] == '/'));
}

} // verus!
