//! Memory of the system and of a process, read from `/proc/meminfo` and
//! `/proc/<pid>/status`.
use vstd::prelude::*;
use crate::text::{
    chars_of, contains, contains_chars, lines, lines_chars, parse_uint, parse_uint_chars,
    pieces_view, split, split_chars, split_ws, split_ws_chars, trim, trim_chars, IntErrorKind,
};
use crate::sysinfo::error::{strs_view, Error};
use crate::sysinfo::procfs::{
    entries, entries_view, field_view, find_line, find_line_from, gather_fields, gathered,
    key_value_entries, lookup, lookup_entry, Field, last_with_key, lemma_gathered_values,
    lemma_lookup_last,
};

verus! {

/// Multiplication by 1024 modulo 2^64, as `wrapping_mul(1024)` computes it.
pub open spec fn kib_to_bytes(v: int) -> int {
    (v * 1024) % 0x1_0000_0000_0000_0000
}

fn kib_to_bytes_u64(v: u64) -> (r: u64)
    ensures
        r == kib_to_bytes(v as int),
{
    let r = v.wrapping_mul(1024);
    assert(((v as nat * 1024) % 0x1_0000_0000_0000_0000) < 0x1_0000_0000_0000_0000);
    r
}

/// The first whitespace-separated word of a value, trimmed (empty when there is none).
pub open spec fn first_word(c: Seq<char>) -> Seq<char> {
    if split_ws(c).len() > 0 {
        trim(split_ws(c)[0])
    } else {
        Seq::empty()
    }
}

/// The field `key` of a status file: absent, or the parse of the first word of its value.
pub open spec fn status_word_field(es: Seq<(Seq<char>, Seq<char>)>, key: Seq<char>) -> Option<
    Result<int, IntErrorKind>,
> {
    match lookup(es, key) {
        None => None,
        Some(c) => Some(parse_uint(first_word(c), u64::MAX as int)),
    }
}

/// The first word of `c`, trimmed.
fn first_word_chars(c: &[char]) -> (w: Vec<char>)
    ensures
        w@ == first_word(c@),
{
    let ws = split_ws_chars(c);
    if ws.len() > 0 {
        assert(pieces_view(ws@)[0] == ws@[0]@);
        trim_chars(ws[0].as_slice())
    } else {
        Vec::new()
    }
}

fn status_word_field_exec(es: &Vec<(Vec<char>, Vec<char>)>, key: &str) -> (f: Field)
    ensures
        field_view(f) == status_word_field(entries_view(es@), key@),
{
    let k = chars_of(key);
    match lookup_entry(es, k.as_slice()) {
        None => None,
        Some(c) => {
            let w = first_word_chars(c.as_slice());
            Some(parse_uint_chars(w.as_slice(), u64::MAX))
        },
    }
}

/// Memory used by a process, in bytes.
#[derive(Clone, Copy, Debug)]
pub struct ProcessMemoryInfo {
    occupied_mem: u64,
    physical_mem: u64,
    swap_mem: u64,
}

/// The fields of a status file that give the memory of a process.
pub open spec fn process_memory_fields(status: Seq<char>) -> Seq<Option<Result<int, IntErrorKind>>> {
    let es = entries(status);
    seq![
        status_word_field(es, "VmSize"@),
        status_word_field(es, "VmRSS"@),
        status_word_field(es, "VmSwap"@),
    ]
}

/// What reading the memory of a process from its status file gives: the sizes in KiB
/// of `VmSize`, `VmRSS` and `VmSwap`, or the text of the error.
pub open spec fn process_memory(status: Seq<char>) -> Result<Seq<int>, Seq<char>> {
    gathered(
        process_memory_fields(status),
        seq!["VmSize"@, "VmRSS"@, "VmSwap"@],
        "proc"@,
        seq!["memory"@, "memory"@, "memory"@],
        "status"@,
    )
}

impl ProcessMemoryInfo {
    /// Virtual memory in bytes.
    pub closed spec fn occupied(&self) -> u64 {
        self.occupied_mem
    }

    /// Resident memory in bytes.
    pub closed spec fn physical(&self) -> u64 {
        self.physical_mem
    }

    /// Swapped-out memory in bytes.
    pub closed spec fn swapped(&self) -> u64 {
        self.swap_mem
    }

    /// Reads the memory of the process `pid` from the content of its status file
    /// `/proc/<pid>/status`.
    pub fn from_pid(pid: u64, status: &str) -> (r: Result<ProcessMemoryInfo, Error>)
        ensures
            match r {
                Ok(m) => process_memory(status@) matches Ok(v) && m.occupied() == kib_to_bytes(
                    v[0],
                ) && m.physical() == kib_to_bytes(v[1]) && m.swapped() == kib_to_bytes(v[2]),
                Err(e) => process_memory(status@) matches Err(t) && e matches Error::Internal(
                    crate::sysinfo::error::InnerError::ReadError(m),
                ) && m@ == t,
            },
    {
        let content = chars_of(status);
        let es = key_value_entries(content.as_slice());
        let mut fs: Vec<Field> = Vec::new();
        fs.push(status_word_field_exec(&es, "VmSize"));
        fs.push(status_word_field_exec(&es, "VmRSS"));
        fs.push(status_word_field_exec(&es, "VmSwap"));
        let mut keys: Vec<&str> = Vec::new();
        keys.push("VmSize");
        keys.push("VmRSS");
        keys.push("VmSwap");
        let mut parts: Vec<&str> = Vec::new();
        parts.push("memory");
        parts.push("memory");
        parts.push("memory");
        proof {
            assert(fs@.map_values(|f: Field| field_view(f)) =~= process_memory_fields(status@));
            assert(strs_view(keys@) =~= seq!["VmSize"@, "VmRSS"@, "VmSwap"@]);
            assert(strs_view(parts@) =~= seq!["memory"@, "memory"@, "memory"@]);
        }
        let values = gather_fields(&fs, &keys, "proc", &parts, "status")?;
        proof {
            let v = process_memory(status@)->Ok_0;
            assert(values@.map_values(|x: u64| x as int) == v);
            assert(values@.len() == 3);
            assert(v[0] == values@[0] as int);
            assert(v[1] == values@[1] as int);
            assert(v[2] == values@[2] as int);
        }
        Ok(ProcessMemoryInfo {
            occupied_mem: kib_to_bytes_u64(values[0]),
            physical_mem: kib_to_bytes_u64(values[1]),
            swap_mem: kib_to_bytes_u64(values[2]),
        })
    }

    /// Virtual memory of the process (`VmSize`), in bytes.
    pub fn occupied_mem(&self) -> (r: u64)
        ensures
            r == self.occupied(),
    {
        self.occupied_mem
    }

    /// Resident memory of the process (`VmRSS`), in bytes.
    pub fn physical_mem(&self) -> (r: u64)
        ensures
            r == self.physical(),
    {
        self.physical_mem
    }

    /// Swapped-out memory of the process (`VmSwap`), in bytes.
    pub fn swap_mem(&self) -> (r: u64)
        ensures
            r == self.swapped(),
    {
        self.swap_mem
    }
}

/// Memory of the system, in bytes.
#[derive(Clone, Copy, Debug)]
pub struct MemoryInfo {
    total_phys: u64,
    avail_phys: u64,
}

/// Indices of the `MemTotal:`, `MemFree:` and `MemAvailable:` lines of a meminfo file,
/// each searched after the one before (-1 where the search fails).
pub open spec fn meminfo_lines(meminfo: Seq<char>) -> (int, int, int) {
    let ls = lines(meminfo);
    let a = find_line(ls, "MemTotal:"@, 0);
    let b = find_line(ls, "MemFree:"@, a + 1);
    let c = find_line(ls, "MemAvailable:"@, b + 1);
    (a, b, c)
}

/// The meminfo file holds the three lines in order, as reading it needs.
pub open spec fn meminfo_complete(meminfo: Seq<char>) -> bool {
    let (a, b, c) = meminfo_lines(meminfo);
    a >= 0 && b >= 0 && c >= 0
}

/// The number on a meminfo line: the first word after the first `:` (empty when there
/// is none).
pub open spec fn meminfo_word(line: Seq<char>) -> Seq<char> {
    let p = split(line, ':');
    if p.len() > 1 && split_ws(p[1]).len() > 0 {
        split_ws(p[1])[0]
    } else {
        Seq::empty()
    }
}

/// What reading the memory of the system gives: `MemTotal` and `MemAvailable` in KiB,
/// or the text of the error.
pub open spec fn system_memory(meminfo: Seq<char>) -> Result<Seq<int>, Seq<char>> {
    let ls = lines(meminfo);
    let (a, b, c) = meminfo_lines(meminfo);
    gathered(
        seq![
            Some(parse_uint(meminfo_word(ls[a]), u64::MAX as int)),
            Some(parse_uint(meminfo_word(ls[c]), u64::MAX as int)),
        ],
        seq!["MemTotal"@, "MemAvailable"@],
        "sys"@,
        seq!["memory"@, "memory"@],
        "meminfo"@,
    )
}

fn meminfo_word_chars(line: &[char]) -> (w: Vec<char>)
    ensures
        w@ == meminfo_word(line@),
{
    let p = split_chars(line, ':');
    if p.len() > 1 {
        assert(pieces_view(p@)[1] == p@[1]@);
        let ws = split_ws_chars(p[1].as_slice());
        if ws.len() > 0 {
            assert(pieces_view(ws@)[0] == ws@[0]@);
            return crate::text::slice_to_vec(ws[0].as_slice(), 0, ws[0].len());
        }
    }
    Vec::new()
}

fn meminfo_line_indices(meminfo: &str) -> (r: (Option<usize>, Option<usize>, Option<usize>, Vec<Vec<char>>))
    ensures
        pieces_view(r.3@) == lines(meminfo@),
        r.0 matches Some(a) ==> a == meminfo_lines(meminfo@).0 && a < r.3@.len(),
        r.0 is None ==> meminfo_lines(meminfo@).0 == -1,
        r.0 is Some ==> (r.1 matches Some(b) ==> b == meminfo_lines(meminfo@).1 && b < r.3@.len()),
        r.0 is Some ==> (r.1 is None ==> meminfo_lines(meminfo@).1 == -1),
        r.1 is Some ==> (r.2 matches Some(c) ==> c == meminfo_lines(meminfo@).2 && c < r.3@.len()),
        r.1 is Some ==> (r.2 is None ==> meminfo_lines(meminfo@).2 == -1),
{
    let content = chars_of(meminfo);
    let ls = lines_chars(content.as_slice());
    let a = find_line_from(&ls, "MemTotal:", 0);
    match a {
        None => (None, None, None, ls),
        Some(a) => {
            let n = ls.len();
            assert(a < n);
            let b = find_line_from(&ls, "MemFree:", a + 1);
            match b {
                None => (Some(a), None, None, ls),
                Some(b) => {
                    assert(b < n);
                    let c = find_line_from(&ls, "MemAvailable:", b + 1);
                    (Some(a), Some(b), c, ls)
                },
            }
        },
    }
}

impl MemoryInfo {
    /// Decides `meminfo_complete`: whether the content of `/proc/meminfo` can be read.
    pub fn is_complete(meminfo: &str) -> (b: bool)
        ensures
            b == meminfo_complete(meminfo@),
    {
        let (a, b, c, _) = meminfo_line_indices(meminfo);
        a.is_some() && b.is_some() && c.is_some()
    }

    /// Reads the memory of the system from the content of `/proc/meminfo`.
    pub fn new(meminfo: &str) -> (r: Result<MemoryInfo, Error>)
        requires
            meminfo_complete(meminfo@),
        ensures
            match r {
                Ok(m) => system_memory(meminfo@) matches Ok(v) && m.total() == kib_to_bytes(v[0])
                    && m.avail() == kib_to_bytes(v[1]),
                Err(e) => system_memory(meminfo@) matches Err(t) && e matches Error::Internal(
                    crate::sysinfo::error::InnerError::ReadError(m),
                ) && m@ == t,
            },
    {
        let (a, b, c, ls) = meminfo_line_indices(meminfo);
        let a = a.unwrap();
        let c = c.unwrap();
        assert(pieces_view(ls@)[a as int] == ls@[a as int]@);
        assert(pieces_view(ls@)[c as int] == ls@[c as int]@);
        let wa = meminfo_word_chars(ls[a].as_slice());
        let wc = meminfo_word_chars(ls[c].as_slice());
        let mut fs: Vec<Field> = Vec::new();
        fs.push(Some(parse_uint_chars(wa.as_slice(), u64::MAX)));
        fs.push(Some(parse_uint_chars(wc.as_slice(), u64::MAX)));
        let mut keys: Vec<&str> = Vec::new();
        keys.push("MemTotal");
        keys.push("MemAvailable");
        let mut parts: Vec<&str> = Vec::new();
        parts.push("memory");
        parts.push("memory");
        proof {
            let ls_s = lines(meminfo@);
            assert(fs@.map_values(|f: Field| field_view(f)) =~= seq![
                Some(parse_uint(meminfo_word(ls_s[a as int]), u64::MAX as int)),
                Some(parse_uint(meminfo_word(ls_s[c as int]), u64::MAX as int)),
            ]);
            assert(strs_view(keys@) =~= seq!["MemTotal"@, "MemAvailable"@]);
            assert(strs_view(parts@) =~= seq!["memory"@, "memory"@]);
        }
        let values = gather_fields(&fs, &keys, "sys", &parts, "meminfo")?;
        proof {
            let v = system_memory(meminfo@)->Ok_0;
            assert(values@.map_values(|x: u64| x as int) == v);
            assert(v[0] == values@[0] as int);
            assert(v[1] == values@[1] as int);
        }
        Ok(MemoryInfo { total_phys: kib_to_bytes_u64(values[0]), avail_phys: kib_to_bytes_u64(values[1]) })
    }

    /// Total physical memory in bytes.
    pub closed spec fn total(&self) -> u64 {
        self.total_phys
    }

    /// Available physical memory in bytes.
    pub closed spec fn avail(&self) -> u64 {
        self.avail_phys
    }

    /// Gets the amount of actual physical memory, in bytes.
    pub fn total_phys(&self) -> (r: u64)
        ensures
            r == self.total(),
    {
        self.total_phys
    }

    /// Gets the amount of physical memory currently available, in bytes.
    pub fn avail_phys(&self) -> (r: u64)
        ensures
            r == self.avail(),
    {
        self.avail_phys
    }
}

/// The memory of a process read from its status file is, in bytes, 1024 times the number
/// in the first word of the last `VmSize`, `VmRSS` and `VmSwap` lines (virtual, resident and swapped
/// memory), wrapping at 2^64.
pub proof fn law_process_memory_fields(status: Seq<char>, m: ProcessMemoryInfo)
    requires
        process_memory(status) matches Ok(v) && m.occupied() == kib_to_bytes(v[0])
            && m.physical() == kib_to_bytes(v[1]) && m.swapped() == kib_to_bytes(v[2]),
    ensures
        exists|j: int|
            #[trigger] last_with_key(entries(status), "VmSize"@, j) && split_ws(
                entries(status)[j].1,
            ).len() > 0 && (parse_uint(trim(split_ws(entries(status)[j].1)[0]), u64::MAX as int)
                matches Ok(n) && m.occupied() == (n * 1024) % 0x1_0000_0000_0000_0000),
        exists|j: int|
            #[trigger] last_with_key(entries(status), "VmRSS"@, j) && split_ws(
                entries(status)[j].1,
            ).len() > 0 && (parse_uint(trim(split_ws(entries(status)[j].1)[0]), u64::MAX as int)
                matches Ok(n) && m.physical() == (n * 1024) % 0x1_0000_0000_0000_0000),
        exists|j: int|
            #[trigger] last_with_key(entries(status), "VmSwap"@, j) && split_ws(
                entries(status)[j].1,
            ).len() > 0 && (parse_uint(trim(split_ws(entries(status)[j].1)[0]), u64::MAX as int)
                matches Ok(n) && m.swapped() == (n * 1024) % 0x1_0000_0000_0000_0000),
{
    let es = entries(status);
    let fs = process_memory_fields(status);
    lemma_gathered_values(
        fs,
        seq!["VmSize"@, "VmRSS"@, "VmSwap"@],
        "proc"@,
        seq!["memory"@, "memory"@, "memory"@],
        "status"@,
    );
    let v = process_memory(status)->Ok_0;
    lemma_lookup_last(es, "VmSize"@);
    lemma_lookup_last(es, "VmRSS"@);
    lemma_lookup_last(es, "VmSwap"@);
    assert(fs[0] == status_word_field(es, "VmSize"@));
    assert(fs[1] == status_word_field(es, "VmRSS"@));
    assert(fs[2] == status_word_field(es, "VmSwap"@));
    let j0 = choose|j: int| #[trigger] last_with_key(es, "VmSize"@, j) && es[j].1 == lookup(es, "VmSize"@)->Some_0;
    let j1 = choose|j: int| #[trigger] last_with_key(es, "VmRSS"@, j) && es[j].1 == lookup(es, "VmRSS"@)->Some_0;
    let j2 = choose|j: int| #[trigger] last_with_key(es, "VmSwap"@, j) && es[j].1 == lookup(es, "VmSwap"@)->Some_0;
    assert(parse_uint(Seq::<char>::empty(), u64::MAX as int) is Err);
    assert(last_with_key(es, "VmSize"@, j0) && m.occupied() == (v[0] * 1024) % 0x1_0000_0000_0000_0000);
    assert(last_with_key(es, "VmRSS"@, j1) && m.physical() == (v[1] * 1024) % 0x1_0000_0000_0000_0000);
    assert(last_with_key(es, "VmSwap"@, j2) && m.swapped() == (v[2] * 1024) % 0x1_0000_0000_0000_0000);
}

/// The memory of the system read from a meminfo file is, in bytes, 1024 times the first
/// number after the `:` of its first `MemTotal:` line and of the first `MemAvailable:` line
/// after the `MemFree:` line that follows it, wrapping at 2^64.
pub proof fn law_system_memory_fields(meminfo: Seq<char>, m: MemoryInfo)
    requires
        system_memory(meminfo) matches Ok(v) && m.total() == kib_to_bytes(v[0]) && m.avail()
            == kib_to_bytes(v[1]),
    ensures
        ({
            let ls = lines(meminfo);
            let a = find_line(ls, "MemTotal:"@, 0);
            let b = find_line(ls, "MemFree:"@, a + 1);
            let c = find_line(ls, "MemAvailable:"@, b + 1);
            &&& split(ls[a], ':').len() > 1 && split_ws(split(ls[a], ':')[1]).len() > 0
            &&& split(ls[c], ':').len() > 1 && split_ws(split(ls[c], ':')[1]).len() > 0
            &&& (parse_uint(split_ws(split(ls[a], ':')[1])[0], u64::MAX as int) matches Ok(n)
                && m.total() == (n * 1024) % 0x1_0000_0000_0000_0000)
            &&& (parse_uint(split_ws(split(ls[c], ':')[1])[0], u64::MAX as int) matches Ok(n)
                && m.avail() == (n * 1024) % 0x1_0000_0000_0000_0000)
        }),
{
    let ls = lines(meminfo);
    let (a, b, c) = meminfo_lines(meminfo);
    let fs = seq![
        Some(parse_uint(meminfo_word(ls[a]), u64::MAX as int)),
        Some(parse_uint(meminfo_word(ls[c]), u64::MAX as int)),
    ];
    lemma_gathered_values(
        fs,
        seq!["MemTotal"@, "MemAvailable"@],
        "sys"@,
        seq!["memory"@, "memory"@],
        "meminfo"@,
    );
    assert(fs[0] == Some(parse_uint(meminfo_word(ls[a]), u64::MAX as int)));
    assert(fs[1] == Some(parse_uint(meminfo_word(ls[c]), u64::MAX as int)));
    assert(parse_uint(Seq::<char>::empty(), u64::MAX as int) is Err);
}

} // verus!
