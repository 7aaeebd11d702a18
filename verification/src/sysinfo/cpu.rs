//! The load of the CPUs, read from the contents of `/proc/stat`: the work and total times
//! of the whole machine (`cpu` line) and of each CPU (`cpuN` lines), and the usage
//! between two readings, in hundredths of a percent.
use vstd::prelude::*;
use crate::text::{
    chars_of, contains, contains_chars, decimal, decimal_chars, lines, lines_chars, occurs_at,
    occurs_at_chars, parse_uint,
    parse_uint_chars, pieces_view, push_all, split, split_chars, starts_with, starts_with_chars,
    trim, trim_chars,
};
use crate::sysinfo::error::{Error, InnerError};

verus! {

/// `s` with every leading repetition of `head` taken away, as `trim_start_matches` does.
pub open spec fn strip_heads(s: Seq<char>, head: Seq<char>) -> Seq<char>
    decreases s.len(),
{
    if head.len() > 0 && starts_with(s, head) {
        strip_heads(s.subrange(head.len() as int, s.len() as int), head)
    } else {
        s
    }
}

/// The pieces of a line of `/proc/stat` after its head, split at single spaces.
pub open spec fn stat_pieces(line: Seq<char>, head: Seq<char>) -> Seq<Seq<char>> {
    split(strip_heads(line, head), ' ')
}

/// The value of a piece that parses.
pub open spec fn piece_value(p: Seq<char>) -> int {
    match parse_uint(p, u64::MAX as int) {
        Ok(v) => v,
        Err(_) => 0,
    }
}

/// The numbers of a line of `/proc/stat` after its head.
pub open spec fn stat_values(line: Seq<char>, head: Seq<char>) -> Seq<int> {
    stat_pieces(line, head).map_values(|p: Seq<char>| piece_value(p))
}

/// The work time of the numbers of a line: user, nice, system, irq, softirq and steal.
pub open spec fn work_of(d: Seq<int>) -> int {
    d[0] + d[1] + d[2] + d[5] + d[6] + d[7]
}

/// The total time of the numbers of a line: the work time with idle and iowait.
pub open spec fn total_of(d: Seq<int>) -> int {
    work_of(d) + d[3] + d[4]
}

/// A line of `/proc/stat` that holds `head` can be read: every piece after the head is a
/// number, there are at least eight, and the total time fits in a `u64`.
pub open spec fn stat_line_readable(line: Seq<char>, head: Seq<char>) -> bool {
    contains(line, head) ==> {
        &&& forall|i: int|
            0 <= i < stat_pieces(line, head).len() ==> parse_uint(
                #[trigger] stat_pieces(line, head)[i],
                u64::MAX as int,
            ) is Ok
        &&& stat_pieces(line, head).len() >= 8
        &&& total_of(stat_values(line, head)) <= u64::MAX
    }
}

/// The head of the line of the whole machine.
pub open spec fn global_head() -> Seq<char> {
    "cpu  "@
}

/// The head of the line of CPU `id`.
pub open spec fn cpu_head(id: nat) -> Seq<char> {
    "cpu"@ + decimal(id) + " "@
}

/// The lines of a `/proc/stat` text, once trimmed.
pub open spec fn stat_lines(stat: Seq<char>) -> Seq<Seq<char>> {
    lines(trim(stat))
}

/// The work and total times of the line of the whole machine; zero where the first line
/// is not that line.
pub open spec fn global_times(ls: Seq<Seq<char>>) -> (int, int) {
    if contains(ls[0], global_head()) {
        (work_of(stat_values(ls[0], global_head())), total_of(stat_values(ls[0], global_head())))
    } else {
        (0, 0)
    }
}

/// The work and total times of CPUs `id`, `id + 1`, ...: line `id + 1` while it holds the
/// head of its CPU.
pub open spec fn cpu_times_from(ls: Seq<Seq<char>>, id: nat) -> Seq<(int, int)>
    decreases ls.len() - id,
{
    if id + 1 < ls.len() && contains(ls[id + 1int], cpu_head(id)) {
        seq![
            (
                work_of(stat_values(ls[id + 1int], cpu_head(id))),
                total_of(stat_values(ls[id + 1int], cpu_head(id))),
            ),
        ] + cpu_times_from(ls, id + 1)
    } else {
        Seq::empty()
    }
}

/// The lines of CPUs `id`, `id + 1`, ... that the reader takes apart can be read.
pub open spec fn cpu_lines_readable(ls: Seq<Seq<char>>, id: nat) -> bool
    decreases ls.len() - id,
{
    if id + 1 < ls.len() && contains(ls[id + 1int], cpu_head(id)) {
        stat_line_readable(ls[id + 1int], cpu_head(id)) && cpu_lines_readable(ls, id + 1)
    } else {
        true
    }
}

/// A `/proc/stat` text that `CpusInfo::new` can read: it has a line, and the lines that
/// it takes apart can be read.
pub open spec fn stat_readable(stat: Seq<char>) -> bool {
    let ls = stat_lines(stat);
    &&& ls.len() >= 1
    &&& stat_line_readable(ls[0], global_head())
    &&& cpu_lines_readable(ls, 0)
}

/// The usage between two readings, in hundredths of a percent: the growth of the work time
/// over the growth of the total time, capped at 10000; a work time that did not grow
/// counts as zero and a total time that did not grow as one. `None` where the growth of
/// the work time times 10000 does not fit in a `u64`.
pub open spec fn usage_between(ow: u64, ot: u64, nw: u64, nt: u64) -> Option<u16> {
    let wd: int = if nw > ow {
        nw - ow
    } else {
        0
    };
    let td: int = if nt > ot {
        nt - ot
    } else {
        1
    };
    if wd * 10000 > u64::MAX {
        None
    } else {
        let u = (wd * 10000) / td;
        Some(
            if u > 10000 {
                10000u16
            } else {
                u as u16
            },
        )
    }
}

/// The times and the usage of a CPU.
pub struct Cpu {
    old_work_time: u64,
    old_total_time: u64,
    new_work_time: u64,
    new_total_time: u64,
    usage: u16,
}

/// The view of a CPU.
pub struct CpuView {
    pub old_work_time: u64,
    pub old_total_time: u64,
    pub new_work_time: u64,
    pub new_total_time: u64,
    pub usage: u16,
}

impl View for Cpu {
    type V = CpuView;

    closed spec fn view(&self) -> CpuView {
        CpuView {
            old_work_time: self.old_work_time,
            old_total_time: self.old_total_time,
            new_work_time: self.new_work_time,
            new_total_time: self.new_total_time,
            usage: self.usage,
        }
    }
}

/// A CPU first read with times `w` and `t`.
pub open spec fn fresh_cpu(w: u64, t: u64) -> CpuView {
    CpuView { old_work_time: 0, old_total_time: 0, new_work_time: w, new_total_time: t, usage: 0 }
}

/// The CPU `c` after a reading of times `w` and `t`: the newer times become the older,
/// and the usage is taken between them where it can be.
pub open spec fn cpu_after(c: CpuView, w: u64, t: u64) -> CpuView {
    CpuView {
        old_work_time: c.new_work_time,
        old_total_time: c.new_total_time,
        new_work_time: w,
        new_total_time: t,
        usage: match usage_between(c.new_work_time, c.new_total_time, w, t) {
            Some(u) => u,
            None => c.usage,
        },
    }
}

impl Cpu {
    /// The usage never exceeds a full load.
    #[verifier::type_invariant]
    spec fn usage_at_most_full(self) -> bool {
        self.usage <= 10000
    }

    /// A CPU first read with times `work_time` and `total_time`.
    pub fn new(work_time: u64, total_time: u64) -> (r: Self)
        ensures
            r@ == fresh_cpu(work_time, total_time),
    {
        Cpu {
            old_work_time: 0,
            old_total_time: 0,
            new_work_time: work_time,
            new_total_time: total_time,
            usage: 0,
        }
    }

    /// Takes a reading of times `work_time` and `total_time`; `Overflow` where the usage
    /// cannot be computed, the times being taken all the same.
    pub fn update(&mut self, work_time: u64, total_time: u64) -> (r: Result<(), Error>)
        ensures
            final(self)@ == cpu_after(old(self)@, work_time, total_time),
            match usage_between(old(self)@.new_work_time, old(self)@.new_total_time, work_time, total_time) {
                Some(_) => r is Ok,
                None => r matches Err(Error::Internal(InnerError::Overflow)),
            },
    {
        proof {
            use_type_invariant(&*self);
        }
        self.old_work_time = self.new_work_time;
        self.old_total_time = self.new_total_time;
        self.new_work_time = work_time;
        self.new_total_time = total_time;
        let wd: u64 = if self.new_work_time > self.old_work_time {
            self.new_work_time - self.old_work_time
        } else {
            0
        };
        let td: u64 = if self.new_total_time > self.old_total_time {
            self.new_total_time - self.old_total_time
        } else {
            1
        };
        let scaled = match wd.checked_mul(10000) {
            Some(v) => v,
            None => {
                return Err(Error::Internal(InnerError::Overflow));
            },
        };
        let mut usage = scaled / td;
        if usage > 10000 {
            usage = 10000;
        }
        self.usage = usage as u16;
        Ok(())
    }

    /// The usage between the last two readings, in hundredths of a percent.
    pub fn usage(&self) -> (r: u16)
        ensures
            r == self@.usage,
            r <= 10000,
    {
        proof {
            use_type_invariant(self);
        }
        self.usage
    }
}

/// Takes away every leading repetition of `head`.
fn strip_heads_chars(s: &[char], head: &[char]) -> (r: Vec<char>)
    requires
        head@.len() > 0,
    ensures
        r@ == strip_heads(s@, head@),
{
    let mut i: usize = 0;
    assert(s@.subrange(0, s@.len() as int) =~= s@);
    while occurs_at_chars(s, head, i)
        invariant
            i <= s@.len(),
            head@.len() > 0,
            strip_heads(s@, head@) == strip_heads(s@.subrange(i as int, s@.len() as int), head@),
        decreases s.len() - i,
    {
        proof {
            let rest = s@.subrange(i as int, s@.len() as int);
            assert(rest.subrange(0, head@.len() as int) =~= s@.subrange(
                i as int,
                i + head@.len(),
            ));
            assert(starts_with(rest, head@));
            assert(rest.subrange(head@.len() as int, rest.len() as int) =~= s@.subrange(
                i + head@.len(),
                s@.len() as int,
            ));
        }
        i = i + head.len();
    }
    proof {
        let rest = s@.subrange(i as int, s@.len() as int);
        if starts_with(rest, head@) {
            assert(rest.subrange(0, head@.len() as int) =~= s@.subrange(
                i as int,
                i + head@.len(),
            ));
            assert(occurs_at(s@, head@, i as int));
        }
    }
    let mut out: Vec<char> = Vec::new();
    let mut j = i;
    while j < s.len()
        invariant
            i <= j <= s@.len(),
            out@ == s@.subrange(i as int, j as int),
        decreases s.len() - j,
    {
        out.push(s[j]);
        j = j + 1;
        assert(out@ =~= s@.subrange(i as int, j as int));
    }
    out
}

/// The numbers of `line` after `head`, where the line holds `head`.
fn stat_line_numbers(line: &[char], head: &[char]) -> (r: Option<Vec<u64>>)
    requires
        head@.len() > 0,
        stat_line_readable(line@, head@),
    ensures
        match r {
            None => !contains(line@, head@),
            Some(v) => contains(line@, head@) && v@.len() == stat_values(line@, head@).len()
                && forall|i: int| 0 <= i < v@.len() ==> v@[i] == stat_values(line@, head@)[i],
        },
{
    if !contains_chars(line, head) {
        return None;
    }
    let rest = strip_heads_chars(line, head);
    let ps = split_chars(rest.as_slice(), ' ');
    let mut out: Vec<u64> = Vec::new();
    let mut i: usize = 0;
    while i < ps.len()
        invariant
            i <= ps@.len(),
            pieces_view(ps@) == stat_pieces(line@, head@),
            contains(line@, head@),
            stat_line_readable(line@, head@),
            out@.len() == i,
            forall|k: int| 0 <= k < i ==> out@[k] == stat_values(line@, head@)[k],
        decreases ps.len() - i,
    {
        assert(pieces_view(ps@)[i as int] == ps@[i as int]@);
        match parse_uint_chars(ps[i].as_slice(), u64::MAX) {
            Ok(v) => {
                out.push(v);
            },
            Err(_) => {
                assert(parse_uint(stat_pieces(line@, head@)[i as int], u64::MAX as int) is Ok);
                return None;
            },
        }
        i = i + 1;
    }
    Some(out)
}

/// Decides `stat_line_readable`.
fn line_readable(line: &[char], head: &[char]) -> (b: bool)
    requires
        head@.len() > 0,
    ensures
        b == stat_line_readable(line@, head@),
{
    if !contains_chars(line, head) {
        return true;
    }
    let rest = strip_heads_chars(line, head);
    let ps = split_chars(rest.as_slice(), ' ');
    let ghost pv = stat_pieces(line@, head@);
    let mut vals: Vec<u64> = Vec::new();
    let mut i: usize = 0;
    while i < ps.len()
        invariant
            i <= ps@.len(),
            pieces_view(ps@) == pv,
            pv == stat_pieces(line@, head@),
            contains(line@, head@),
            vals@.len() == i,
            forall|k: int| 0 <= k < i ==> parse_uint(#[trigger] pv[k], u64::MAX as int) is Ok,
            forall|k: int| 0 <= k < i ==> vals@[k] == stat_values(line@, head@)[k],
        decreases ps.len() - i,
    {
        assert(pieces_view(ps@)[i as int] == ps@[i as int]@);
        match parse_uint_chars(ps[i].as_slice(), u64::MAX) {
            Ok(v) => {
                vals.push(v);
            },
            Err(_) => {
                assert(!(parse_uint(stat_pieces(line@, head@)[i as int], u64::MAX as int) is Ok));
                return false;
            },
        }
        i = i + 1;
    }
    if vals.len() < 8 {
        return false;
    }
    let ghost d = stat_values(line@, head@);
    assert(d[0] == vals@[0] && d[1] == vals@[1] && d[2] == vals@[2] && d[3] == vals@[3] && d[4]
        == vals@[4] && d[5] == vals@[5] && d[6] == vals@[6] && d[7] == vals@[7]);
    (vals[0] as u128) + (vals[1] as u128) + (vals[2] as u128) + (vals[5] as u128) + (
    vals[6] as u128) + (vals[7] as u128) + (vals[3] as u128) + (vals[4] as u128)
        <= u64::MAX as u128
}

/// The work and total times of the numbers of a readable line.
fn times_of(d: &Vec<u64>, Ghost(vals): Ghost<Seq<int>>) -> (r: (u64, u64))
    requires
        d@.len() == vals.len(),
        vals.len() >= 8,
        forall|i: int| 0 <= i < d@.len() ==> d@[i] == vals[i],
        total_of(vals) <= u64::MAX,
    ensures
        r.0 == work_of(vals),
        r.1 == total_of(vals),
{
    let w = d[0] + d[1] + d[2] + d[5] + d[6] + d[7];
    (w, w + d[3] + d[4])
}

/// The head of the line of CPU `id`.
fn cpu_head_chars(id: usize) -> (r: Vec<char>)
    ensures
        r@ == cpu_head(id as nat),
        r@.len() > 0,
{
    let mut v = chars_of("cpu");
    let digits = decimal_chars(id as u64);
    push_all(&mut v, digits.as_slice());
    v.push(' ');
    proof {
        reveal_strlit("cpu");
        reveal_strlit(" ");
    }
    assert(v@ =~= cpu_head(id as nat));
    v
}

/// Fresh CPUs of the given work and total times.
pub open spec fn fresh_cpus(ts: Seq<(int, int)>) -> Seq<CpuView> {
    ts.map_values(|t: (int, int)| fresh_cpu(t.0 as u64, t.1 as u64))
}

/// The views of a list of CPUs.
pub open spec fn cpus_view(v: Seq<Cpu>) -> Seq<CpuView> {
    v.map_values(|c: Cpu| c@)
}

/// The CPUs `cs` after the lines of CPUs `0..k` were read: each line that holds the head
/// of its CPU updates it; the first update whose usage cannot be computed stops the reading
/// and is reported (`true`).
pub open spec fn cpus_after(cs: Seq<CpuView>, ls: Seq<Seq<char>>, k: int) -> (Seq<CpuView>, bool)
    decreases k,
{
    if k <= 0 {
        (cs, false)
    } else {
        let (prev, failed) = cpus_after(cs, ls, k - 1);
        let id = k - 1;
        let line = ls[id + 1];
        let head = cpu_head(id as nat);
        if failed || !contains(line, head) {
            (prev, failed)
        } else {
            let d = stat_values(line, head);
            let w = work_of(d) as u64;
            let t = total_of(d) as u64;
            (
                prev.update(id, cpu_after(prev[id], w, t)),
                usage_between(prev[id].new_work_time, prev[id].new_total_time, w, t) is None,
            )
        }
    }
}

/// How many CPU lines an update reads: one for each known CPU, as far as the text goes.
pub open spec fn cpu_lines_read(n: int, ls: Seq<Seq<char>>) -> int {
    if n < ls.len() - 1 {
        n
    } else {
        ls.len() - 1
    }
}

/// The CPU lines that an update of `n` CPUs reads can be read.
pub open spec fn update_readable(ls: Seq<Seq<char>>, n: int) -> bool {
    forall|id: int|
        0 <= id < cpu_lines_read(n, ls) ==> stat_line_readable(
            #[trigger] ls[id + 1],
            cpu_head(id as nat),
        )
}

/// Once an update fails, the CPUs read after it are left as they were.
proof fn lemma_cpus_failure_stays(cs: Seq<CpuView>, ls: Seq<Seq<char>>, k: int, m: int)
    requires
        0 <= k <= m,
        cpus_after(cs, ls, k).1,
    ensures
        cpus_after(cs, ls, m) == cpus_after(cs, ls, k),
    decreases m - k,
{
    if k < m {
        lemma_cpus_failure_stays(cs, ls, k, m - 1);
    }
}

/// The whole machine `g` became `g2` with answer `r` from the lines `ls`: where the first
/// line is the `cpu` line, by the reading of its times; `NotFound`, and unchanged,
/// otherwise.
pub open spec fn global_update(g: CpuView, ls: Seq<Seq<char>>, g2: CpuView, r: Result<(), Error>) -> bool {
    if ls.len() >= 1 && contains(ls[0], global_head()) {
        let d = stat_values(ls[0], global_head());
        let w = work_of(d) as u64;
        let t = total_of(d) as u64;
        &&& g2 == cpu_after(g, w, t)
        &&& match usage_between(g.new_work_time, g.new_total_time, w, t) {
            Some(_) => r is Ok,
            None => r matches Err(Error::Internal(InnerError::Overflow)),
        }
    } else {
        g2 == g && r matches Err(Error::Internal(InnerError::NotFound))
    }
}

/// The CPUs of the machine.
pub struct CpusInfo {
    global_cpu: Cpu,
    cpus: Vec<Cpu>,
}

impl CpusInfo {
    /// The whole machine.
    pub closed spec fn global(&self) -> CpuView {
        self.global_cpu@
    }

    /// The CPUs, in the order of their ids.
    pub closed spec fn cpu_list(&self) -> Seq<CpuView> {
        cpus_view(self.cpus@)
    }

    /// Reads the CPUs from a `/proc/stat` text: the whole machine from its first line
    /// (zero times where it is not the `cpu` line), then CPU `0`, `1`, ... from the lines
    /// that follow, as long as each holds the head of its CPU.
    pub fn new(stat: &str) -> (r: Result<Self, Error>)
        requires
            stat_readable(stat@),
        ensures
            r matches Ok(info) && info.global() == fresh_cpu(
                global_times(stat_lines(stat@)).0 as u64,
                global_times(stat_lines(stat@)).1 as u64,
            ) && info.cpu_list() == fresh_cpus(cpu_times_from(stat_lines(stat@), 0)),
    {
        let text = chars_of(stat);
        let trimmed = trim_chars(text.as_slice());
        let ls = lines_chars(trimmed.as_slice());
        let ghost lv = stat_lines(stat@);
        assert(pieces_view(ls@) == lv);
        let gh = chars_of("cpu  ");
        proof {
            reveal_strlit("cpu  ");
        }
        assert(gh@ == global_head());
        assert(ls@[0]@ == lv[0]);
        let global_cpu = match stat_line_numbers(ls[0].as_slice(), gh.as_slice()) {
            Some(d) => {
                let (w, t) = times_of(&d, Ghost(stat_values(lv[0], global_head())));
                Cpu::new(w, t)
            },
            None => Cpu::new(0, 0),
        };
        let mut cpus: Vec<Cpu> = Vec::new();
        let mut id: usize = 0;
        let mut go = true;
        while go && id < ls.len() - 1
            invariant
                pieces_view(ls@) == lv,
                lv.len() >= 1,
                ls@.len() == lv.len(),
                id < lv.len(),
                cpu_lines_readable(lv, id as nat),
                cpus_view(cpus@) + fresh_cpus(cpu_times_from(lv, id as nat)) == fresh_cpus(
                    cpu_times_from(lv, 0),
                ),
                !go ==> cpu_times_from(lv, id as nat) == Seq::<(int, int)>::empty(),
            decreases ls@.len() - id + (if go {
                1int
            } else {
                0int
            }),
        {
            let head = cpu_head_chars(id);
            assert(ls@[id + 1]@ == lv[id + 1]);
            match stat_line_numbers(ls[id + 1].as_slice(), head.as_slice()) {
                Some(d) => {
                    let ghost vals = stat_values(lv[id + 1], cpu_head(id as nat));
                    let (w, t) = times_of(&d, Ghost(vals));
                    let ghost before = cpus_view(cpus@);
                    let ghost rest = cpu_times_from(lv, (id + 1) as nat);
                    assert(cpu_times_from(lv, id as nat) == seq![(work_of(vals), total_of(vals))]
                        + rest);
                    cpus.push(Cpu::new(w, t));
                    assert(cpus_view(cpus@) =~= before.push(fresh_cpu(w, t)));
                    assert(fresh_cpus(cpu_times_from(lv, id as nat)) =~= seq![fresh_cpu(w, t)]
                        + fresh_cpus(rest));
                    assert(cpus_view(cpus@) + fresh_cpus(rest) =~= before + fresh_cpus(
                        cpu_times_from(lv, id as nat),
                    ));
                    id = id + 1;
                },
                None => {
                    go = false;
                },
            }
        }
        assert(cpus_view(cpus@) =~= fresh_cpus(cpu_times_from(lv, 0)));
        Ok(CpusInfo { global_cpu, cpus })
    }

    /// Reads the whole machine from the first line: `NotFound` where there is none or it
    /// is not the `cpu` line, and the CPUs are left as they were.
    fn update_global_from(&mut self, ls: &Vec<Vec<char>>, Ghost(lv): Ghost<Seq<Seq<char>>>) -> (r:
        Result<(), Error>)
        requires
            pieces_view(ls@) == lv,
            lv.len() >= 1 ==> stat_line_readable(lv[0], global_head()),
        ensures
            final(self).cpu_list() == old(self).cpu_list(),
            global_update(old(self).global(), lv, final(self).global(), r),
    {
        if ls.len() == 0 {
            return Err(Error::Internal(InnerError::NotFound));
        }
        let gh = chars_of("cpu  ");
        proof {
            reveal_strlit("cpu  ");
        }
        assert(gh@ == global_head());
        assert(ls@[0]@ == lv[0]);
        match stat_line_numbers(ls[0].as_slice(), gh.as_slice()) {
            Some(d) => {
                let (w, t) = times_of(&d, Ghost(stat_values(lv[0], global_head())));
                self.global_cpu.update(w, t)
            },
            None => Err(Error::Internal(InnerError::NotFound)),
        }
    }

    /// Reads CPU `0`, `1`, ... from the lines after the first, one for each known CPU.
    fn update_cpus_from(&mut self, ls: &Vec<Vec<char>>, Ghost(lv): Ghost<Seq<Seq<char>>>) -> (r:
        Result<(), Error>)
        requires
            pieces_view(ls@) == lv,
            lv.len() >= 1,
            update_readable(lv, old(self).cpu_list().len() as int),
        ensures
            final(self).global() == old(self).global(),
            final(self).cpu_list() == cpus_after(
                old(self).cpu_list(),
                lv,
                cpu_lines_read(old(self).cpu_list().len() as int, lv),
            ).0,
            match r {
                Ok(()) => !cpus_after(
                    old(self).cpu_list(),
                    lv,
                    cpu_lines_read(old(self).cpu_list().len() as int, lv),
                ).1,
                Err(e) => cpus_after(
                    old(self).cpu_list(),
                    lv,
                    cpu_lines_read(old(self).cpu_list().len() as int, lv),
                ).1 && e matches Error::Internal(InnerError::Overflow),
            },
    {
        let n = self.cpus.len();
        let ghost cs = cpus_view(self.cpus@);
        let ghost m = cpu_lines_read(n as int, lv);
        let limit = if n < ls.len() - 1 {
            n
        } else {
            ls.len() - 1
        };
        assert(limit == m);
        let mut id: usize = 0;
        while id < limit
            invariant
                pieces_view(ls@) == lv,
                lv.len() >= 1,
                ls@.len() == lv.len(),
                limit == m,
                m == cpu_lines_read(cs.len() as int, lv),
                n == cs.len(),
                id <= limit,
                limit <= n,
                update_readable(lv, cs.len() as int),
                self.cpus@.len() == n,
                self.global() == old(self).global(),
                cs == old(self).cpu_list(),
                cpus_view(self.cpus@) == cpus_after(cs, lv, id as int).0,
                !cpus_after(cs, lv, id as int).1,
            decreases limit - id,
        {
            let head = cpu_head_chars(id);
            assert(ls@[id + 1]@ == lv[id + 1]);
            assert(stat_line_readable(lv[id + 1], cpu_head(id as nat)));
            let ghost before = cpus_view(self.cpus@);
            match stat_line_numbers(ls[id + 1].as_slice(), head.as_slice()) {
                Some(d) => {
                    let ghost vals = stat_values(lv[id + 1], cpu_head(id as nat));
                    let (w, t) = times_of(&d, Ghost(vals));
                    let ghost prior = self.cpus@[id as int]@;
                    assert(prior == before[id as int]);
                    let res = self.cpus[id].update(w, t);
                    assert(cpus_view(self.cpus@) =~= before.update(
                        id as int,
                        cpu_after(prior, w, t),
                    ));
                    match res {
                        Ok(()) => {},
                        Err(e) => {
                            proof {
                                lemma_cpus_failure_stays(cs, lv, id + 1, m);
                            }
                            return Err(e);
                        },
                    }
                },
                None => {},
            }
            id = id + 1;
        }
        Ok(())
    }

    /// Reads the whole machine anew from a `/proc/stat` text; `NotFound` where its first
    /// line is not the `cpu` line.
    pub fn update_global_cpu(&mut self, stat: &str) -> (r: Result<(), Error>)
        requires
            stat_lines(stat@).len() >= 1 ==> stat_line_readable(
                stat_lines(stat@)[0],
                global_head(),
            ),
        ensures
            final(self).cpu_list() == old(self).cpu_list(),
            global_update(old(self).global(), stat_lines(stat@), final(self).global(), r),
    {
        let text = chars_of(stat);
        let trimmed = trim_chars(text.as_slice());
        let ls = lines_chars(trimmed.as_slice());
        self.update_global_from(&ls, Ghost(stat_lines(stat@)))
    }

    /// Reads the CPUs anew from a `/proc/stat` text: CPU `id` from line `id + 1` where it
    /// holds the head of that CPU, for each known CPU as far as the text goes.
    pub fn update_cpus(&mut self, stat: &str) -> (r: Result<(), Error>)
        requires
            stat_lines(stat@).len() >= 1,
            update_readable(stat_lines(stat@), old(self).cpu_list().len() as int),
        ensures
            final(self).global() == old(self).global(),
            final(self).cpu_list() == cpus_after(
                old(self).cpu_list(),
                stat_lines(stat@),
                cpu_lines_read(old(self).cpu_list().len() as int, stat_lines(stat@)),
            ).0,
            r is Err <==> cpus_after(
                old(self).cpu_list(),
                stat_lines(stat@),
                cpu_lines_read(old(self).cpu_list().len() as int, stat_lines(stat@)),
            ).1,
            r matches Err(e) ==> e matches Error::Internal(InnerError::Overflow),
    {
        let text = chars_of(stat);
        let trimmed = trim_chars(text.as_slice());
        let ls = lines_chars(trimmed.as_slice());
        self.update_cpus_from(&ls, Ghost(stat_lines(stat@)))
    }

    /// Reads the whole machine and then the CPUs anew from a `/proc/stat` text; an error
    /// of the whole machine stops it before the CPUs.
    pub fn update_all(&mut self, stat: &str) -> (r: Result<(), Error>)
        requires
            stat_lines(stat@).len() >= 1 ==> stat_line_readable(
                stat_lines(stat@)[0],
                global_head(),
            ),
            stat_lines(stat@).len() >= 1 ==> update_readable(
                stat_lines(stat@),
                old(self).cpu_list().len() as int,
            ),
        ensures
            ({
                let ls = stat_lines(stat@);
                let (cs, failed) = cpus_after(
                    old(self).cpu_list(),
                    ls,
                    cpu_lines_read(old(self).cpu_list().len() as int, ls),
                );
                exists|gr: Result<(), Error>|
                    global_update(old(self).global(), ls, final(self).global(), gr) && match gr {
                        Err(_) => final(self).cpu_list() == old(self).cpu_list() && r == gr,
                        Ok(()) => final(self).cpu_list() == cs && (r is Err <==> failed),
                    }
            }),
    {
        let text = chars_of(stat);
        let trimmed = trim_chars(text.as_slice());
        let ls = lines_chars(trimmed.as_slice());
        let g = self.update_global_from(&ls, Ghost(stat_lines(stat@)));
        match g {
            Err(e) => {
                return Err(e);
            },
            Ok(()) => {},
        }
        self.update_cpus_from(&ls, Ghost(stat_lines(stat@)))
    }

    /// Whether `new` can read a `/proc/stat` text.
    pub fn is_readable(stat: &str) -> (b: bool)
        ensures
            b == stat_readable(stat@),
    {
        let text = chars_of(stat);
        let trimmed = trim_chars(text.as_slice());
        let ls = lines_chars(trimmed.as_slice());
        let ghost lv = stat_lines(stat@);
        if ls.len() == 0 {
            return false;
        }
        let gh = chars_of("cpu  ");
        proof {
            reveal_strlit("cpu  ");
        }
        assert(ls@[0]@ == lv[0]);
        if !line_readable(ls[0].as_slice(), gh.as_slice()) {
            return false;
        }
        let mut id: usize = 0;
        assert(lv.len() >= 1);
        while id < ls.len() - 1
            invariant
                pieces_view(ls@) == lv,
                ls@.len() == lv.len(),
                lv.len() >= 1,
                lv == stat_lines(stat@),
                stat_line_readable(lv[0], global_head()),
                id < lv.len(),
                cpu_lines_readable(lv, 0) == cpu_lines_readable(lv, id as nat),
            decreases ls@.len() - id,
        {
            let head = cpu_head_chars(id);
            assert(ls@[id + 1]@ == lv[id + 1]);
            if !contains_chars(ls[id + 1].as_slice(), head.as_slice()) {
                assert(!contains(lv[id + 1], cpu_head(id as nat)));
                assert(cpu_lines_readable(lv, id as nat));
                return true;
            }
            if !line_readable(ls[id + 1].as_slice(), head.as_slice()) {
                assert(contains(lv[id + 1], cpu_head(id as nat)));
                assert(!stat_line_readable(lv[id + 1], cpu_head(id as nat)));
                assert(!cpu_lines_readable(lv, id as nat));
                return false;
            }
            assert(cpu_lines_readable(lv, id as nat) == cpu_lines_readable(lv, (id + 1) as nat));
            id = id + 1;
        }
        true
    }

    /// Whether `update_global_cpu` can read a `/proc/stat` text.
    pub fn global_readable(stat: &str) -> (b: bool)
        ensures
            b == (stat_lines(stat@).len() >= 1 ==> stat_line_readable(
                stat_lines(stat@)[0],
                global_head(),
            )),
    {
        let text = chars_of(stat);
        let trimmed = trim_chars(text.as_slice());
        let ls = lines_chars(trimmed.as_slice());
        let ghost lv = stat_lines(stat@);
        if ls.len() == 0 {
            return true;
        }
        let gh = chars_of("cpu  ");
        proof {
            reveal_strlit("cpu  ");
        }
        assert(ls@[0]@ == lv[0]);
        line_readable(ls[0].as_slice(), gh.as_slice())
    }

    /// Whether `update_cpus` can read the CPU lines of a `/proc/stat` text.
    pub fn cpus_readable(&self, stat: &str) -> (b: bool)
        ensures
            b == update_readable(stat_lines(stat@), self.cpu_list().len() as int),
    {
        let text = chars_of(stat);
        let trimmed = trim_chars(text.as_slice());
        let ls = lines_chars(trimmed.as_slice());
        let ghost lv = stat_lines(stat@);
        let n = self.cpus.len();
        if ls.len() == 0 {
            return true;
        }
        let limit = if n < ls.len() - 1 {
            n
        } else {
            ls.len() - 1
        };
        let mut id: usize = 0;
        while id < limit
            invariant
                pieces_view(ls@) == lv,
                ls@.len() == lv.len(),
                lv.len() >= 1,
                n == self.cpu_list().len(),
                lv == stat_lines(stat@),
                limit == cpu_lines_read(n as int, lv),
                id <= limit,
                forall|k: int| 0 <= k < id ==> stat_line_readable(#[trigger] lv[k + 1], cpu_head(k as nat)),
            decreases limit - id,
        {
            let head = cpu_head_chars(id);
            assert(ls@[id + 1]@ == lv[id + 1]);
            if !line_readable(ls[id + 1].as_slice(), head.as_slice()) {
                assert(!stat_line_readable(lv[id + 1], cpu_head(id as nat)));
                assert(0 <= id < cpu_lines_read(n as int, lv));
                proof {
                    let k = id as int;
                    if update_readable(lv, n as int) {
                        assert(stat_line_readable(lv[k + 1], cpu_head(k as nat)));
                    }
                }
                return false;
            }
            id = id + 1;
        }
        true
    }

    /// The whole machine.
    pub fn global_cpu(&self) -> (r: &Cpu)
        ensures
            r@ == self.global(),
    {
        &self.global_cpu
    }

    /// The CPUs, in the order of their ids.
    pub fn cpus(&self) -> (r: &[Cpu])
        ensures
            cpus_view(r@) == self.cpu_list(),
    {
        self.cpus.as_slice()
    }
}

/// A usage never exceeds 10000, a full load.
pub proof fn law_usage_at_most_full(ow: u64, ot: u64, nw: u64, nt: u64)
    ensures
        usage_between(ow, ot, nw, nt) matches Some(u) ==> u <= 10000,
{
}

/// A reading keeps the usage of a CPU within 10000, and makes its newer times the older
/// ones.
pub proof fn law_reading_keeps_usage_bounded(c: CpuView, w: u64, t: u64)
    requires
        c.usage <= 10000,
    ensures
        cpu_after(c, w, t).usage <= 10000,
        cpu_after(c, w, t).old_work_time == c.new_work_time,
        cpu_after(c, w, t).old_total_time == c.new_total_time,
{
}

/// Reading the whole machine from a `/proc/stat` text whose first line is its `cpu` line
/// takes as work time user + nice + system + irq + softirq + steal (the numbers 1, 2, 3, 6,
/// 7 and 8 after the head) and as total time those with idle and iowait (numbers 4 and 5);
/// the times read before become the older ones.
pub proof fn law_global_times(g: CpuView, ls: Seq<Seq<char>>, g2: CpuView, r: Result<(), Error>)
    requires
        global_update(g, ls, g2, r),
        ls.len() >= 1,
        contains(ls[0], global_head()),
        stat_line_readable(ls[0], global_head()),
    ensures
        ({
            let d = stat_values(ls[0], global_head());
            &&& g2.new_work_time == d[0] + d[1] + d[2] + d[5] + d[6] + d[7]
            &&& g2.new_total_time == d[0] + d[1] + d[2] + d[3] + d[4] + d[5] + d[6] + d[7]
        }),
        g2.old_work_time == g.new_work_time,
        g2.old_total_time == g.new_total_time,
{
    let d = stat_values(ls[0], global_head());
    assert(d.len() >= 8);
    assert(forall|i: int| 0 <= i < d.len() ==> d[i] >= 0) by {
        assert forall|i: int| 0 <= i < d.len() implies d[i] >= 0 by {
            lemma_piece_value_nonneg(stat_pieces(ls[0], global_head())[i]);
        }
    }
}

/// The numbers of a line are never negative.
proof fn lemma_piece_value_nonneg(p: Seq<char>)
    ensures
        piece_value(p) >= 0,
{
    crate::text::lemma_parse_uint_range(p, u64::MAX as int);
}

proof fn lemma_cpus_after_len(cs: Seq<CpuView>, ls: Seq<Seq<char>>, k: int)
    requires
        k <= cs.len(),
    ensures
        cpus_after(cs, ls, k).0.len() == cs.len(),
    decreases k,
{
    if k > 0 {
        lemma_cpus_after_len(cs, ls, k - 1);
    }
}

/// Where an update of the CPUs did not fail, CPU `id`, whose line `id + 1` holds its head,
/// takes as work time user + nice + system + irq + softirq + steal of that line and as
/// total time those with idle and iowait, and its times read before become the older ones.
pub proof fn law_cpu_times(cs: Seq<CpuView>, ls: Seq<Seq<char>>, k: int, id: int)
    requires
        0 <= id < k <= cs.len(),
        k < ls.len(),
        !cpus_after(cs, ls, k).1,
        contains(ls[id + 1], cpu_head(id as nat)),
        stat_line_readable(ls[id + 1], cpu_head(id as nat)),
    ensures
        ({
            let d = stat_values(ls[id + 1], cpu_head(id as nat));
            let c = cpus_after(cs, ls, k).0[id];
            &&& c.new_work_time == d[0] + d[1] + d[2] + d[5] + d[6] + d[7]
            &&& c.new_total_time == d[0] + d[1] + d[2] + d[3] + d[4] + d[5] + d[6] + d[7]
            &&& c.old_work_time == cs[id].new_work_time
            &&& c.old_total_time == cs[id].new_total_time
        }),
    decreases k,
{
    let d = stat_values(ls[id + 1], cpu_head(id as nat));
    assert forall|i: int| 0 <= i < d.len() implies d[i] >= 0 by {
        lemma_piece_value_nonneg(stat_pieces(ls[id + 1], cpu_head(id as nat))[i]);
    }
    lemma_cpus_after_len(cs, ls, k - 1);
    let (prev, failed) = cpus_after(cs, ls, k - 1);
    assert(!failed);
    if k - 1 == id {
        lemma_cpus_after_untouched(cs, ls, k - 1, id);
    } else {
        law_cpu_times(cs, ls, k - 1, id);
    }
}

/// The CPUs from `id` on are as they were until line `id + 1` is read.
proof fn lemma_cpus_after_untouched(cs: Seq<CpuView>, ls: Seq<Seq<char>>, k: int, id: int)
    requires
        0 <= k <= id < cs.len(),
    ensures
        cpus_after(cs, ls, k).0[id] == cs[id],
    decreases k,
{
    if k > 0 {
        lemma_cpus_after_len(cs, ls, k - 1);
        lemma_cpus_after_untouched(cs, ls, k - 1, id);
    }
}

/// Between two readings where both times grew and the work time grew by no more than the
/// total time, the usage is the growth of the work time over the growth of the total time,
/// in hundredths of a percent, rounded down; where the work time did not grow, it is zero.
pub proof fn law_usage_ratio(ow: u64, ot: u64, nw: u64, nt: u64)
    requires
        nt > ot,
        nw >= ow,
        nw - ow <= nt - ot,
        (nw - ow) * 10000 <= u64::MAX,
    ensures
        usage_between(ow, ot, nw, nt) matches Some(u) && u * (nt - ot) <= (nw - ow) * 10000 < (u
            + 1) * (nt - ot),
        nw == ow ==> usage_between(ow, ot, nw, nt) == Some(0u16),
{
    let wd: int = nw - ow;
    let td: int = nt - ot;
    let q = (wd * 10000) / td;
    assert(q * td <= wd * 10000 < (q + 1) * td && q <= 10000) by (nonlinear_arith)
        requires
            td > 0,
            0 <= wd <= td,
            q == (wd * 10000) / td,
    ;
}

/// A first reading takes the work and total times of the whole machine from its `cpu` line
/// (user + nice + system + irq + softirq + steal, and those with idle and iowait), and
/// zero where the first line is not that line.
pub proof fn law_initial_global_times(ls: Seq<Seq<char>>)
    requires
        ls.len() >= 1,
    ensures
        contains(ls[0], global_head()) ==> {
            let d = stat_values(ls[0], global_head());
            &&& global_times(ls).0 == d[0] + d[1] + d[2] + d[5] + d[6] + d[7]
            &&& global_times(ls).1 == d[0] + d[1] + d[2] + d[3] + d[4] + d[5] + d[6] + d[7]
        },
        !contains(ls[0], global_head()) ==> global_times(ls) == (0int, 0int),
{
}

/// Entry `j` of the times read for CPUs `id..`: line `id + j + 1` holds the head of CPU
/// `id + j`, and the entry holds user + nice + system + irq + softirq + steal of that line,
/// then those with idle and iowait.
pub open spec fn times_from_line(ls: Seq<Seq<char>>, id: nat, j: int) -> bool {
    let d = stat_values(ls[id + j + 1], cpu_head((id + j) as nat));
    let e = cpu_times_from(ls, id)[j];
    &&& contains(ls[id + j + 1], cpu_head((id + j) as nat))
    &&& e.0 == d[0] + d[1] + d[2] + d[5] + d[6] + d[7]
    &&& e.1 == d[0] + d[1] + d[2] + d[3] + d[4] + d[5] + d[6] + d[7]
}

/// A first reading takes CPU `id + j` from line `id + j + 1`, for as long as each line holds
/// the head of its CPU: its work time is user + nice + system + irq + softirq + steal of
/// that line and its total time those with idle and iowait.
pub proof fn law_initial_cpu_times(ls: Seq<Seq<char>>, id: nat)
    ensures
        forall|j: int|
            0 <= j < cpu_times_from(ls, id).len() ==> #[trigger] times_from_line(ls, id, j),
    decreases ls.len() - id,
{
    if id + 1 < ls.len() && contains(ls[id + 1int], cpu_head(id)) {
        law_initial_cpu_times(ls, id + 1);
        let r = cpu_times_from(ls, id + 1);
        let t = cpu_times_from(ls, id);
        let head = seq![
            (
                work_of(stat_values(ls[id + 1int], cpu_head(id))),
                total_of(stat_values(ls[id + 1int], cpu_head(id))),
            ),
        ];
        assert(t == head + r);
        assert forall|j: int| 0 <= j < t.len() implies #[trigger] times_from_line(ls, id, j) by {
            if j > 0 {
                assert(t[j] == r[j - 1]);
                assert((id + 1) + (j - 1) == id + j);
                assert(((id + 1) + (j - 1)) as nat == (id + j) as nat);
                assert(times_from_line(ls, (id + 1) as nat, j - 1));
            } else {
                assert(t[0] == head[0]);
                assert((id + 0) as nat == id);
            }
        }
    } else {
        assert(cpu_times_from(ls, id) =~= Seq::<(int, int)>::empty());
    }
}
} // verus!
