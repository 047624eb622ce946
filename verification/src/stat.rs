//! `/proc/stat`: kernel and system statistics, and the per-thread memory of
//! the boot time.

use vstd::prelude::*;
use crate::error::InternalError;
use crate::lineformat::{fault_error, to_error, LineFault};
use crate::number::{decimal_in, decimal_value, parse_u32, parse_u64};
use crate::text::{chars_of, lines, lines_of, seqs_of, tokenize, tokens, Separator};

verus! {

/// Time spent by one CPU, or by all of them, in clock ticks.
#[derive(Debug, Clone, Copy, PartialEq, Eq)]
pub struct CpuTime {
    /// Ticks in user mode.
    pub user: u64,
    /// Ticks in user mode with low priority.
    pub nice: u64,
    /// Ticks in system mode.
    pub system: u64,
    /// Ticks in the idle task.
    pub idle: u64,
    /// Ticks waiting for I/O to complete (since Linux 2.5.41).
    pub iowait: Option<u64>,
    /// Ticks servicing interrupts (since Linux 2.6.0).
    pub irq: Option<u64>,
    /// Ticks servicing softirqs (since Linux 2.6.0).
    pub softirq: Option<u64>,
    /// Ticks stolen by other operating systems under virtualization (since Linux 2.6.11).
    pub steal: Option<u64>,
    /// Ticks running a virtual CPU for guests (since Linux 2.6.24).
    pub guest: Option<u64>,
    /// Ticks running a niced guest (since Linux 2.6.33).
    pub guest_nice: Option<u64>,
    /// The clock ticks per second the times are counted in.
    pub tps: u64,
}

/// Statistics of the kernel since boot.
#[derive(Debug)]
pub struct KernelStats {
    /// The time spent by all CPUs together.
    pub total: CpuTime,
    /// The time spent by each CPU.
    pub cpu_time: Vec<CpuTime>,
    /// The number of context switches.
    pub ctxt: u64,
    /// The boot time, in seconds since the epoch.
    pub btime: u64,
    /// The number of processes and threads created.
    pub processes: u32,
    /// The number of threads in a runnable state (since Linux 2.5.45).
    pub procs_running: Option<u32>,
    /// The number of processes blocked waiting for I/O (since Linux 2.5.45).
    pub procs_blocked: Option<u32>,
}

/// The contents of a [`KernelStats`].
pub struct StatsView {
    pub total: CpuTime,
    pub cpu_time: Seq<CpuTime>,
    pub ctxt: u64,
    pub btime: u64,
    pub processes: u32,
    pub procs_running: Option<u32>,
    pub procs_blocked: Option<u32>,
}

impl View for KernelStats {
    type V = StatsView;

    open spec fn view(&self) -> StatsView {
        StatsView {
            total: self.total,
            cpu_time: self.cpu_time@,
            ctxt: self.ctxt,
            btime: self.btime,
            processes: self.processes,
            procs_running: self.procs_running,
            procs_blocked: self.procs_blocked,
        }
    }
}

/// Field `i` of a CPU line, which must be there and be a `u64`.
pub open spec fn req_field(t: Seq<Seq<char>>, i: int) -> Result<u64, LineFault> {
    if i >= t.len() {
        Err(LineFault::MissingField)
    } else {
        match decimal_in(t[i], false, 0, u64::MAX as int) {
            Some(v) => Ok(v as u64),
            None => Err(LineFault::InvalidNumber),
        }
    }
}

/// Field `i` of a CPU line, which older kernels leave out; when there, it
/// must be a `u64`.
pub open spec fn opt_field(t: Seq<Seq<char>>, i: int) -> Result<Option<u64>, LineFault> {
    if i >= t.len() {
        Ok(None)
    } else {
        match decimal_in(t[i], false, 0, u64::MAX as int) {
            Some(v) => Ok(Some(v as u64)),
            None => Err(LineFault::InvalidNumber),
        }
    }
}

/// What a `cpu` line holds: after its label, four tick counts that must be
/// there and six that may be left out, read in order; the first that is
/// missing or not a `u64` is the fault. Later fields are ignored.
pub open spec fn cpu_line(l: Seq<char>, tps: u64) -> Result<CpuTime, LineFault> {
    let t = tokens(l, Separator::Whitespace);
    match req_field(t, 1) {
 Err(f) => Err(f),
 Ok(user) => match req_field(t, 2) {
 Err(f) => Err(f),
 Ok(nice) => match req_field(t, 3) {
 Err(f) => Err(f),
 Ok(system) => match req_field(t, 4) {
 Err(f) => Err(f),
 Ok(idle) => match opt_field(t, 5) {
 Err(f) => Err(f),
 Ok(iowait) => match opt_field(t, 6) {
 Err(f) => Err(f),
 Ok(irq) => match opt_field(t, 7) {
 Err(f) => Err(f),
 Ok(softirq) => match opt_field(t, 8) {
 Err(f) => Err(f),
 Ok(steal) => match opt_field(t, 9) {
 Err(f) => Err(f),
 Ok(guest) => match opt_field(t, 10) {
 Err(f) => Err(f),
 Ok(guest_nice) => Ok(CpuTime { user: user, nice: nice, system: system, idle: idle, iowait: iowait, irq: irq, softirq: softirq, steal: steal, guest: guest, guest_nice: guest_nice, tps }),
 },
 },
 },
 },
 },
 },
 },
 },
 },
 }
}

/// Whether `s` is a decimal in the range of `u64`.
pub open spec fn is_u64_decimal(s: Seq<char>) -> bool {
    decimal_value(s, false) matches Some(v) && 0 <= v <= u64::MAX
}

/// Whether the count `o` is what field `i` of `t` gives: the field's value
/// when the line has that field, nothing when it does not.
pub open spec fn optional_count(t: Seq<Seq<char>>, i: int, o: Option<u64>) -> bool {
    if i < t.len() {
        o matches Some(v) && decimal_value(t[i], false) == Some(v as int)
    } else {
        o is None
    }
}

/// Whether `c` holds the tick counts written in the whitespace-separated
/// fields `t` of a CPU line: after the label, user, nice, system and idle
/// time, then iowait, irq, softirq, steal, guest and guest nice time where
/// the line has them.
pub open spec fn cpu_fields_match(t: Seq<Seq<char>>, c: CpuTime) -> bool {
    &&& t.len() >= 5
    &&& decimal_value(t[1], false) == Some(c.user as int)
    &&& decimal_value(t[2], false) == Some(c.nice as int)
    &&& decimal_value(t[3], false) == Some(c.system as int)
    &&& decimal_value(t[4], false) == Some(c.idle as int)
    &&& optional_count(t, 5, c.iowait)
    &&& optional_count(t, 6, c.irq)
    &&& optional_count(t, 7, c.softirq)
    &&& optional_count(t, 8, c.steal)
    &&& optional_count(t, 9, c.guest)
    &&& optional_count(t, 10, c.guest_nice)
}

/// A CPU line with a label and at least four more fields, whose fields up to
/// the eleventh are all decimals in the range of `u64`, is read as the times
/// those fields give, in the order user, nice, system, idle, ...; and
/// whatever a CPU line is read as is what its fields give.
pub proof fn law_cpu_line(l: Seq<char>, tps: u64)
    ensures
        ({
            let t = tokens(l, Separator::Whitespace);
            &&& (t.len() >= 5 && forall|i: int|
                1 <= i < t.len() && i <= 10 ==> is_u64_decimal(#[trigger] t[i])) ==> (cpu_line(
                l,
                tps,
            ) matches Ok(c) && cpu_fields_match(t, c) && c.tps == tps)
            &&& (cpu_line(l, tps) matches Ok(c) ==> cpu_fields_match(t, c) && c.tps == tps)
        }),
{
    let t = tokens(l, Separator::Whitespace);
    if t.len() >= 5 && forall|i: int| 1 <= i < t.len() && i <= 10 ==> is_u64_decimal(#[trigger] t[i]) {
        assert(is_u64_decimal(t[1]));
        assert(is_u64_decimal(t[2]));
        assert(is_u64_decimal(t[3]));
        assert(is_u64_decimal(t[4]));
        if t.len() > 5 { assert(is_u64_decimal(t[5])); }
        if t.len() > 6 { assert(is_u64_decimal(t[6])); }
        if t.len() > 7 { assert(is_u64_decimal(t[7])); }
        if t.len() > 8 { assert(is_u64_decimal(t[8])); }
        if t.len() > 9 { assert(is_u64_decimal(t[9])); }
        if t.len() > 10 { assert(is_u64_decimal(t[10])); }
    }
}

/// What a line of `/proc/stat` does to the statistics.
#[derive(Debug, Clone, Copy, PartialEq, Eq)]
pub enum StatLine {
    Total(CpuTime),
    Cpu(CpuTime),
    Ctxt(u64),
    Btime(u64),
    Processes(u32),
    Running(u32),
    Blocked(u32),
    Other,
}

pub open spec fn u64_after(l: Seq<char>, n: int) -> Option<int> {
    decimal_in(l.skip(n), false, 0, u64::MAX as int)
}

pub open spec fn u32_after(l: Seq<char>, n: int) -> Option<int> {
    decimal_in(l.skip(n), false, 0, u32::MAX as int)
}

pub open spec fn has_prefix(l: Seq<char>, p: Seq<char>) -> bool {
    p.len() <= l.len() && l.take(p.len() as int) == p
}

/// What one line of `/proc/stat` holds, by its first word: `cpu ` (all CPUs),
/// `cpu` (one CPU), or `ctxt `, `btime `, `processes `, `procs_running `,
/// `procs_blocked ` followed by the number and nothing else; other lines
/// hold nothing that is read.
pub open spec fn stat_line(l: Seq<char>, tps: u64) -> Result<StatLine, LineFault> {
    if has_prefix(l, "cpu "@) {
        match cpu_line(l, tps) {
            Ok(c) => Ok(StatLine::Total(c)),
            Err(f) => Err(f),
        }
    } else if has_prefix(l, "cpu"@) {
        match cpu_line(l, tps) {
            Ok(c) => Ok(StatLine::Cpu(c)),
            Err(f) => Err(f),
        }
    } else if has_prefix(l, "ctxt "@) {
        match u64_after(l, "ctxt "@.len() as int) {
            Some(v) => Ok(StatLine::Ctxt(v as u64)),
            None => Err(LineFault::InvalidNumber),
        }
    } else if has_prefix(l, "btime "@) {
        match u64_after(l, "btime "@.len() as int) {
            Some(v) => Ok(StatLine::Btime(v as u64)),
            None => Err(LineFault::InvalidNumber),
        }
    } else if has_prefix(l, "processes "@) {
        match u32_after(l, "processes "@.len() as int) {
            Some(v) => Ok(StatLine::Processes(v as u32)),
            None => Err(LineFault::InvalidNumber),
        }
    } else if has_prefix(l, "procs_running "@) {
        match u32_after(l, "procs_running "@.len() as int) {
            Some(v) => Ok(StatLine::Running(v as u32)),
            None => Err(LineFault::InvalidNumber),
        }
    } else if has_prefix(l, "procs_blocked "@) {
        match u32_after(l, "procs_blocked "@.len() as int) {
            Some(v) => Ok(StatLine::Blocked(v as u32)),
            None => Err(LineFault::InvalidNumber),
        }
    } else {
        Ok(StatLine::Other)
    }
}

/// What has been read of the statistics so far.
pub struct StatsSoFar {
    pub total: Option<CpuTime>,
    pub cpus: Seq<CpuTime>,
    pub ctxt: Option<u64>,
    pub btime: Option<u64>,
    pub processes: Option<u32>,
    pub running: Option<u32>,
    pub blocked: Option<u32>,
}

/// One line's effect: a value read again replaces the earlier one; CPU lines
/// add up in order.
pub open spec fn apply_line(s: StatsSoFar, e: StatLine) -> StatsSoFar {
    match e {
        StatLine::Total(c) => StatsSoFar { total: Some(c), ..s },
        StatLine::Cpu(c) => StatsSoFar { cpus: s.cpus.push(c), ..s },
        StatLine::Ctxt(v) => StatsSoFar { ctxt: Some(v), ..s },
        StatLine::Btime(v) => StatsSoFar { btime: Some(v), ..s },
        StatLine::Processes(v) => StatsSoFar { processes: Some(v), ..s },
        StatLine::Running(v) => StatsSoFar { running: Some(v), ..s },
        StatLine::Blocked(v) => StatsSoFar { blocked: Some(v), ..s },
        StatLine::Other => s,
    }
}

/// The statistics read from a sequence of lines, or the first line that
/// cannot be read with its fault.
pub open spec fn stats_so_far(ls: Seq<Seq<char>>, tps: u64) -> Result<StatsSoFar, (int, LineFault)>
    decreases ls.len(),
{
    if ls.len() == 0 {
        Ok(
            StatsSoFar {
                total: None,
                cpus: seq![],
                ctxt: None,
                btime: None,
                processes: None,
                running: None,
                blocked: None,
            },
        )
    } else {
        match stats_so_far(ls.drop_last(), tps) {
            Err(e) => Err(e),
            Ok(s) => match stat_line(ls.last(), tps) {
                Err(f) => Err((ls.len() - 1, f)),
                Ok(e) => Ok(apply_line(s, e)),
            },
        }
    }
}

/// The statistics that the text of `/proc/stat` gives, with times counted at
/// `tps` ticks per second. The all-CPU line, the context switches, the boot
/// time and the process count must be there; the first of them that is not
/// is a `MissingEntry` error.
pub open spec fn kernel_stats(text: Seq<char>, tps: u64) -> Result<StatsView, InternalError> {
    match stats_so_far(lines(text), tps) {
        Err((i, f)) => Err(fault_error(f, i)),
        Ok(s) => if s.total is None || s.ctxt is None || s.btime is None || s.processes is None {
            Err(InternalError::MissingEntry)
        } else {
            Ok(
                StatsView {
                    total: s.total->0,
                    cpu_time: s.cpus,
                    ctxt: s.ctxt->0,
                    btime: s.btime->0,
                    processes: s.processes->0,
                    procs_running: s.running,
                    procs_blocked: s.blocked,
                },
            )
        },
    }
}

fn read_req(t: &Vec<Vec<char>>, i: usize) -> (r: Result<u64, LineFault>)
    ensures
        r == req_field(seqs_of(t@), i as int),
{
    if i >= t.len() {
        return Err(LineFault::MissingField);
    }
    match parse_u64(&t[i]) {
        Some(v) => Ok(v),
        None => Err(LineFault::InvalidNumber),
    }
}

fn read_opt(t: &Vec<Vec<char>>, i: usize) -> (r: Result<Option<u64>, LineFault>)
    ensures
        r == opt_field(seqs_of(t@), i as int),
{
    if i >= t.len() {
        return Ok(None);
    }
    match parse_u64(&t[i]) {
        Some(v) => Ok(Some(v)),
        None => Err(LineFault::InvalidNumber),
    }
}

fn read_cpu_line(l: &Vec<char>, tps: u64) -> (r: Result<CpuTime, LineFault>)
    ensures
        r == cpu_line(l@, tps),
{
    let t = tokenize(l, Separator::Whitespace);
    let user = match read_req(&t, 1) {
        Ok(v) => v,
        Err(f) => return Err(f),
    };
    let nice = match read_req(&t, 2) {
        Ok(v) => v,
        Err(f) => return Err(f),
    };
    let system = match read_req(&t, 3) {
        Ok(v) => v,
        Err(f) => return Err(f),
    };
    let idle = match read_req(&t, 4) {
        Ok(v) => v,
        Err(f) => return Err(f),
    };
    let iowait = match read_opt(&t, 5) {
        Ok(v) => v,
        Err(f) => return Err(f),
    };
    let irq = match read_opt(&t, 6) {
        Ok(v) => v,
        Err(f) => return Err(f),
    };
    let softirq = match read_opt(&t, 7) {
        Ok(v) => v,
        Err(f) => return Err(f),
    };
    let steal = match read_opt(&t, 8) {
        Ok(v) => v,
        Err(f) => return Err(f),
    };
    let guest = match read_opt(&t, 9) {
        Ok(v) => v,
        Err(f) => return Err(f),
    };
    let guest_nice = match read_opt(&t, 10) {
        Ok(v) => v,
        Err(f) => return Err(f),
    };
    Ok(CpuTime { user, nice, system, idle, iowait, irq, softirq, steal, guest, guest_nice, tps })
}

/// Whether `l` starts with the characters of `p`.
fn starts_with(l: &Vec<char>, p: &Vec<char>) -> (r: bool)
    ensures
        r == has_prefix(l@, p@),
{
    if p.len() > l.len() {
        return false;
    }
    let mut i: usize = 0;
    while i < p.len()
        invariant
            p.len() <= l.len(),
            i <= p.len(),
            forall|j: int| 0 <= j < i ==> l@[j] == p@[j],
        decreases p.len() - i,
    {
        if l[i] != p[i] {
            assert(l@.take(p.len() as int)[i as int] != p@[i as int]);
            return false;
        }
        i = i + 1;
    }
    assert(l@.take(p.len() as int) =~= p@);
    true
}

/// The characters of `l` from index `n` on.
fn rest_from(l: &Vec<char>, n: usize) -> (r: Vec<char>)
    requires
        n <= l.len(),
    ensures
        r@ == l@.skip(n as int),
{
    let mut r: Vec<char> = Vec::new();
    let mut k = n;
    while k < l.len()
        invariant
            n <= k <= l.len(),
            r@ == l@.subrange(n as int, k as int),
        decreases l.len() - k,
    {
        r.push(l[k]);
        k = k + 1;
        assert(r@ =~= l@.subrange(n as int, k as int));
    }
    assert(r@ =~= l@.skip(n as int));
    r
}

fn read_stat_line(l: &Vec<char>, tps: u64) -> (r: Result<StatLine, LineFault>)
    ensures
        r == stat_line(l@, tps),
{
    let cpu_sp = chars_of("cpu ");
    let cpu = chars_of("cpu");
    let ctxt = chars_of("ctxt ");
    let btime = chars_of("btime ");
    let processes = chars_of("processes ");
    let running = chars_of("procs_running ");
    let blocked = chars_of("procs_blocked ");
    if starts_with(l, &cpu_sp) {
        match read_cpu_line(l, tps) {
            Ok(c) => Ok(StatLine::Total(c)),
            Err(f) => Err(f),
        }
    } else if starts_with(l, &cpu) {
        match read_cpu_line(l, tps) {
            Ok(c) => Ok(StatLine::Cpu(c)),
            Err(f) => Err(f),
        }
    } else if starts_with(l, &ctxt) {
        match parse_u64(&rest_from(l, ctxt.len())) {
            Some(v) => Ok(StatLine::Ctxt(v)),
            None => Err(LineFault::InvalidNumber),
        }
    } else if starts_with(l, &btime) {
        match parse_u64(&rest_from(l, btime.len())) {
            Some(v) => Ok(StatLine::Btime(v)),
            None => Err(LineFault::InvalidNumber),
        }
    } else if starts_with(l, &processes) {
        match parse_u32(&rest_from(l, processes.len())) {
            Some(v) => Ok(StatLine::Processes(v)),
            None => Err(LineFault::InvalidNumber),
        }
    } else if starts_with(l, &running) {
        match parse_u32(&rest_from(l, running.len())) {
            Some(v) => Ok(StatLine::Running(v)),
            None => Err(LineFault::InvalidNumber),
        }
    } else if starts_with(l, &blocked) {
        match parse_u32(&rest_from(l, blocked.len())) {
            Some(v) => Ok(StatLine::Blocked(v)),
            None => Err(LineFault::InvalidNumber),
        }
    } else {
        Ok(StatLine::Other)
    }
}

impl KernelStats {
    /// Reads the text of `/proc/stat`, with times counted at `tps` ticks per
    /// second.
    pub fn from_text(text: &str, tps: u64) -> (r: Result<KernelStats, InternalError>)
        ensures
            match r {
                Ok(s) => kernel_stats(text@, tps) == Ok::<StatsView, InternalError>(s@),
                Err(e) => kernel_stats(text@, tps) == Err::<StatsView, InternalError>(e),
            },
    {
        let chars = chars_of(text);
        let ls = lines_of(&chars);
        let ghost lv = lines(text@);
        let mut total: Option<CpuTime> = None;
        let mut cpus: Vec<CpuTime> = Vec::new();
        let mut ctxt: Option<u64> = None;
        let mut btime: Option<u64> = None;
        let mut processes: Option<u32> = None;
        let mut running: Option<u32> = None;
        let mut blocked: Option<u32> = None;
        let mut i: usize = 0;
        assert(lv.take(0) =~= Seq::<Seq<char>>::empty());
        assert(cpus@ =~= Seq::<CpuTime>::empty());
        while i < ls.len()
            invariant
                i <= ls.len(),
                seqs_of(ls@) == lv,
                lv == lines(text@),
                stats_so_far(lv.take(i as int), tps) == Ok::<StatsSoFar, (int, LineFault)>(
                    StatsSoFar { total, cpus: cpus@, ctxt, btime, processes, running, blocked },
                ),
            decreases ls.len() - i,
        {
            assert(lv.take(i + 1).drop_last() =~= lv.take(i as int));
            assert(lv.take(i + 1).last() == ls@[i as int]@);
            match read_stat_line(&ls[i], tps) {
                Err(f) => {
                    assert(stats_so_far(lv.take(i + 1), tps) == Err::<StatsSoFar, (int, LineFault)>(
                        (i as int, f),
                    ));
                    proof {
                        lemma_stats_fault_stays(lv, tps, i as int + 1);
                    }
                    assert(lv.take(lv.len() as int) =~= lv);
                    return Err(to_error(f, i));
                },
                Ok(e) => {
                    match e {
                        StatLine::Total(c) => {
                            total = Some(c);
                        },
                        StatLine::Cpu(c) => {
                            cpus.push(c);
                        },
                        StatLine::Ctxt(v) => {
                            ctxt = Some(v);
                        },
                        StatLine::Btime(v) => {
                            btime = Some(v);
                        },
                        StatLine::Processes(v) => {
                            processes = Some(v);
                        },
                        StatLine::Running(v) => {
                            running = Some(v);
                        },
                        StatLine::Blocked(v) => {
                            blocked = Some(v);
                        },
                        StatLine::Other => {},
                    }
                },
            }
            i = i + 1;
        }
        assert(lv.take(i as int) =~= lv);
        if total.is_none() || ctxt.is_none() || btime.is_none() || processes.is_none() {
            return Err(InternalError::MissingEntry);
        }
        Ok(
            KernelStats {
                total: total.unwrap(),
                cpu_time: cpus,
                ctxt: ctxt.unwrap(),
                btime: btime.unwrap(),
                processes: processes.unwrap(),
                procs_running: running,
                procs_blocked: blocked,
            },
        )
    }
}

/// Once a line cannot be read, no later line changes the outcome.
proof fn lemma_stats_fault_stays(ls: Seq<Seq<char>>, tps: u64, k: int)
    requires
        0 < k <= ls.len(),
        stats_so_far(ls.take(k), tps) is Err,
    ensures
        stats_so_far(ls, tps) == stats_so_far(ls.take(k), tps),
    decreases ls.len() - k,
{
    if k < ls.len() {
        assert(ls.take(k + 1).drop_last() =~= ls.take(k));
        lemma_stats_fault_stays(ls, tps, k + 1);
    } else {
        assert(ls.take(k) =~= ls);
    }
}

/// Whether line `i` of `ls` is the last one that starts with `p`.
pub open spec fn last_with_prefix(ls: Seq<Seq<char>>, p: Seq<char>, i: int) -> bool {
    &&& 0 <= i < ls.len()
    &&& has_prefix(ls[i], p)
    &&& forall|j: int| i < j < ls.len() ==> !has_prefix(#[trigger] ls[j], p)
}

/// Whether `v` is the number written after the word `p` on the last line of
/// `ls` that starts with `p`.
pub open spec fn last_count(ls: Seq<Seq<char>>, p: Seq<char>, v: int) -> bool {
    exists|i: int|
        last_with_prefix(ls, p, i) && decimal_value(#[trigger] ls[i].skip(p.len() as int), false)
            == Some(v)
}

/// What statistics read from the lines `ls` hold, said of the lines
/// themselves.
pub open spec fn stats_from_lines(ls: Seq<Seq<char>>, tps: u64, s: StatsSoFar) -> bool {
    &&& (s.total matches Some(c) ==> exists|i: int|
        last_with_prefix(ls, "cpu "@, i) && cpu_fields_match(
            #[trigger] tokens(ls[i], Separator::Whitespace),
            c,
        ) && c.tps == tps)
    &&& forall|k: int|
        #![trigger s.cpus[k]]
        0 <= k < s.cpus.len() ==> exists|i: int|
            0 <= i < ls.len() && has_prefix(ls[i], "cpu"@) && !has_prefix(ls[i], "cpu "@)
                && cpu_fields_match(#[trigger] tokens(ls[i], Separator::Whitespace), s.cpus[k])
                && s.cpus[k].tps == tps
    &&& (s.ctxt matches Some(v) ==> last_count(ls, "ctxt "@, v as int))
    &&& (s.btime matches Some(v) ==> last_count(ls, "btime "@, v as int))
    &&& (s.processes matches Some(v) ==> last_count(ls, "processes "@, v as int))
}

/// A line that starts with `p` does not start with a word `q` that differs
/// from `p` at position `k`.
proof fn lemma_prefixes_differ(l: Seq<char>, p: Seq<char>, q: Seq<char>, k: int)
    requires
        has_prefix(l, p),
        0 <= k < p.len(),
        k < q.len(),
        p[k] != q[k],
    ensures
        !has_prefix(l, q),
{
    assert(l.take(p.len() as int)[k] == l[k]);
    if has_prefix(l, q) {
        assert(l.take(q.len() as int)[k] == l[k]);
    }
}

proof fn lemma_stats_from_lines(ls: Seq<Seq<char>>, tps: u64)
    requires
        stats_so_far(ls, tps) is Ok,
    ensures
        stats_from_lines(ls, tps, stats_so_far(ls, tps)->Ok_0),
    decreases ls.len(),
{
    if ls.len() > 0 {
        let pre = ls.drop_last();
        let n = ls.len() - 1;
        let l = ls.last();
        lemma_stats_from_lines(pre, tps);
        let sp = stats_so_far(pre, tps)->Ok_0;
        let e = stat_line(l, tps)->Ok_0;
        let s = stats_so_far(ls, tps)->Ok_0;
        assert(s == apply_line(sp, e));
        assert forall|j: int| 0 <= j < n implies #[trigger] pre[j] == ls[j] by {}
        reveal_strlit("cpu ");
        reveal_strlit("cpu");
        reveal_strlit("ctxt ");
        reveal_strlit("btime ");
        reveal_strlit("processes ");
        reveal_strlit("procs_running ");
        reveal_strlit("procs_blocked ");
        law_cpu_line(l, tps);
        // total
        if let Some(c) = s.total {
            if e is Total {
                assert(has_prefix(l, "cpu "@));
                assert(last_with_prefix(ls, "cpu "@, n));
                assert(tokens(ls[n], Separator::Whitespace) == tokens(l, Separator::Whitespace));
            } else {
                let i = choose|i: int|
                    last_with_prefix(pre, "cpu "@, i) && cpu_fields_match(
                        #[trigger] tokens(pre[i], Separator::Whitespace),
                        c,
                    ) && c.tps == tps;
                assert(!has_prefix(l, "cpu "@));
                assert forall|j: int| i < j < ls.len() implies !has_prefix(#[trigger] ls[j], "cpu "@) by {
                    if j < n {
                        assert(pre[j] == ls[j]);
                    }
                }
                assert(last_with_prefix(ls, "cpu "@, i));
                assert(tokens(ls[i], Separator::Whitespace) == tokens(pre[i], Separator::Whitespace));
            }
        }
        // per-CPU lines
        assert forall|k: int| #![trigger s.cpus[k]] 0 <= k < s.cpus.len() implies exists|i: int|
            0 <= i < ls.len() && has_prefix(ls[i], "cpu"@) && !has_prefix(ls[i], "cpu "@)
                && cpu_fields_match(#[trigger] tokens(ls[i], Separator::Whitespace), s.cpus[k])
                && s.cpus[k].tps == tps by {
            if k < sp.cpus.len() {
                assert(s.cpus[k] == sp.cpus[k]);
                let i = choose|i: int|
                    0 <= i < pre.len() && has_prefix(pre[i], "cpu"@) && !has_prefix(
                        pre[i],
                        "cpu "@,
                    ) && cpu_fields_match(
                        #[trigger] tokens(pre[i], Separator::Whitespace),
                        sp.cpus[k],
                    ) && sp.cpus[k].tps == tps;
                assert(tokens(ls[i], Separator::Whitespace) == tokens(pre[i], Separator::Whitespace));
            } else {
                assert(e is Cpu);
                assert(tokens(ls[n], Separator::Whitespace) == tokens(l, Separator::Whitespace));
            }
        }
        // counts after a word
        if let Some(v) = s.ctxt {
            if e is Ctxt {
                assert(last_with_prefix(ls, "ctxt "@, n));
                assert(decimal_value(ls[n].skip(5), false) == Some(v as int));
            } else {
                let i = choose|i: int|
                    last_with_prefix(pre, "ctxt "@, i) && decimal_value(
                        #[trigger] pre[i].skip(5),
                        false,
                    ) == Some(v as int);
                if has_prefix(l, "ctxt "@) {
                    lemma_prefixes_differ(l, "ctxt "@, "cpu "@, 1);
                    lemma_prefixes_differ(l, "ctxt "@, "cpu"@, 1);
                }
                assert(!has_prefix(l, "ctxt "@));
                assert forall|j: int| i < j < ls.len() implies !has_prefix(#[trigger] ls[j], "ctxt "@) by {
                    if j < n {
                        assert(pre[j] == ls[j]);
                    }
                }
                assert(last_with_prefix(ls, "ctxt "@, i));
                assert(decimal_value(ls[i].skip(5), false) == Some(v as int));
            }
        }
        if let Some(v) = s.btime {
            if e is Btime {
                assert(last_with_prefix(ls, "btime "@, n));
                assert(decimal_value(ls[n].skip(6), false) == Some(v as int));
            } else {
                let i = choose|i: int|
                    last_with_prefix(pre, "btime "@, i) && decimal_value(
                        #[trigger] pre[i].skip(6),
                        false,
                    ) == Some(v as int);
                if has_prefix(l, "btime "@) {
                    lemma_prefixes_differ(l, "btime "@, "cpu "@, 0);
                    lemma_prefixes_differ(l, "btime "@, "cpu"@, 0);
                    lemma_prefixes_differ(l, "btime "@, "ctxt "@, 0);
                }
                assert(!has_prefix(l, "btime "@));
                assert forall|j: int| i < j < ls.len() implies !has_prefix(#[trigger] ls[j], "btime "@) by {
                    if j < n {
                        assert(pre[j] == ls[j]);
                    }
                }
                assert(last_with_prefix(ls, "btime "@, i));
                assert(decimal_value(ls[i].skip(6), false) == Some(v as int));
            }
        }
        if let Some(v) = s.processes {
            if e is Processes {
                assert(last_with_prefix(ls, "processes "@, n));
                assert(decimal_value(ls[n].skip(10), false) == Some(v as int));
            } else {
                let i = choose|i: int|
                    last_with_prefix(pre, "processes "@, i) && decimal_value(
                        #[trigger] pre[i].skip(10),
                        false,
                    ) == Some(v as int);
                if has_prefix(l, "processes "@) {
                    lemma_prefixes_differ(l, "processes "@, "cpu "@, 0);
                    lemma_prefixes_differ(l, "processes "@, "cpu"@, 0);
                    lemma_prefixes_differ(l, "processes "@, "ctxt "@, 0);
                    lemma_prefixes_differ(l, "processes "@, "btime "@, 0);
                }
                assert(!has_prefix(l, "processes "@));
                assert forall|j: int| i < j < ls.len() implies !has_prefix(#[trigger] ls[j], "processes "@) by {
                    if j < n {
                        assert(pre[j] == ls[j]);
                    }
                }
                assert(last_with_prefix(ls, "processes "@, i));
                assert(decimal_value(ls[i].skip(10), false) == Some(v as int));
            }
        }
    }
}

/// Statistics read from a text of `/proc/stat` hold what its lines say: the
/// all-CPU time is the tick counts of the last `cpu ` line (user, nice,
/// system, idle, ... in that order), each per-CPU time is the tick counts of
/// a `cpuN` line, and the context switches, boot time and process count are
/// the numbers on the last `ctxt`, `btime` and `processes` lines.
pub proof fn law_kernel_stats(text: Seq<char>, tps: u64)
    ensures
        kernel_stats(text, tps) matches Ok(s) ==> ({
            let ls = lines(text);
            &&& exists|i: int|
                last_with_prefix(ls, "cpu "@, i) && cpu_fields_match(
                    #[trigger] tokens(ls[i], Separator::Whitespace),
                    s.total,
                ) && s.total.tps == tps
            &&& forall|k: int|
                #![trigger s.cpu_time[k]]
                0 <= k < s.cpu_time.len() ==> exists|i: int|
                    0 <= i < ls.len() && has_prefix(ls[i], "cpu"@) && !has_prefix(ls[i], "cpu "@)
                        && cpu_fields_match(
                        #[trigger] tokens(ls[i], Separator::Whitespace),
                        s.cpu_time[k],
                    ) && s.cpu_time[k].tps == tps
            &&& last_count(ls, "ctxt "@, s.ctxt as int)
            &&& last_count(ls, "btime "@, s.btime as int)
            &&& last_count(ls, "processes "@, s.processes as int)
        }),
{
    if stats_so_far(lines(text), tps) is Ok {
        lemma_stats_from_lines(lines(text), tps);
    }
}

/// What a thread remembers of the boot time: nothing, or the value read the
/// first time.
pub struct BootTimeCache {
    value: Option<u64>,
}

/// What to do to answer a request for the boot time.
pub enum BootTimeStep {
    /// The boot time is known already.
    Known(u64),
    /// `/proc/stat` must be read; record what it gives.
    Read,
}

impl View for BootTimeCache {
    type V = Option<u64>;

    closed spec fn view(&self) -> Option<u64> {
        self.value
    }
}

impl BootTimeCache {
    /// A cache that knows nothing yet.
    pub fn new() -> (c: BootTimeCache)
        ensures
            c@ is None,
    {
        BootTimeCache { value: None }
    }

    /// The answer to a request: the remembered value, or a read of the file.
    pub fn next_step(&self) -> (s: BootTimeStep)
        ensures
            match self@ {
                Some(b) => s == BootTimeStep::Known(b),
                None => s == BootTimeStep::Read,
            },
    {
        match self.value {
            Some(b) => BootTimeStep::Known(b),
            None => BootTimeStep::Read,
        }
    }

    /// Records a boot time that was read, and answers with the value the
    /// cache holds afterwards: a value remembered earlier is kept.
    pub fn record(&mut self, btime: u64) -> (r: u64)
        ensures
            match old(self)@ {
                Some(b) => final(self)@ == Some(b) && r == b,
                None => final(self)@ == Some(btime) && r == btime,
            },
    {
        match self.value {
            Some(b) => b,
            None => {
                self.value = Some(btime);
                btime
            },
        }
    }
}

} // verus!
