//! The system snapshot: processes ranked by resident memory, CPU usage between
//! two samples of `/proc/stat`, memory figures, and the details of one process.
use vstd::prelude::*;
use crate::text::{append_str, chars_of, push_chars, string_of};
use crate::number::{decimal, decimal_chars, signed_chars, signed_decimal};
use crate::procfs::{
    command_text, load_average, load_average_text, meminfo_map, nul_to_space, parse_meminfo,
    process_command, status_fields, status_vmrss, tagged_u32, tagged_u64, vmrss_kb, command_line,
};
use crate::text::{lines, trim};

verus! {

/// How many processes a snapshot lists.
pub const TOP_PROCESS_COUNT: usize = 20;

/// One process as the process table lists it.
#[derive(Clone, Debug, Default)]
pub struct ProcessInfo {
    pub pid: i32,
    pub cmd: String,
    pub rss_kb: u64,
}

/// The table row of a process, built from the texts of its `cmdline`,
/// `comm` and `status` files.
pub fn process_info(pid: i32, cmdline: &str, comm: &str, status: &str) -> (r: ProcessInfo)
    ensures
        r.pid == pid,
        r.cmd@ == command_text(cmdline@, comm@),
        r.rss_kb == status_vmrss(lines(status@)),
{
    ProcessInfo { pid, cmd: process_command(cmdline, comm), rss_kb: vmrss_kb(status) }
}

// ---------------------------------------------------------------------------
// Ranking processes by resident memory
// ---------------------------------------------------------------------------
/// Index `j` occurs in `perm`.
pub open spec fn ranks(perm: Seq<int>, j: int) -> bool {
    exists|k: int| 0 <= k < perm.len() && #[trigger] perm[k] == j
}

/// `perm` lists every index of `input` once, in the order of a stable sort by
/// resident memory, largest first: equal sizes keep their input order.
pub open spec fn is_rss_ranking(input: Seq<ProcessInfo>, perm: Seq<int>) -> bool {
    &&& perm.len() == input.len()
    &&& forall|k: int| 0 <= k < perm.len() ==> 0 <= #[trigger] perm[k] < input.len()
    &&& forall|a: int, b: int| 0 <= a < b < perm.len() ==> perm[a] != perm[b]
    &&& forall|j: int| 0 <= j < input.len() ==> #[trigger] ranks(perm, j)
    &&& forall|a: int, b: int|
        0 <= a < b < perm.len() ==> input[perm[a]].rss_kb >= input[perm[b]].rss_kb
    &&& forall|a: int, b: int|
        0 <= a < b < perm.len() && input[perm[a]].rss_kb == input[perm[b]].rss_kb ==> perm[a]
            < perm[b]
}

/// `out` is the first `limit` processes of the stable ranking of `input` by
/// resident memory, largest first.
pub open spec fn is_top_of(input: Seq<ProcessInfo>, limit: nat, out: Seq<ProcessInfo>) -> bool {
    &&& out.len() == (if input.len() < limit {
        input.len()
    } else {
        limit
    })
    &&& exists|perm: Seq<int>|
        is_rss_ranking(input, perm) && forall|k: int|
            0 <= k < out.len() ==> #[trigger] out[k] == input[perm[k]]
}

/// The first of the processes with the most resident memory, at most `limit`
/// of them, largest first; processes of equal size keep their order.
pub fn top_processes(procs: Vec<ProcessInfo>, limit: usize) -> (r: Vec<ProcessInfo>)
    ensures
        is_top_of(procs@, limit as nat, r@),
{
    let ghost input = procs@;
    let mut rest = procs;
    let mut out: Vec<ProcessInfo> = Vec::new();
    let ghost mut perm: Seq<int> = Seq::empty();
    let ghost mut i: int = 0;
    assert(input.skip(0) =~= input);
    while rest.len() > 0
        invariant
            0 <= i <= input.len(),
            rest@ == input.skip(i),
            out@.len() == i,
            perm.len() == i,
            forall|k: int| 0 <= k < i ==> 0 <= #[trigger] perm[k] < i,
            forall|a: int, b: int| 0 <= a < b < i ==> perm[a] != perm[b],
            forall|j: int| 0 <= j < i ==> #[trigger] ranks(perm, j),
            forall|k: int| 0 <= k < i ==> #[trigger] out@[k] == input[perm[k]],
            forall|a: int, b: int| 0 <= a < b < i ==> out@[a].rss_kb >= out@[b].rss_kb,
            forall|a: int, b: int|
                0 <= a < b < i && out@[a].rss_kb == out@[b].rss_kb ==> perm[a] < perm[b],
        decreases rest@.len(),
    {
        let p = rest.remove(0);
        assert(p == input[i]);
        assert(rest@ =~= input.skip(i + 1));
        let mut pos: usize = 0;
        while pos < out.len() && out[pos].rss_kb >= p.rss_kb
            invariant
                pos <= out@.len(),
                forall|k: int| 0 <= k < pos ==> out@[k].rss_kb >= p.rss_kb,
            decreases out@.len() - pos,
        {
            pos = pos + 1;
        }
        let ghost old_out = out@;
        let ghost old_perm = perm;
        proof {
            // every element from `pos` on is smaller than `p`
            assert forall|k: int| pos <= k < old_out.len() implies old_out[k].rss_kb
                < p.rss_kb by {
                if k > pos {
                    assert(old_out[pos as int].rss_kb >= old_out[k].rss_kb);
                }
            }
            old_out.insert_ensures(pos as int, p);
            old_perm.insert_ensures(pos as int, i);
        }
        out.insert(pos, p);
        proof {
            perm = old_perm.insert(pos as int, i);
            let np = perm;
            let no = out@;
            assert forall|k: int| 0 <= k < i + 1 implies 0 <= #[trigger] np[k] < i + 1 by {
                if k < pos {
                    assert(np[k] == old_perm[k]);
                } else if k > pos {
                    assert(np[k] == old_perm[k - 1]);
                }
            }
            assert forall|j: int| 0 <= j < i + 1 implies #[trigger] ranks(np, j) by {
                if j == i {
                    assert(np[pos as int] == i);
                } else {
                    assert(ranks(old_perm, j));
                    let k0 = choose|k: int| 0 <= k < old_perm.len() && old_perm[k] == j;
                    if k0 < pos {
                        assert(np[k0] == old_perm[k0]);
                    } else {
                        assert(np[k0 + 1] == old_perm[k0]);
                    }
                }
            }
            assert forall|k: int| 0 <= k < i + 1 implies #[trigger] no[k] == input[np[k]] by {
                if k < pos {
                    assert(np[k] == old_perm[k]);
                    assert(no[k] == old_out[k]);
                } else if k > pos {
                    assert(np[k] == old_perm[k - 1]);
                    assert(no[k] == old_out[k - 1]);
                }
            }
            assert forall|a: int, b: int| 0 <= a < b < i + 1 implies np[a] != np[b] by {
                if a < pos && b < pos {
                    assert(np[a] == old_perm[a] && np[b] == old_perm[b]);
                } else if a < pos && b == pos {
                    assert(np[a] == old_perm[a]);
                } else if a < pos && b > pos {
                    assert(np[a] == old_perm[a] && np[b] == old_perm[b - 1]);
                } else if a == pos {
                    assert(np[b] == old_perm[b - 1]);
                } else {
                    assert(np[a] == old_perm[a - 1] && np[b] == old_perm[b - 1]);
                }
            }
            assert forall|a: int, b: int| 0 <= a < b < i + 1 implies no[a].rss_kb
                >= no[b].rss_kb by {
                if a < pos && b < pos {
                    assert(no[a] == old_out[a] && no[b] == old_out[b]);
                } else if a < pos && b == pos {
                    assert(no[a] == old_out[a]);
                } else if a < pos && b > pos {
                    assert(no[a] == old_out[a] && no[b] == old_out[b - 1]);
                } else if a == pos {
                    assert(no[b] == old_out[b - 1]);
                } else {
                    assert(no[a] == old_out[a - 1] && no[b] == old_out[b - 1]);
                }
            }
            assert forall|a: int, b: int|
                0 <= a < b < i + 1 && no[a].rss_kb == no[b].rss_kb implies np[a] < np[b] by {
                if a < pos && b < pos {
                    assert(no[a] == old_out[a] && no[b] == old_out[b]);
                    assert(np[a] == old_perm[a] && np[b] == old_perm[b]);
                } else if a < pos && b == pos {
                    assert(np[a] == old_perm[a]);
                } else if a < pos && b > pos {
                    assert(no[a] == old_out[a] && no[b] == old_out[b - 1]);
                } else if a == pos {
                    assert(no[b] == old_out[b - 1]);
                } else {
                    assert(no[a] == old_out[a - 1] && no[b] == old_out[b - 1]);
                    assert(np[a] == old_perm[a - 1] && np[b] == old_perm[b - 1]);
                }
            }
            i = i + 1;
        }
    }
    proof {
        assert(i == input.len());
        assert(is_rss_ranking(input, perm));
    }
    out.truncate(limit);
    proof {
        let n = out@.len();
        assert forall|k: int| 0 <= k < n implies #[trigger] out@[k] == input[perm[k]] by {}
    }
    out
}

/// No process left out of the listing has more resident memory than the last
/// one listed: a process with more is listed.
pub proof fn lemma_top_listing_dominates(input: Seq<ProcessInfo>, limit: nat, out: Seq<ProcessInfo>)
    requires
        is_top_of(input, limit, out),
        out.len() > 0,
    ensures
        forall|j: int|
            0 <= j < input.len() && input[j].rss_kb > out.last().rss_kb ==> exists|k: int|
                0 <= k < out.len() && out[k] == input[j],
{
    let perm = choose|perm: Seq<int>|
        is_rss_ranking(input, perm) && forall|k: int|
            0 <= k < out.len() ==> #[trigger] out[k] == input[perm[k]];
    assert forall|j: int|
        0 <= j < input.len() && input[j].rss_kb > out.last().rss_kb implies exists|k: int|
        0 <= k < out.len() && out[k] == input[j] by {
        assert(ranks(perm, j));
        let k = choose|k: int| 0 <= k < perm.len() && perm[k] == j;
        let last = out.len() - 1;
        assert(out[last] == input[perm[last]]);
        if k > last {
            assert(input[perm[last]].rss_kb >= input[perm[k]].rss_kb);
        } else if k < last {
            assert(out[k] == input[perm[k]]);
        }
    }
}

/// The listing is ordered by resident memory, largest first.
pub proof fn lemma_top_listing_sorted(input: Seq<ProcessInfo>, limit: nat, out: Seq<ProcessInfo>)
    requires
        is_top_of(input, limit, out),
    ensures
        forall|a: int, b: int| 0 <= a < b < out.len() ==> out[a].rss_kb >= out[b].rss_kb,
{
    let perm = choose|perm: Seq<int>|
        is_rss_ranking(input, perm) && forall|k: int|
            0 <= k < out.len() ==> #[trigger] out[k] == input[perm[k]];
    assert forall|a: int, b: int| 0 <= a < b < out.len() implies out[a].rss_kb >= out[b].rss_kb by {
        assert(out[a] == input[perm[a]]);
        assert(out[b] == input[perm[b]]);
    }
}

// ---------------------------------------------------------------------------
// CPU usage between two samples
// ---------------------------------------------------------------------------
/// Idle and total CPU time that passed between two samples of one CPU line.
/// The busy fraction `1 - idle / total` (0 when `total` is 0, and never below
/// 0) is the usage that the gauges show; it is kept here as these two
/// integers and divided only where the gauge is drawn.
#[derive(Clone, Copy, Debug, Default, PartialEq, Eq)]
pub struct CpuUsage {
    pub idle: u64,
    pub total: u64,
}

/// `a - b`, or 0 when `b` is larger.
pub open spec fn sat_sub(a: u64, b: u64) -> u64 {
    if a >= b {
        (a - b) as u64
    } else {
        0
    }
}

/// The time that passed on one CPU line between the samples `prev` and `cur`,
/// each a (total, idle) pair.
pub open spec fn usage_between(prev: (u64, u64), cur: (u64, u64)) -> CpuUsage {
    CpuUsage { idle: sat_sub(cur.1, prev.1), total: sat_sub(cur.0, prev.0) }
}

/// The usage of every CPU line between two samples of `/proc/stat`; none when
/// there is no earlier sample or the two have different numbers of lines.
pub open spec fn usage_deltas(prev: Option<Seq<(u64, u64)>>, cur: Seq<(u64, u64)>) -> Seq<CpuUsage> {
    match prev {
        Some(p) => if p.len() == cur.len() {
            Seq::new(cur.len(), |i: int| usage_between(p[i], cur[i]))
        } else {
            seq![]
        },
        None => seq![],
    }
}

/// The numerator of the busy fraction of `u`: total minus idle time, 0 when
/// idle exceeds total.
pub open spec fn busy_num(u: CpuUsage) -> nat {
    if u.idle <= u.total {
        (u.total - u.idle) as nat
    } else {
        0
    }
}

/// The denominator of the busy fraction of `u`: the total time, 1 when no time
/// passed (the fraction is then 0).
pub open spec fn busy_den(u: CpuUsage) -> nat {
    if u.total == 0 {
        1
    } else {
        u.total as nat
    }
}

/// The share of the time that a CPU was busy lies between 0 and 1.
pub proof fn lemma_busy_fraction_bounded(u: CpuUsage)
    ensures
        busy_den(u) > 0,
        busy_num(u) <= busy_den(u),
        u.total == 0 ==> busy_num(u) == 0,
{
}

/// The usage of every CPU line between the samples `prev` and `cur`.
pub fn cpu_usage_deltas(prev: Option<Vec<(u64, u64)>>, cur: &Vec<(u64, u64)>) -> (r: Vec<CpuUsage>)
    ensures
        r@ == usage_deltas(
            match prev {
                Some(p) => Some(p@),
                None => None,
            },
            cur@,
        ),
{
    let mut out: Vec<CpuUsage> = Vec::new();
    match &prev {
        Some(p) => {
            if p.len() == cur.len() {
                let mut i: usize = 0;
                while i < cur.len()
                    invariant
                        p@.len() == cur@.len(),
                        i <= cur@.len(),
                        out@ == Seq::new(i as nat, |j: int| usage_between(p@[j], cur@[j])),
                    decreases cur@.len() - i,
                {
                    let (total, idle) = cur[i];
                    let (ptotal, pidle) = p[i];
                    out.push(
                        CpuUsage { idle: idle.saturating_sub(pidle), total: total.saturating_sub(ptotal) },
                    );
                    i = i + 1;
                    assert(out@ =~= Seq::new(i as nat, |j: int| usage_between(p@[j], cur@[j])));
                }
            }
        },
        None => {},
    }
    proof {
        let e = usage_deltas(
            match prev {
                Some(p) => Some(p@),
                None => None,
            },
            cur@,
        );
        assert(out@ =~= e);
    }
    out
}

/// How busy a CPU was, in the bands that colour its gauge.
#[derive(Clone, Copy, Debug, PartialEq, Eq)]
pub enum UsageLevel {
    /// Busy less than half of the time.
    Low,
    /// Busy at least half but less than four fifths of the time.
    Medium,
    /// Busy at least four fifths of the time.
    High,
}

/// The band of the busy fraction `busy_num / busy_den`.
pub open spec fn usage_level_of(u: CpuUsage) -> UsageLevel {
    if 2 * busy_num(u) < busy_den(u) {
        UsageLevel::Low
    } else if 5 * busy_num(u) < 4 * busy_den(u) {
        UsageLevel::Medium
    } else {
        UsageLevel::High
    }
}

/// The band of a CPU's busy fraction.
pub fn usage_level(u: CpuUsage) -> (r: UsageLevel)
    ensures
        r == usage_level_of(u),
{
    let num: u128 = if u.idle <= u.total {
        (u.total - u.idle) as u128
    } else {
        0
    };
    let den: u128 = if u.total == 0 {
        1
    } else {
        u.total as u128
    };
    if 2 * num < den {
        UsageLevel::Low
    } else if 5 * num < 4 * den {
        UsageLevel::Medium
    } else {
        UsageLevel::High
    }
}

// ---------------------------------------------------------------------------
// Memory
// ---------------------------------------------------------------------------
/// Memory in use and in total, from `/proc/meminfo`'s total and available.
#[derive(Clone, Copy, Debug, PartialEq, Eq)]
pub struct MemoryUsage {
    pub used_kb: u64,
    pub used_mb: u64,
    pub total_mb: u64,
}

/// Memory in use is the total less what is available (0 when more is
/// available than the total); the megabyte figures round down.
pub fn memory_usage(total_kb: u64, available_kb: u64) -> (r: MemoryUsage)
    ensures
        r.used_kb == sat_sub(total_kb, available_kb),
        r.used_kb <= total_kb,
        r.used_mb == r.used_kb / 1024,
        r.total_mb == total_kb / 1024,
{
    let used_kb = total_kb.saturating_sub(available_kb);
    MemoryUsage { used_kb, used_mb: used_kb / 1024, total_mb: total_kb / 1024 }
}

/// The memory gauge's title: `Memory: <used> / <total> MB`.
pub fn memory_title(m: &MemoryUsage) -> (r: String)
    ensures
        r@ == "Memory: "@ + decimal(m.used_mb as nat) + " / "@ + decimal(m.total_mb as nat)
            + " MB"@,
{
    let mut s = String::new();
    append_str(&mut s, "Memory: ");
    let a = decimal_chars(m.used_mb);
    push_chars(&mut s, a.as_slice());
    append_str(&mut s, " / ");
    let b = decimal_chars(m.total_mb);
    push_chars(&mut s, b.as_slice());
    append_str(&mut s, " MB");
    assert(s@ =~= "Memory: "@ + decimal(m.used_mb as nat) + " / "@ + decimal(m.total_mb as nat)
        + " MB"@);
    s
}

// ---------------------------------------------------------------------------
// The snapshot
// ---------------------------------------------------------------------------
/// What the monitor shows at one moment.
#[derive(Clone, Debug)]
pub struct SystemSnapshot {
    /// Usage summed over all CPUs since the previous sample.
    pub cpu_usage: CpuUsage,
    /// Usage of the aggregate line, then of each core, since the previous sample.
    pub per_cpu_usage: Vec<CpuUsage>,
    /// The 1, 5 and 15 minute load averages.
    pub load_avg: String,
    pub mem_total_kb: u64,
    pub mem_available_kb: u64,
    /// The processes with the most resident memory, largest first.
    pub processes: Vec<ProcessInfo>,
}

impl Default for SystemSnapshot {
    /// The snapshot shown before the first sample: all empty and zero.
    fn default() -> (r: Self)
        ensures
            r.cpu_usage == (CpuUsage { idle: 0, total: 0 }),
            r.per_cpu_usage@.len() == 0,
            r.load_avg@.len() == 0,
            r.mem_total_kb == 0,
            r.mem_available_kb == 0,
            r.processes@.len() == 0,
    {
        SystemSnapshot {
            cpu_usage: CpuUsage { idle: 0, total: 0 },
            per_cpu_usage: Vec::new(),
            load_avg: String::new(),
            mem_total_kb: 0,
            mem_available_kb: 0,
            processes: Vec::new(),
        }
    }
}

/// The view of an optional sample of `/proc/stat`.
pub open spec fn sample_view(p: Option<Vec<(u64, u64)>>) -> Option<Seq<(u64, u64)>> {
    match p {
        Some(v) => Some(v@),
        None => None,
    }
}

/// The value of `k` in `m`, or 0 when `m` has none.
pub open spec fn value_or_zero(m: Map<Seq<char>, u64>, k: Seq<char>) -> u64 {
    if m.dom().contains(k) {
        m[k]
    } else {
        0
    }
}

/// The snapshot made of a new sample `stats` of `/proc/stat` (with the previous
/// one, `prev`, if any), the texts of `/proc/meminfo` and `/proc/loadavg`, and
/// the ranked processes.
pub fn assemble_snapshot(
    prev: Option<Vec<(u64, u64)>>,
    stats: &Vec<(u64, u64)>,
    meminfo: &str,
    loadavg: &str,
    processes: Vec<ProcessInfo>,
) -> (r: SystemSnapshot)
    ensures
        r.per_cpu_usage@ == usage_deltas(sample_view(prev), stats@),
        r.cpu_usage == (if r.per_cpu_usage@.len() > 0 {
            r.per_cpu_usage@[0]
        } else {
            CpuUsage { idle: 0, total: 0 }
        }),
        r.mem_total_kb == value_or_zero(meminfo_map(meminfo@), "MemTotal"@),
        r.mem_available_kb == value_or_zero(meminfo_map(meminfo@), "MemAvailable"@),
        r.load_avg@ == load_average_text(loadavg@),
        r.processes == processes,
{
    let per_cpu_usage = cpu_usage_deltas(prev, stats);
    let cpu_usage = if per_cpu_usage.len() > 0 {
        per_cpu_usage[0]
    } else {
        CpuUsage { idle: 0, total: 0 }
    };
    let mem = parse_meminfo(meminfo);
    let mem_total_kb = match mem.get("MemTotal") {
        Some(v) => v,
        None => 0,
    };
    let mem_available_kb = match mem.get("MemAvailable") {
        Some(v) => v,
        None => 0,
    };
    SystemSnapshot {
        cpu_usage,
        per_cpu_usage,
        load_avg: load_average(loadavg),
        mem_total_kb,
        mem_available_kb,
        processes,
    }
}

/// What the background sampler keeps and sends after one attempt at a
/// snapshot: on success the new sample becomes the baseline of the next
/// attempt and the snapshot is sent; after a failure there is no baseline and
/// nothing is sent.
pub fn sampler_step<E>(outcome: Result<(SystemSnapshot, Vec<(u64, u64)>), E>) -> (r: (
    Option<Vec<(u64, u64)>>,
    Option<SystemSnapshot>,
))
    ensures
        match outcome {
            Ok((snap, sample)) => r.0 == Some(sample) && r.1 == Some(snap),
            Err(_) => r.0 is None && r.1 is None,
        },
{
    match outcome {
        Ok((snap, sample)) => (Some(sample), Some(snap)),
        Err(_) => (None, None),
    }
}

// ---------------------------------------------------------------------------
// Display rows
// ---------------------------------------------------------------------------
/// How many CPU gauges the details pane shows at most.
pub const MAX_CORE_GAUGES: usize = 16;

/// One gauge of the details pane.
#[derive(Clone, Debug)]
pub struct CoreGauge {
    pub label: String,
    pub level: UsageLevel,
    pub usage: CpuUsage,
}

/// The label of the `i`-th CPU line: `all` for the aggregate, then `cpu0`,
/// `cpu1`, ...
pub open spec fn core_label(i: nat) -> Seq<char> {
    if i == 0 {
        "all"@
    } else {
        "cpu"@ + decimal((i - 1) as nat)
    }
}

fn labeled(label: &str, value: &[char]) -> (r: String)
    ensures
        r@ == label@ + value@,
{
    let mut s = String::new();
    append_str(&mut s, label);
    push_chars(&mut s, value);
    assert(s@ =~= label@ + value@);
    s
}

/// The gauges of the first CPU lines (at most [`MAX_CORE_GAUGES`]): label,
/// band and usage of each.
pub fn core_gauges(per_cpu: &Vec<CpuUsage>) -> (r: Vec<CoreGauge>)
    ensures
        r@.len() == (if per_cpu@.len() < MAX_CORE_GAUGES {
            per_cpu@.len()
        } else {
            MAX_CORE_GAUGES as nat
        }),
        forall|i: int|
            0 <= i < r@.len() ==> {
                &&& (#[trigger] r@[i]).label@ == core_label(i as nat)
                &&& r@[i].usage == per_cpu@[i]
                &&& r@[i].level == usage_level_of(per_cpu@[i])
            },
{
    let n: usize = if per_cpu.len() < MAX_CORE_GAUGES {
        per_cpu.len()
    } else {
        MAX_CORE_GAUGES
    };
    let mut out: Vec<CoreGauge> = Vec::new();
    let mut i: usize = 0;
    while i < n
        invariant
            n <= per_cpu@.len(),
            n <= MAX_CORE_GAUGES,
            i <= n,
            out@.len() == i,
            forall|j: int|
                0 <= j < i ==> {
                    &&& (#[trigger] out@[j]).label@ == core_label(j as nat)
                    &&& out@[j].usage == per_cpu@[j]
                    &&& out@[j].level == usage_level_of(per_cpu@[j])
                },
        decreases n - i,
    {
        let u = per_cpu[i];
        let label = if i == 0 {
            let e: Vec<char> = Vec::new();
            let s = labeled("all", e.as_slice());
            assert(s@ =~= "all"@);
            s
        } else {
            let d = decimal_chars((i - 1) as u64);
            labeled("cpu", d.as_slice())
        };
        out.push(CoreGauge { label, level: usage_level(u), usage: u });
        i = i + 1;
    }
    out
}

/// The cells of a process's table row: pid, resident memory (kB), command.
pub fn process_row(p: &ProcessInfo) -> (r: (String, String, String))
    ensures
        r.0@ == signed_decimal(p.pid as int),
        r.1@ == decimal(p.rss_kb as nat),
        r.2@ == p.cmd@,
{
    let pid = signed_chars(p.pid as i64);
    let rss = decimal_chars(p.rss_kb);
    let cmd = chars_of(p.cmd.as_str());
    (string_of(pid.as_slice()), string_of(rss.as_slice()), string_of(cmd.as_slice()))
}

/// The heading of the CPU gauges: `Loadavg: ` and the load averages.
pub fn load_header(load_avg: &String) -> (r: String)
    ensures
        r@ == "Loadavg: "@ + load_avg@,
{
    let cs = chars_of(load_avg.as_str());
    labeled("Loadavg: ", cs.as_slice())
}

// ---------------------------------------------------------------------------
// Process details
// ---------------------------------------------------------------------------
/// What the details pane shows of one process.
#[derive(Clone, Debug, Default)]
pub struct ProcessDetails {
    pub pid: i32,
    pub cmdline: String,
    pub exe: String,
    pub cwd: String,
    pub uid: Option<u32>,
    pub gid: Option<u32>,
    pub threads: Option<u32>,
    pub rss_kb: Option<u64>,
    pub open_fds: Option<usize>,
}

/// The details of process `pid`, from the text of its `cmdline` and `status`
/// files, the targets of its `exe` and `cwd` links (empty when unreadable),
/// and the number of its open descriptors, if known.
pub fn process_details(
    pid: i32,
    cmdline: &str,
    exe: String,
    cwd: String,
    status: &str,
    open_fds: Option<usize>,
) -> (r: ProcessDetails)
    ensures
        r.pid == pid,
        r.cmdline@ == trim(nul_to_space(cmdline@)),
        r.exe == exe,
        r.cwd == cwd,
        r.uid == tagged_u32(lines(status@), "Uid:"@),
        r.gid == tagged_u32(lines(status@), "Gid:"@),
        r.threads == tagged_u32(lines(status@), "Threads:"@),
        r.rss_kb == tagged_u64(lines(status@), "VmRSS:"@),
        r.open_fds == open_fds,
{
    let f = status_fields(status);
    ProcessDetails {
        pid,
        cmdline: command_line(cmdline),
        exe,
        cwd,
        uid: f.uid,
        gid: f.gid,
        threads: f.threads,
        rss_kb: f.rss_kb,
        open_fds,
    }
}

/// `seq![line]` when `cond` holds, else nothing.
pub open spec fn line_if(cond: bool, line: Seq<char>) -> Seq<Seq<char>> {
    if cond {
        seq![line]
    } else {
        seq![]
    }
}

/// The line `label` + the decimal of the value, when there is a value.
pub open spec fn number_line(label: Seq<char>, v: Option<nat>, suffix: Seq<char>) -> Seq<Seq<char>> {
    match v {
        Some(n) => seq![label + decimal(n) + suffix],
        None => seq![],
    }
}

/// `Some(n)` as a natural number.
pub open spec fn nat_of_u32(v: Option<u32>) -> Option<nat> {
    match v {
        Some(n) => Some(n as nat),
        None => None,
    }
}

/// `Some(n)` as a natural number.
pub open spec fn nat_of_u64(v: Option<u64>) -> Option<nat> {
    match v {
        Some(n) => Some(n as nat),
        None => None,
    }
}

/// `Some(n)` as a natural number.
pub open spec fn nat_of_usize(v: Option<usize>) -> Option<nat> {
    match v {
        Some(n) => Some(n as nat),
        None => None,
    }
}

/// The lines of the details pane for `d`: the pid, then each field that is
/// known (the texts when not empty).
pub open spec fn detail_lines_of(d: ProcessDetails) -> Seq<Seq<char>> {
    seq!["PID: "@ + signed_decimal(d.pid as int)] + line_if(d.cmdline@.len() > 0, "Cmd: "@ + d.cmdline@)
        + line_if(d.exe@.len() > 0, "Exe: "@ + d.exe@) + line_if(d.cwd@.len() > 0, "Cwd: "@ + d.cwd@)
        + number_line("UID: "@, nat_of_u32(d.uid), seq![]) + number_line(
        "GID: "@,
        nat_of_u32(d.gid),
        seq![],
    ) + number_line("Threads: "@, nat_of_u32(d.threads), seq![]) + number_line(
        "RSS: "@,
        nat_of_u64(d.rss_kb),
        " KB"@,
    ) + number_line("Open fds: "@, nat_of_usize(d.open_fds), seq![])
}

/// 1 when `b` holds, else 0.
pub open spec fn flag(b: bool) -> int {
    if b {
        1
    } else {
        0
    }
}

/// The details pane, field by field: the pid line first; then, each only when
/// the field is known (the texts when not empty), the command line, the
/// executable, the working directory, the uid, the gid, the thread count, the
/// resident size in kB and the number of open descriptors, in that order and
/// each on one line; nothing else.
#[verifier::spinoff_prover]
#[verifier::rlimit(60)]
pub proof fn lemma_detail_lines_fields(d: ProcessDetails)
    ensures
        ({
            let l = detail_lines_of(d);
            let i_exe = 1 + flag(d.cmdline@.len() > 0);
            let i_cwd = i_exe + flag(d.exe@.len() > 0);
            let i_uid = i_cwd + flag(d.cwd@.len() > 0);
            let i_gid = i_uid + flag(d.uid is Some);
            let i_thr = i_gid + flag(d.gid is Some);
            let i_rss = i_thr + flag(d.threads is Some);
            let i_fds = i_rss + flag(d.rss_kb is Some);
            &&& l.len() == i_fds + flag(d.open_fds is Some)
            &&& l[0] == "PID: "@ + signed_decimal(d.pid as int)
            &&& d.cmdline@.len() > 0 ==> l[1] == "Cmd: "@ + d.cmdline@
            &&& d.exe@.len() > 0 ==> l[i_exe] == "Exe: "@ + d.exe@
            &&& d.cwd@.len() > 0 ==> l[i_cwd] == "Cwd: "@ + d.cwd@
            &&& d.uid matches Some(u) ==> l[i_uid] == "UID: "@ + decimal(u as nat)
            &&& d.gid matches Some(g) ==> l[i_gid] == "GID: "@ + decimal(g as nat)
            &&& d.threads matches Some(t) ==> l[i_thr] == "Threads: "@ + decimal(t as nat)
            &&& d.rss_kb matches Some(r) ==> l[i_rss] == "RSS: "@ + decimal(r as nat) + " KB"@
            &&& d.open_fds matches Some(f) ==> l[i_fds] == "Open fds: "@ + decimal(f as nat)
        }),
{
    let p0 = seq!["PID: "@ + signed_decimal(d.pid as int)];
    let p1 = p0 + line_if(d.cmdline@.len() > 0, "Cmd: "@ + d.cmdline@);
    let p2 = p1 + line_if(d.exe@.len() > 0, "Exe: "@ + d.exe@);
    let p3 = p2 + line_if(d.cwd@.len() > 0, "Cwd: "@ + d.cwd@);
    let p4 = p3 + number_line("UID: "@, nat_of_u32(d.uid), seq![]);
    let p5 = p4 + number_line("GID: "@, nat_of_u32(d.gid), seq![]);
    let p6 = p5 + number_line("Threads: "@, nat_of_u32(d.threads), seq![]);
    let p7 = p6 + number_line("RSS: "@, nat_of_u64(d.rss_kb), " KB"@);
    let p8 = p7 + number_line("Open fds: "@, nat_of_usize(d.open_fds), seq![]);
    assert(detail_lines_of(d) == p8);
    assert(p1.len() == 1 + flag(d.cmdline@.len() > 0));
    assert(p2.len() == p1.len() + flag(d.exe@.len() > 0));
    assert(p3.len() == p2.len() + flag(d.cwd@.len() > 0));
    assert(p4.len() == p3.len() + flag(d.uid is Some));
    assert(p5.len() == p4.len() + flag(d.gid is Some));
    assert(p6.len() == p5.len() + flag(d.threads is Some));
    assert(p7.len() == p6.len() + flag(d.rss_kb is Some));
    assert(p8.len() == p7.len() + flag(d.open_fds is Some));
    // each prefix keeps the lines before it
    assert(p8[0] == p0[0]);
    if d.cmdline@.len() > 0 {
        assert(p8[1] == p1[1]);
    }
    if d.exe@.len() > 0 {
        assert(p8[p1.len() as int] == p2[p1.len() as int]);
    }
    if d.cwd@.len() > 0 {
        assert(p8[p2.len() as int] == p3[p2.len() as int]);
    }
    if d.uid is Some {
        assert(p8[p3.len() as int] == p4[p3.len() as int]);
        assert(seq!["UID: "@ + decimal(d.uid->0 as nat) + seq![]][0] =~= "UID: "@ + decimal(
            d.uid->0 as nat,
        ));
    }
    if d.gid is Some {
        assert(p8[p4.len() as int] == p5[p4.len() as int]);
        assert(seq!["GID: "@ + decimal(d.gid->0 as nat) + seq![]][0] =~= "GID: "@ + decimal(
            d.gid->0 as nat,
        ));
    }
    if d.threads is Some {
        assert(p8[p5.len() as int] == p6[p5.len() as int]);
        assert(seq!["Threads: "@ + decimal(d.threads->0 as nat) + seq![]][0] =~= "Threads: "@
            + decimal(d.threads->0 as nat));
    }
    if d.rss_kb is Some {
        assert(p8[p6.len() as int] == p7[p6.len() as int]);
    }
    if d.open_fds is Some {
        assert(seq!["Open fds: "@ + decimal(d.open_fds->0 as nat) + seq![]][0] =~= "Open fds: "@
            + decimal(d.open_fds->0 as nat));
    }
}

/// Every line of `ls` has a second character, and it is not `ch`.
pub open spec fn second_char_not(ls: Seq<Seq<char>>, ch: char) -> bool {
    forall|k: int| 0 <= k < ls.len() ==> (#[trigger] ls[k]).len() >= 2 && ls[k][1] != ch
}

proof fn lemma_second_char_concat(a: Seq<Seq<char>>, b: Seq<Seq<char>>, ch: char)
    requires
        second_char_not(a, ch),
        second_char_not(b, ch),
    ensures
        second_char_not(a + b, ch),
{
    assert forall|k: int| 0 <= k < (a + b).len() implies (#[trigger] (a + b)[k]).len() >= 2 && (a
        + b)[k][1] != ch by {
        if k < a.len() {
            assert((a + b)[k] == a[k]);
        } else {
            assert((a + b)[k] == b[k - a.len()]);
        }
    }
}

proof fn lemma_second_char_number_line(label: Seq<char>, v: Option<nat>, suffix: Seq<char>, ch: char)
    requires
        label.len() >= 2,
        label[1] != ch,
    ensures
        second_char_not(number_line(label, v, suffix), ch),
{
    if v is Some {
        let line = label + decimal(v->0) + suffix;
        assert(line[1] == label[1]);
    }
}

proof fn lemma_second_char_line_if(cond: bool, label: Seq<char>, text: Seq<char>, ch: char)
    requires
        label.len() >= 2,
        label[1] != ch,
    ensures
        second_char_not(line_if(cond, label + text), ch),
{
    if cond {
        assert((label + text)[1] == label[1]);
    }
}

/// The working directory appears on no line of the details pane but its own:
/// every other line starts with another label.
#[verifier::spinoff_prover]
#[verifier::rlimit(60)]
pub proof fn lemma_detail_cwd_line_once(d: ProcessDetails)
    requires
        d.cwd@.len() > 0,
    ensures
        ({
            let l = detail_lines_of(d);
            let i_cwd = 1 + flag(d.cmdline@.len() > 0) + flag(d.exe@.len() > 0);
            forall|j: int| 0 <= j < l.len() && j != i_cwd ==> l[j] != "Cwd: "@ + d.cwd@
        }),
{
    let w = 'w';
    assert("PID: "@.len() >= 2 && "PID: "@[1] != w) by { reveal_strlit("PID: "); }
    assert("Cmd: "@.len() >= 2 && "Cmd: "@[1] != w) by { reveal_strlit("Cmd: "); }
    assert("Exe: "@.len() >= 2 && "Exe: "@[1] != w) by { reveal_strlit("Exe: "); }
    assert("Cwd: "@.len() >= 2 && "Cwd: "@[1] == w) by { reveal_strlit("Cwd: "); }
    assert("UID: "@.len() >= 2 && "UID: "@[1] != w) by { reveal_strlit("UID: "); }
    assert("GID: "@.len() >= 2 && "GID: "@[1] != w) by { reveal_strlit("GID: "); }
    assert("Threads: "@.len() >= 2 && "Threads: "@[1] != w) by { reveal_strlit("Threads: "); }
    assert("RSS: "@.len() >= 2 && "RSS: "@[1] != w) by { reveal_strlit("RSS: "); }
    assert("Open fds: "@.len() >= 2 && "Open fds: "@[1] != w) by { reveal_strlit("Open fds: "); }
    let l = detail_lines_of(d);
    let i_cwd = 1 + flag(d.cmdline@.len() > 0) + flag(d.exe@.len() > 0);
    let p0 = seq!["PID: "@ + signed_decimal(d.pid as int)];
    let c1 = line_if(d.cmdline@.len() > 0, "Cmd: "@ + d.cmdline@);
    let c2 = line_if(d.exe@.len() > 0, "Exe: "@ + d.exe@);
    let c3 = line_if(d.cwd@.len() > 0, "Cwd: "@ + d.cwd@);
    let a = number_line("UID: "@, nat_of_u32(d.uid), seq![]);
    let b = number_line("GID: "@, nat_of_u32(d.gid), seq![]);
    let c = number_line("Threads: "@, nat_of_u32(d.threads), seq![]);
    let e = number_line("RSS: "@, nat_of_u64(d.rss_kb), " KB"@);
    let f = number_line("Open fds: "@, nat_of_usize(d.open_fds), seq![]);
    assert(("PID: "@ + signed_decimal(d.pid as int))[1] == "PID: "@[1]);
    assert(second_char_not(p0, w));
    lemma_second_char_line_if(d.cmdline@.len() > 0, "Cmd: "@, d.cmdline@, w);
    lemma_second_char_line_if(d.exe@.len() > 0, "Exe: "@, d.exe@, w);
    lemma_second_char_number_line("UID: "@, nat_of_u32(d.uid), seq![], w);
    lemma_second_char_number_line("GID: "@, nat_of_u32(d.gid), seq![], w);
    lemma_second_char_number_line("Threads: "@, nat_of_u32(d.threads), seq![], w);
    lemma_second_char_number_line("RSS: "@, nat_of_u64(d.rss_kb), " KB"@, w);
    lemma_second_char_number_line("Open fds: "@, nat_of_usize(d.open_fds), seq![], w);
    lemma_second_char_concat(p0, c1, w);
    lemma_second_char_concat(p0 + c1, c2, w);
    lemma_second_char_concat(a, b, w);
    lemma_second_char_concat(a + b, c, w);
    lemma_second_char_concat(a + b + c, e, w);
    lemma_second_char_concat(a + b + c + e, f, w);
    let front = p0 + c1 + c2;
    let back = a + b + c + e + f;
    assert(l =~= front + c3 + back);
    assert(front.len() == i_cwd);
    let target = "Cwd: "@ + d.cwd@;
    assert(target[1] == w);
    assert forall|j: int| 0 <= j < l.len() && j != i_cwd implies l[j] != target by {
        if j < i_cwd {
            assert(l[j] == front[j]);
        } else {
            assert(l[j] == back[j - i_cwd - 1]);
        }
    }
}

/// The texts of a sequence of strings.
pub open spec fn strings_view(v: Seq<String>) -> Seq<Seq<char>> {
    v.map_values(|s: String| s@)
}

proof fn lemma_strings_push(v: Seq<String>, s: String)
    ensures
        strings_view(v.push(s)) == strings_view(v).push(s@),
{
    assert(strings_view(v.push(s)) =~= strings_view(v).push(s@));
}

fn push_text_line(out: &mut Vec<String>, label: &str, text: &String)
    ensures
        strings_view(final(out)@) == strings_view(old(out)@) + line_if(text@.len() > 0, label@ + text@),
{
    if !text.as_str().is_empty() {
        let cs = chars_of(text.as_str());
        let line = labeled(label, cs.as_slice());
        proof {
            lemma_strings_push(out@, line);
        }
        out.push(line);
        assert(strings_view(out@) =~= strings_view(old(out)@) + line_if(text@.len() > 0, label@ + text@));
    } else {
        assert(strings_view(out@) =~= strings_view(old(out)@) + line_if(text@.len() > 0, label@ + text@));
    }
}

fn push_number_line(out: &mut Vec<String>, label: &str, v: Option<u64>, suffix: &str)
    ensures
        strings_view(final(out)@) == strings_view(old(out)@) + number_line(label@, nat_of_u64(v), suffix@),
{
    match v {
        Some(n) => {
            let d = decimal_chars(n);
            let mut line = labeled(label, d.as_slice());
            append_str(&mut line, suffix);
            proof {
                lemma_strings_push(out@, line);
            }
            out.push(line);
        },
        None => {},
    }
    assert(strings_view(out@) =~= strings_view(old(out)@) + number_line(label@, nat_of_u64(v), suffix@));
}

fn widen_u32(v: Option<u32>) -> (r: Option<u64>)
    ensures
        nat_of_u64(r) == nat_of_u32(v),
{
    match v {
        Some(n) => Some(n as u64),
        None => None,
    }
}

fn widen_usize(v: Option<usize>) -> (r: Option<u64>)
    ensures
        nat_of_u64(r) == nat_of_usize(v),
{
    match v {
        Some(n) => Some(n as u64),
        None => None,
    }
}

/// The lines of the details pane: those of the process when its details are
/// known, else one line saying they are unavailable.
pub fn detail_lines(det: Option<&ProcessDetails>) -> (r: Vec<String>)
    ensures
        strings_view(r@) == match det {
            Some(d) => detail_lines_of(*d),
            None => seq!["(process details unavailable)"@],
        },
{
    let mut out: Vec<String> = Vec::new();
    match det {
        Some(d) => {
            let pid = signed_chars(d.pid as i64);
            let first = labeled("PID: ", pid.as_slice());
            proof {
                lemma_strings_push(out@, first);
            }
            out.push(first);
            push_text_line(&mut out, "Cmd: ", &d.cmdline);
            push_text_line(&mut out, "Exe: ", &d.exe);
            push_text_line(&mut out, "Cwd: ", &d.cwd);
            push_number_line(&mut out, "UID: ", widen_u32(d.uid), "");
            push_number_line(&mut out, "GID: ", widen_u32(d.gid), "");
            push_number_line(&mut out, "Threads: ", widen_u32(d.threads), "");
            push_number_line(&mut out, "RSS: ", d.rss_kb, " KB");
            push_number_line(&mut out, "Open fds: ", widen_usize(d.open_fds), "");
            proof {
                assert(""@.len() == 0) by {
                    reveal_strlit("");
                }
                assert(""@ =~= Seq::<char>::empty());
                assert(strings_view(out@) =~= detail_lines_of(*d));
            }
        },
        None => {
            let e: Vec<char> = Vec::new();
            let line = labeled("(process details unavailable)", e.as_slice());
            proof {
                lemma_strings_push(out@, line);
            }
            out.push(line);
            assert(strings_view(out@) =~= seq!["(process details unavailable)"@]);
        },
    }
    out
}

} // verus!
