//! The formats of the `/proc` files that the monitor reads: `/proc/stat`,
//! `/proc/meminfo`, `/proc/loadavg`, and a process's `cmdline`, `comm` and
//! `status`. Each parser takes the file's text and is stated over its characters.
use vstd::prelude::*;
use crate::text::{
    chars_eq, chars_of, copy_range, has_prefix, join, join_with_space, lines, split_lines,
    split_tokens, starts_with, string_of, tokens, trim, trim_chars, views,
};
use crate::number::{parse_i32, parse_i32_chars, parse_u32, parse_u32_chars, parse_u64, parse_u64_chars};

verus! {

// ---------------------------------------------------------------------------
// /proc/stat
// ---------------------------------------------------------------------------
/// The label that starts each CPU line of `/proc/stat`.
pub open spec fn cpu_label() -> Seq<char> {
    seq!['c', 'p', 'u']
}

/// The `i`-th counter of a CPU line's tokens `t` (user, nice, system, idle,
/// iowait, irq, softirq, steal for `i` = 0..8): the token after the label,
/// read as a `u64`; 0 when it is missing or does not read as one.
pub open spec fn counter(t: Seq<Seq<char>>, i: int) -> u64 {
    if i + 1 < t.len() {
        match parse_u64(t[i + 1]) {
            Some(v) => v,
            None => 0,
        }
    } else {
        0
    }
}

/// `x + y` wrapping at 2^64, as unchecked `u64` additions do in a release
/// build.
pub open spec fn wadd(x: u64, y: u64) -> u64 {
    vstd::wrapping::u64_specs::wrapping_add(x, y)
}

/// The idle time of a CPU line: idle + iowait.
pub open spec fn idle_time(t: Seq<Seq<char>>) -> u64 {
    wadd(counter(t, 3), counter(t, 4))
}

/// The busy time of a CPU line: user + nice + system + irq + softirq + steal.
pub open spec fn busy_time(t: Seq<Seq<char>>) -> u64 {
    wadd(
        wadd(wadd(wadd(wadd(counter(t, 0), counter(t, 1)), counter(t, 2)), counter(t, 5)), counter(t, 6)),
        counter(t, 7),
    )
}

/// The (total, idle) times of one CPU line, when it has at least five tokens.
pub open spec fn stat_entry(line: Seq<char>) -> Option<(u64, u64)> {
    let t = tokens(line);
    if t.len() >= 5 {
        Some((wadd(idle_time(t), busy_time(t)), idle_time(t)))
    } else {
        None
    }
}

/// The (total, idle) pairs of the leading lines that start with `cpu`: the
/// first such line is the aggregate, then one per core.
pub open spec fn stat_entries(ls: Seq<Seq<char>>) -> Seq<(u64, u64)>
    decreases ls.len(),
{
    if ls.len() == 0 || !has_prefix(ls[0], cpu_label()) {
        seq![]
    } else {
        let rest = stat_entries(ls.drop_first());
        match stat_entry(ls[0]) {
            Some(e) => seq![e] + rest,
            None => rest,
        }
    }
}

/// When a CPU line's counters sum to no more than `u64::MAX`, its idle time
/// is at most its total time, and the total is that sum.
pub proof fn lemma_stat_entry_idle_within_total(line: Seq<char>)
    requires
        stat_entry(line) is Some,
        ({
            let t = tokens(line);
            counter(t, 0) + counter(t, 1) + counter(t, 2) + counter(t, 3) + counter(t, 4)
                + counter(t, 5) + counter(t, 6) + counter(t, 7) <= u64::MAX
        }),
    ensures
        ({
            let e = stat_entry(line)->0;
            let t = tokens(line);
            &&& e.1 <= e.0
            &&& e.0 == counter(t, 0) + counter(t, 1) + counter(t, 2) + counter(t, 3) + counter(t, 4)
                + counter(t, 5) + counter(t, 6) + counter(t, 7)
            &&& e.1 == counter(t, 3) + counter(t, 4)
        }),
{
}

/// Why `/proc/stat` could not be read as CPU times.
#[derive(Debug, Clone, Copy, PartialEq, Eq)]
pub enum StatError {
    /// No leading `cpu` line has the five fields a CPU entry needs.
    NoCpuLines,
}

fn counter_at(t: &Vec<Vec<char>>, i: usize) -> (r: u64)
    ensures
        r == counter(views(t@), i as int),
{
    if t.len() > 0 && i < t.len() - 1 {
        match parse_u64_chars(t[i + 1].as_slice()) {
            Some(v) => v,
            None => 0,
        }
    } else {
        0
    }
}

fn parse_stat_line(line: &Vec<char>) -> (r: Option<(u64, u64)>)
    ensures
        r == stat_entry(line@),
{
    let t = split_tokens(line.as_slice());
    if t.len() >= 5 {
        let user = counter_at(&t, 0);
        let nice = counter_at(&t, 1);
        let system = counter_at(&t, 2);
        let idle = counter_at(&t, 3);
        let iowait = counter_at(&t, 4);
        let irq = counter_at(&t, 5);
        let softirq = counter_at(&t, 6);
        let steal = counter_at(&t, 7);
        let idle_all = idle.wrapping_add(iowait);
        let non_idle = user.wrapping_add(nice).wrapping_add(system).wrapping_add(irq).wrapping_add(
            softirq,
        ).wrapping_add(steal);
        let total = idle_all.wrapping_add(non_idle);
        Some((total, idle_all))
    } else {
        None
    }
}

/// The (total, idle) CPU times in `/proc/stat`'s text: the aggregate first,
/// then one entry per core. Fails when there is none.
pub fn parse_proc_stat(text: &str) -> (r: Result<Vec<(u64, u64)>, StatError>)
    ensures
        ({
            let e = stat_entries(lines(text@));
            match r {
                Ok(v) => e.len() > 0 && v@ == e,
                Err(_) => e.len() == 0,
            }
        }),
{
    let cs = chars_of(text);
    let ls = split_lines(cs.as_slice());
    let ghost all = views(ls@);
    let label: Vec<char> = vec!['c', 'p', 'u'];
    let mut out: Vec<(u64, u64)> = Vec::new();
    let mut i: usize = 0;
    let mut stopped = false;
    assert(all.skip(0) =~= all);
    while i < ls.len() && !stopped
        invariant
            all == views(ls@),
            all == lines(text@),
            label@ == cpu_label(),
            i <= ls@.len(),
            out@ + stat_entries(all.skip(i as int)) == stat_entries(all),
            stopped ==> stat_entries(all.skip(i as int)) == Seq::<(u64, u64)>::empty(),
        decreases ls@.len() - i, (if stopped { 0int } else { 1int }),
    {
        let ghost rest = all.skip(i as int);
        assert(rest[0] == ls@[i as int]@);
        assert(rest.drop_first() =~= all.skip(i + 1));
        if !starts_with(ls[i].as_slice(), label.as_slice()) {
            stopped = true;
            continue;
        }
        match parse_stat_line(&ls[i]) {
            Some(e) => {
                assert(out@.push(e) + stat_entries(all.skip(i + 1)) =~= out@ + stat_entries(rest));
                out.push(e);
            },
            None => {},
        }
        i = i + 1;
    }
    proof {
        if !stopped {
            assert(all.skip(i as int) =~= Seq::<Seq<char>>::empty());
        }
        assert(stat_entries(all.skip(i as int)) =~= Seq::<(u64, u64)>::empty());
        assert(out@ =~= stat_entries(all));
    }
    if out.len() == 0 {
        Err(StatError::NoCpuLines)
    } else {
        Ok(out)
    }
}

// ---------------------------------------------------------------------------
// /proc/meminfo
// ---------------------------------------------------------------------------
/// Index of the first `c` in `s`, or `s.len()` when there is none.
pub open spec fn first_pos(s: Seq<char>, c: char) -> nat
    decreases s.len(),
{
    if s.len() == 0 || s[0] == c {
        0
    } else {
        1 + first_pos(s.drop_first(), c)
    }
}

/// The entry of one `/proc/meminfo` line: the text before its first `:` as
/// key, and the first token after it (`0` when there is none) read as a `u64`.
/// No entry when the line has no `:` or the token does not read as a `u64`.
pub open spec fn meminfo_entry(line: Seq<char>) -> Option<(Seq<char>, u64)> {
    let k = first_pos(line, ':');
    if k < line.len() {
        let t = tokens(line.skip(k + 1 as int));
        let word = if t.len() > 0 {
            t[0]
        } else {
            seq!['0']
        };
        match parse_u64(word) {
            Some(v) => Some((line.take(k as int), v)),
            None => None,
        }
    } else {
        None
    }
}

/// The map that the entries of `es` build when each is inserted in turn.
pub open spec fn entries_map(es: Seq<(Seq<char>, u64)>) -> Map<Seq<char>, u64>
    decreases es.len(),
{
    if es.len() == 0 {
        Map::empty()
    } else {
        entries_map(es.drop_last()).insert(es.last().0, es.last().1)
    }
}

/// The entries of the lines of `/proc/meminfo` that have one, in order.
pub open spec fn meminfo_entries(ls: Seq<Seq<char>>) -> Seq<(Seq<char>, u64)>
    decreases ls.len(),
{
    if ls.len() == 0 {
        seq![]
    } else {
        let prev = meminfo_entries(ls.drop_last());
        match meminfo_entry(ls.last()) {
            Some(e) => prev.push(e),
            None => prev,
        }
    }
}

/// What `/proc/meminfo`'s text maps each key to: a later line overrides an
/// earlier one with the same key.
pub open spec fn meminfo_map(text: Seq<char>) -> Map<Seq<char>, u64> {
    entries_map(meminfo_entries(lines(text)))
}

/// The key-value table of `/proc/meminfo` (values in kB).
pub struct MemInfo {
    entries: Vec<(Vec<char>, u64)>,
}

impl MemInfo {
    /// The entries in the order they were read.
    pub closed spec fn entry_views(&self) -> Seq<(Seq<char>, u64)> {
        self.entries@.map_values(|e: (Vec<char>, u64)| (e.0@, e.1))
    }
}

impl View for MemInfo {
    type V = Map<Seq<char>, u64>;

    closed spec fn view(&self) -> Map<Seq<char>, u64> {
        entries_map(self.entry_views())
    }
}

fn find_char(s: &[char], c: char) -> (k: usize)
    ensures
        k == first_pos(s@, c),
{
    let mut k: usize = 0;
    assert(s@.skip(0) =~= s@);
    while k < s.len() && s[k] != c
        invariant
            k <= s@.len(),
            first_pos(s@, c) == k + first_pos(s@.skip(k as int), c),
        decreases s@.len() - k,
    {
        assert(s@.skip(k as int).drop_first() =~= s@.skip(k + 1));
        k = k + 1;
    }
    k
}

fn parse_meminfo_line(line: &Vec<char>) -> (r: Option<(Vec<char>, u64)>)
    ensures
        match r {
            Some(e) => meminfo_entry(line@) == Some((e.0@, e.1)),
            None => meminfo_entry(line@) is None,
        },
{
    let k = find_char(line.as_slice(), ':');
    if k < line.len() {
        let after = copy_range(line.as_slice(), k + 1, line.len());
        assert(after@ =~= line@.skip(k + 1 as int));
        let t = split_tokens(after.as_slice());
        let parsed = if t.len() > 0 {
            parse_u64_chars(t[0].as_slice())
        } else {
            let zero: Vec<char> = vec!['0'];
            assert(zero@ =~= seq!['0']);
            parse_u64_chars(zero.as_slice())
        };
        match parsed {
            Some(v) => {
                let key = copy_range(line.as_slice(), 0, k);
                assert(key@ =~= line@.take(k as int));
                Some((key, v))
            },
            None => None,
        }
    } else {
        None
    }
}

proof fn lemma_entries_map_suffix(es: Seq<(Seq<char>, u64)>, m: int, k: Seq<char>)
    requires
        0 <= m <= es.len(),
        forall|i: int| m <= i < es.len() ==> es[i].0 != k,
    ensures
        entries_map(es).dom().contains(k) == entries_map(es.take(m)).dom().contains(k),
        entries_map(es).dom().contains(k) ==> entries_map(es)[k] == entries_map(es.take(m))[k],
    decreases es.len(),
{
    if es.len() == m {
        assert(es.take(m) =~= es);
    } else {
        lemma_entries_map_suffix(es.drop_last(), m, k);
        assert(es.drop_last().take(m) =~= es.take(m));
    }
}

/// Reads the text of `/proc/meminfo` into its key-value table.
pub fn parse_meminfo(text: &str) -> (r: MemInfo)
    ensures
        r@ == meminfo_map(text@),
{
    let cs = chars_of(text);
    let ls = split_lines(cs.as_slice());
    let ghost all = views(ls@);
    let mut entries: Vec<(Vec<char>, u64)> = Vec::new();
    let mut i: usize = 0;
    while i < ls.len()
        invariant
            all == views(ls@),
            all == lines(text@),
            i <= ls@.len(),
            entries@.map_values(|e: (Vec<char>, u64)| (e.0@, e.1)) == meminfo_entries(
                all.take(i as int),
            ),
        decreases ls@.len() - i,
    {
        let ghost before = entries@;
        proof {
            assert(all.take(i + 1).drop_last() =~= all.take(i as int));
            assert(all.take(i + 1).last() == ls@[i as int]@);
        }
        match parse_meminfo_line(&ls[i]) {
            Some(e) => {
                entries.push(e);
                assert(entries@.map_values(|e: (Vec<char>, u64)| (e.0@, e.1)) =~= before.map_values(
                    |e: (Vec<char>, u64)| (e.0@, e.1),
                ).push((e.0@, e.1)));
            },
            None => {},
        }
        i = i + 1;
    }
    assert(all.take(i as int) =~= all);
    MemInfo { entries }
}

impl MemInfo {
    /// The value recorded for `key`, if any.
    pub fn get(&self, key: &str) -> (r: Option<u64>)
        ensures
            r == (if self@.dom().contains(key@) {
                Some(self@[key@])
            } else {
                None
            }),
    {
        let k = chars_of(key);
        let ghost es = self.entry_views();
        let mut i = self.entries.len();
        while i > 0
            invariant
                i <= self.entries@.len(),
                es == self.entry_views(),
                es.len() == self.entries@.len(),
                k@ == key@,
                forall|j: int| i <= j < es.len() ==> es[j].0 != k@,
            decreases i,
        {
            let idx = i - 1;
            assert(es[idx as int] == (self.entries@[idx as int].0@, self.entries@[idx as int].1));
            if chars_eq(self.entries[idx].0.as_slice(), k.as_slice()) {
                proof {
                    lemma_entries_map_suffix(es, i as int, k@);
                    assert(es.take(i as int).drop_last() =~= es.take(idx as int));
                }
                return Some(self.entries[idx].1);
            }
            i = idx;
        }
        proof {
            lemma_entries_map_suffix(es, 0, k@);
            assert(es.take(0) =~= Seq::<(Seq<char>, u64)>::empty());
        }
        None
    }
}

// ---------------------------------------------------------------------------
// /proc/loadavg
// ---------------------------------------------------------------------------
/// The first three tokens of `/proc/loadavg` (fewer when it has fewer),
/// joined with single spaces.
pub open spec fn load_average_text(s: Seq<char>) -> Seq<char> {
    let t = tokens(s);
    join(
        t.take(
            if t.len() < 3 {
                t.len() as int
            } else {
                3
            },
        ),
        seq![' '],
    )
}

/// The 1, 5 and 15 minute load averages from `/proc/loadavg`'s text.
pub fn load_average(text: &str) -> (r: String)
    ensures
        r@ == load_average_text(text@),
{
    let cs = chars_of(text);
    let t = split_tokens(cs.as_slice());
    let n: usize = if t.len() < 3 {
        t.len()
    } else {
        3
    };
    join_with_space(&t, n)
}

// ---------------------------------------------------------------------------
// Per-process files
// ---------------------------------------------------------------------------
/// `s` with every NUL replaced by a space.
pub open spec fn nul_to_space(s: Seq<char>) -> Seq<char> {
    s.map_values(|c: char| if c == '\0' { ' ' } else { c })
}

/// The command shown for a process: its `cmdline` with NULs as spaces,
/// trimmed; when that is empty, its `comm` trimmed.
pub open spec fn command_text(cmdline: Seq<char>, comm: Seq<char>) -> Seq<char> {
    let c = trim(nul_to_space(cmdline));
    if c.len() == 0 {
        trim(comm)
    } else {
        c
    }
}

fn command_line_chars(cmdline: &str) -> (r: Vec<char>)
    ensures
        r@ == trim(nul_to_space(cmdline@)),
{
    let cs = chars_of(cmdline);
    let mut spaced: Vec<char> = Vec::new();
    let mut i: usize = 0;
    while i < cs.len()
        invariant
            i <= cs@.len(),
            cs@ == cmdline@,
            spaced@ == nul_to_space(cs@.take(i as int)),
        decreases cs@.len() - i,
    {
        let c = cs[i];
        spaced.push(if c == '\0' { ' ' } else { c });
        i = i + 1;
        assert(spaced@ =~= nul_to_space(cs@.take(i as int)));
    }
    assert(cs@.take(i as int) =~= cs@);
    trim_chars(spaced.as_slice())
}

/// A process's command line: its `cmdline` file with NULs as spaces, trimmed.
pub fn command_line(cmdline: &str) -> (r: String)
    ensures
        r@ == trim(nul_to_space(cmdline@)),
{
    let t = command_line_chars(cmdline);
    string_of(t.as_slice())
}

/// The command shown for a process, from the texts of its `cmdline` and
/// `comm` files.
pub fn process_command(cmdline: &str, comm: &str) -> (r: String)
    ensures
        r@ == command_text(cmdline@, comm@),
{
    let c = command_line_chars(cmdline);
    if c.len() == 0 {
        let cs = chars_of(comm);
        let t = trim_chars(cs.as_slice());
        string_of(t.as_slice())
    } else {
        string_of(c.as_slice())
    }
}

/// The resident set size that the first `VmRSS:` line of a `status` file
/// gives: its second token read as a `u64`, or 0 when that is missing or
/// does not read, or when there is no such line.
pub open spec fn status_vmrss(ls: Seq<Seq<char>>) -> u64
    decreases ls.len(),
{
    if ls.len() == 0 {
        0
    } else if has_prefix(ls[0], "VmRSS:"@) {
        let t = tokens(ls[0]);
        if t.len() > 1 {
            match parse_u64(t[1]) {
                Some(v) => v,
                None => 0,
            }
        } else {
            0
        }
    } else {
        status_vmrss(ls.drop_first())
    }
}

/// The second token of the last line of `ls` that starts with `tag` and has
/// one.
pub open spec fn tagged_value(ls: Seq<Seq<char>>, tag: Seq<char>) -> Option<Seq<char>>
    decreases ls.len(),
{
    if ls.len() == 0 {
        None
    } else if has_prefix(ls.last(), tag) && tokens(ls.last()).len() > 1 {
        Some(tokens(ls.last())[1])
    } else {
        tagged_value(ls.drop_last(), tag)
    }
}

/// The resident set size (kB) from a process's `status` text.
pub fn vmrss_kb(status: &str) -> (r: u64)
    ensures
        r == status_vmrss(lines(status@)),
{
    let cs = chars_of(status);
    let ls = split_lines(cs.as_slice());
    let ghost all = views(ls@);
    let tag = chars_of("VmRSS:");
    let mut i: usize = 0;
    assert(all.skip(0) =~= all);
    while i < ls.len()
        invariant
            all == views(ls@),
            all == lines(status@),
            tag@ == "VmRSS:"@,
            i <= ls@.len(),
            status_vmrss(all.skip(i as int)) == status_vmrss(all),
        decreases ls@.len() - i,
    {
        let ghost rest = all.skip(i as int);
        assert(rest[0] == ls@[i as int]@);
        if starts_with(ls[i].as_slice(), tag.as_slice()) {
            let t = split_tokens(ls[i].as_slice());
            if t.len() > 1 {
                return match parse_u64_chars(t[1].as_slice()) {
                    Some(v) => v,
                    None => 0,
                };
            }
            return 0;
        }
        assert(rest.drop_first() =~= all.skip(i + 1));
        i = i + 1;
    }
    assert(all.skip(i as int) =~= Seq::<Seq<char>>::empty());
    0
}

/// Fields of a process's `status` file.
pub struct StatusFields {
    pub uid: Option<u32>,
    pub gid: Option<u32>,
    pub threads: Option<u32>,
    pub rss_kb: Option<u64>,
}

/// The `u32` that the tagged value reads as, if any.
pub open spec fn tagged_u32(ls: Seq<Seq<char>>, tag: Seq<char>) -> Option<u32> {
    match tagged_value(ls, tag) {
        Some(w) => parse_u32(w),
        None => None,
    }
}

/// The `u64` that the tagged value reads as, if any.
pub open spec fn tagged_u64(ls: Seq<Seq<char>>, tag: Seq<char>) -> Option<u64> {
    match tagged_value(ls, tag) {
        Some(w) => parse_u64(w),
        None => None,
    }
}

/// Updates `slot` from `line` when the line starts with `tag` and has a
/// second token.
fn update_u32(slot: &mut Option<u32>, line: &Vec<char>, toks: &Vec<Vec<char>>, tag: &Vec<char>)
    requires
        views(toks@) == tokens(line@),
    ensures
        (has_prefix(line@, tag@) && toks@.len() > 1) ==> *final(slot) == parse_u32(toks@[1]@),
        !(has_prefix(line@, tag@) && toks@.len() > 1) ==> *final(slot) == *old(slot),
{
    if starts_with(line.as_slice(), tag.as_slice()) && toks.len() > 1 {
        *slot = parse_u32_chars(toks[1].as_slice());
    }
}

/// The uid, gid, thread count and resident set size in a process's `status`
/// text: for each, the second token of the last line that starts with its
/// tag (`Uid:`, `Gid:`, `Threads:`, `VmRSS:`) and has one, read as a number;
/// `None` when there is no such line or the token does not read.
pub fn status_fields(status: &str) -> (r: StatusFields)
    ensures
        r.uid == tagged_u32(lines(status@), "Uid:"@),
        r.gid == tagged_u32(lines(status@), "Gid:"@),
        r.threads == tagged_u32(lines(status@), "Threads:"@),
        r.rss_kb == tagged_u64(lines(status@), "VmRSS:"@),
{
    let cs = chars_of(status);
    let ls = split_lines(cs.as_slice());
    let ghost all = views(ls@);
    let uid_tag = chars_of("Uid:");
    let gid_tag = chars_of("Gid:");
    let thr_tag = chars_of("Threads:");
    let rss_tag = chars_of("VmRSS:");
    let mut uid: Option<u32> = None;
    let mut gid: Option<u32> = None;
    let mut threads: Option<u32> = None;
    let mut rss: Option<u64> = None;
    let mut i: usize = 0;
    while i < ls.len()
        invariant
            all == views(ls@),
            all == lines(status@),
            uid_tag@ == "Uid:"@,
            gid_tag@ == "Gid:"@,
            thr_tag@ == "Threads:"@,
            rss_tag@ == "VmRSS:"@,
            i <= ls@.len(),
            uid == tagged_u32(all.take(i as int), "Uid:"@),
            gid == tagged_u32(all.take(i as int), "Gid:"@),
            threads == tagged_u32(all.take(i as int), "Threads:"@),
            rss == tagged_u64(all.take(i as int), "VmRSS:"@),
        decreases ls@.len() - i,
    {
        let ghost pre = all.take(i as int);
        let ghost cur = all.take(i + 1);
        proof {
            assert(cur.drop_last() =~= pre);
            assert(cur.last() == ls@[i as int]@);
        }
        let toks = split_tokens(ls[i].as_slice());
        update_u32(&mut uid, &ls[i], &toks, &uid_tag);
        update_u32(&mut gid, &ls[i], &toks, &gid_tag);
        update_u32(&mut threads, &ls[i], &toks, &thr_tag);
        if starts_with(ls[i].as_slice(), rss_tag.as_slice()) && toks.len() > 1 {
            rss = parse_u64_chars(toks[1].as_slice());
        }
        proof {
            assert(toks@.len() == tokens(cur.last()).len());
            if toks@.len() > 1 {
                assert(toks@[1]@ == tokens(cur.last())[1]);
            }
        }
        i = i + 1;
    }
    assert(all.take(i as int) =~= all);
    StatusFields { uid, gid, threads, rss_kb: rss }
}

/// The process id that a `/proc` entry's name stands for: the name read as an
/// `i32`, if it reads as one.
pub fn parse_pid(name: &str) -> (r: Option<i32>)
    ensures
        r == parse_i32(name@),
{
    let cs = chars_of(name);
    parse_i32_chars(cs.as_slice())
}

} // verus!
