use zenith::procfs::{
    command_line, load_average, parse_meminfo, parse_pid, parse_proc_stat, process_command,
    status_fields, vmrss_kb, StatError,
};

const STAT: &str = "cpu  10 20 30 40 50 60 70 80 90 100\n\
cpu0 1 2 3 4 5 6 7 8 0 0\n\
cpu1 100 0 100 800 0 0 0 0 0 0\n\
intr 12345 1 2 3\n\
ctxt 999\n";

#[test]
fn stat_sums_counters_per_line() {
    let v = parse_proc_stat(STAT).unwrap();
    // total = idle + iowait + user + nice + system + irq + softirq + steal
    assert_eq!(v, vec![(360, 90), (36, 9), (1000, 800)]);
}

#[test]
fn stat_stops_at_first_non_cpu_line() {
    let text = "cpu 1 1 1 1 1\nintr 1\ncpu0 5 5 5 5 5\n";
    assert_eq!(parse_proc_stat(text).unwrap(), vec![(5, 2)]);
}

#[test]
fn stat_skips_short_cpu_lines_and_reads_bad_numbers_as_zero() {
    let text = "cpu 1 2 3\ncpu0 x 2 3 4 5\ncpu1 1 2 3 4 5 6 7 8\n";
    assert_eq!(parse_proc_stat(text).unwrap(), vec![(14, 9), (36, 9)]);
}

#[test]
fn stat_without_cpu_entries_is_an_error() {
    assert_eq!(parse_proc_stat(""), Err(StatError::NoCpuLines));
    assert_eq!(parse_proc_stat("intr 1 2\ncpu 1 2 3 4 5\n"), Err(StatError::NoCpuLines));
    assert_eq!(parse_proc_stat("cpu 1 2 3\n"), Err(StatError::NoCpuLines));
}

#[test]
fn stat_sums_wrap_at_u64() {
    let text = format!("cpu 0 0 0 {} 1 0 0 0\n", u64::MAX);
    assert_eq!(parse_proc_stat(&text).unwrap(), vec![(0, 0)]);
}

#[test]
fn stat_accepts_crlf_lines() {
    let text = "cpu 1 0 0 1 0 0 0 0\r\ncpu0 1 0 0 1 0\r\n";
    assert_eq!(parse_proc_stat(text).unwrap(), vec![(2, 1), (2, 1)]);
}

#[test]
fn meminfo_lookup() {
    let text = "MemTotal:       16384000 kB\nMemFree:  100 kB\nMemAvailable:    8192000 kB\nHugePages_Total:       0\n";
    let m = parse_meminfo(text);
    assert_eq!(m.get("MemTotal"), Some(16384000));
    assert_eq!(m.get("MemAvailable"), Some(8192000));
    assert_eq!(m.get("HugePages_Total"), Some(0));
    assert_eq!(m.get("Missing"), None);
}

#[test]
fn meminfo_edge_lines() {
    let text = "A:\nB: abc kB\nNoColon 5\nA: 7\n  C : 3\n";
    let m = parse_meminfo(text);
    // a later line overrides an earlier one; an empty value reads as 0
    assert_eq!(m.get("A"), Some(7));
    assert_eq!(m.get("B"), None);
    assert_eq!(m.get("NoColon 5"), None);
    assert_eq!(m.get("  C "), Some(3));
    let only_empty = parse_meminfo("A:\n");
    assert_eq!(only_empty.get("A"), Some(0));
}

#[test]
fn load_average_takes_three_fields() {
    assert_eq!(load_average("0.52 0.58 0.59 1/389 12345\n"), "0.52 0.58 0.59");
    assert_eq!(load_average("1.00  2.00\n"), "1.00 2.00");
    assert_eq!(load_average(""), "");
}

#[test]
fn command_from_cmdline_or_comm() {
    assert_eq!(command_line("/usr/bin/foo\0--bar\0"), "/usr/bin/foo --bar");
    assert_eq!(process_command("/usr/bin/foo\0--bar\0", "foo\n"), "/usr/bin/foo --bar");
    assert_eq!(process_command("", "kworker/0:1\n"), "kworker/0:1");
    assert_eq!(process_command("\0\0", "  x  \n"), "x");
    assert_eq!(process_command("", ""), "");
}

const STATUS: &str = "Name:\tbash\nUmask:\t0022\nState:\tS (sleeping)\nUid:\t1000\t1000\t1000\t1000\nGid:\t100\t100\t100\t100\nVmRSS:\t    5120 kB\nThreads:\t3\n";

#[test]
fn status_vmrss() {
    assert_eq!(vmrss_kb(STATUS), 5120);
    assert_eq!(vmrss_kb("Name: x\n"), 0);
    assert_eq!(vmrss_kb("VmRSS:\nVmRSS: 7 kB\n"), 0);
    assert_eq!(vmrss_kb("VmRSS: lots\n"), 0);
}

#[test]
fn status_fields_read_tagged_lines() {
    let f = status_fields(STATUS);
    assert_eq!(f.uid, Some(1000));
    assert_eq!(f.gid, Some(100));
    assert_eq!(f.threads, Some(3));
    assert_eq!(f.rss_kb, Some(5120));
    let g = status_fields("Uid: 5\nUid: nope\nThreads:\n");
    assert_eq!(g.uid, None);
    assert_eq!(g.threads, None);
    assert_eq!(g.gid, None);
    let h = status_fields("Gid: 1\nGid:\n");
    assert_eq!(h.gid, Some(1));
}

#[test]
fn pid_names() {
    assert_eq!(parse_pid("1"), Some(1));
    assert_eq!(parse_pid("4321"), Some(4321));
    assert_eq!(parse_pid("self"), None);
    assert_eq!(parse_pid("-5"), Some(-5));
    assert_eq!(parse_pid("2147483648"), None);
}
