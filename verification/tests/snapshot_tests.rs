use zenith::snapshot::{
    assemble_snapshot, core_gauges, cpu_usage_deltas, detail_lines, load_header, memory_title,
    memory_usage, process_details, process_info, process_row, sampler_step, top_processes,
    usage_level, CpuUsage, ProcessDetails, ProcessInfo, SystemSnapshot, UsageLevel,
    MAX_CORE_GAUGES, TOP_PROCESS_COUNT,
};

fn p(pid: i32, cmd: &str, rss_kb: u64) -> ProcessInfo {
    ProcessInfo { pid, cmd: cmd.to_string(), rss_kb }
}

fn summary(v: &[ProcessInfo]) -> Vec<(i32, u64)> {
    v.iter().map(|x| (x.pid, x.rss_kb)).collect()
}

#[test]
fn top_processes_sorted_by_rss_descending() {
    let procs = vec![p(1, "a", 10), p(2, "b", 300), p(3, "c", 20), p(4, "d", 300), p(5, "e", 0)];
    let top = top_processes(procs, 20);
    // equal sizes keep their order
    assert_eq!(summary(&top), vec![(2, 300), (4, 300), (3, 20), (1, 10), (5, 0)]);
    assert_eq!(top[0].cmd, "b");
}

#[test]
fn top_processes_truncates_to_limit() {
    let procs: Vec<ProcessInfo> = (0..30).map(|i| p(i, "x", (i as u64 * 7) % 11)).collect();
    let top = top_processes(procs.clone(), TOP_PROCESS_COUNT);
    assert_eq!(top.len(), 20);
    let mut expected = summary(&procs);
    expected.sort_by_key(|e| std::cmp::Reverse(e.1));
    expected.truncate(20);
    assert_eq!(summary(&top), expected);
    // nothing left out has more memory than the last one listed
    let last = top.last().unwrap().rss_kb;
    for q in &procs {
        if q.rss_kb > last {
            assert!(top.iter().any(|t| t.pid == q.pid));
        }
    }
    assert!(top_processes(Vec::new(), 5).is_empty());
    assert!(top_processes(vec![p(1, "a", 1)], 0).is_empty());
}

#[test]
fn process_info_from_files() {
    let info = process_info(42, "python3\0app.py\0", "python3\n", "Name: python3\nVmRSS:\t 2048 kB\n");
    assert_eq!(info.pid, 42);
    assert_eq!(info.cmd, "python3 app.py");
    assert_eq!(info.rss_kb, 2048);
}

#[test]
fn usage_between_samples() {
    let prev = vec![(1000u64, 800u64), (500, 400)];
    let cur = vec![(1100u64, 850u64), (520, 390)];
    let d = cpu_usage_deltas(Some(prev.clone()), &cur);
    assert_eq!(d, vec![CpuUsage { idle: 50, total: 100 }, CpuUsage { idle: 0, total: 20 }]);
    assert!(cpu_usage_deltas(None, &cur).is_empty());
    assert!(cpu_usage_deltas(Some(vec![(1, 1)]), &cur).is_empty());
    // counters that went backwards count as no time
    let back = cpu_usage_deltas(Some(vec![(200, 100)]), &vec![(100, 50)]);
    assert_eq!(back, vec![CpuUsage { idle: 0, total: 0 }]);
}

#[test]
fn usage_bands() {
    assert_eq!(usage_level(CpuUsage { idle: 6, total: 10 }), UsageLevel::Low);
    assert_eq!(usage_level(CpuUsage { idle: 5, total: 10 }), UsageLevel::Medium);
    assert_eq!(usage_level(CpuUsage { idle: 3, total: 10 }), UsageLevel::Medium);
    assert_eq!(usage_level(CpuUsage { idle: 2, total: 10 }), UsageLevel::High);
    assert_eq!(usage_level(CpuUsage { idle: 0, total: 10 }), UsageLevel::High);
    assert_eq!(usage_level(CpuUsage { idle: 0, total: 0 }), UsageLevel::Low);
    assert_eq!(usage_level(CpuUsage { idle: 20, total: 10 }), UsageLevel::Low);
    assert_eq!(usage_level(CpuUsage { idle: 0, total: u64::MAX }), UsageLevel::High);
}

#[test]
fn memory_figures() {
    let m = memory_usage(2_048_000, 1_024_000);
    assert_eq!(m.used_kb, 1_024_000);
    assert_eq!(m.used_mb, 1000);
    assert_eq!(m.total_mb, 2000);
    assert_eq!(memory_title(&m), "Memory: 1000 / 2000 MB");
    let over = memory_usage(100, 200);
    assert_eq!(over.used_kb, 0);
    assert_eq!(memory_title(&memory_usage(0, 0)), "Memory: 0 / 0 MB");
}

#[test]
fn snapshot_from_files() {
    let stats = vec![(1100u64, 850u64), (520, 390)];
    let meminfo = "MemTotal: 4000 kB\nMemAvailable: 1000 kB\n";
    let snap = assemble_snapshot(Some(vec![(1000, 800), (500, 400)]), &stats, meminfo, "0.10 0.20 0.30 1/2 3\n", vec![p(9, "z", 1)]);
    assert_eq!(snap.cpu_usage, CpuUsage { idle: 50, total: 100 });
    assert_eq!(snap.per_cpu_usage.len(), 2);
    assert_eq!(snap.mem_total_kb, 4000);
    assert_eq!(snap.mem_available_kb, 1000);
    assert_eq!(snap.load_avg, "0.10 0.20 0.30");
    assert_eq!(summary(&snap.processes), vec![(9, 1)]);

    let first = assemble_snapshot(None, &stats, "", "", Vec::new());
    assert_eq!(first.cpu_usage, CpuUsage { idle: 0, total: 0 });
    assert!(first.per_cpu_usage.is_empty());
    assert_eq!(first.mem_total_kb, 0);
    assert_eq!(first.load_avg, "");
}

#[test]
fn default_snapshot_is_empty() {
    let s = SystemSnapshot::default();
    assert_eq!(s.cpu_usage, CpuUsage::default());
    assert!(s.per_cpu_usage.is_empty());
    assert!(s.load_avg.is_empty());
    assert_eq!(s.mem_total_kb, 0);
    assert_eq!(s.mem_available_kb, 0);
    assert!(s.processes.is_empty());
}

#[test]
fn sampler_keeps_baseline_only_after_success() {
    let snap = SystemSnapshot::default();
    let (next, sent) = sampler_step::<String>(Ok((snap, vec![(5, 1)])));
    assert_eq!(next, Some(vec![(5, 1)]));
    assert!(sent.is_some());
    let (next, sent) = sampler_step::<String>(Err("no /proc".to_string()));
    assert!(next.is_none());
    assert!(sent.is_none());
}

#[test]
fn gauges_for_cores() {
    let per: Vec<CpuUsage> = (0..20).map(|i| CpuUsage { idle: i, total: 20 }).collect();
    let g = core_gauges(&per);
    assert_eq!(g.len(), MAX_CORE_GAUGES);
    assert_eq!(g[0].label, "all");
    assert_eq!(g[1].label, "cpu0");
    assert_eq!(g[15].label, "cpu14");
    assert_eq!(g[0].level, UsageLevel::High);
    assert_eq!(g[15].level, UsageLevel::Low);
    assert_eq!(g[3].usage, per[3]);
    assert_eq!(core_gauges(&per[..2].to_vec()).len(), 2);
}

#[test]
fn row_and_headers() {
    assert_eq!(process_row(&p(-3, "cmd x", 77)), ("-3".to_string(), "77".to_string(), "cmd x".to_string()));
    assert_eq!(load_header(&"0.1 0.2 0.3".to_string()), "Loadavg: 0.1 0.2 0.3");
}

#[test]
fn details_and_their_lines() {
    let status = "Uid:\t0\t0\t0\t0\nGid:\t0\t0\t0\t0\nThreads:\t12\nVmRSS:\t 900 kB\n";
    let d = process_details(7, "init\0--x\0", "/sbin/init".to_string(), String::new(), status, Some(33));
    assert_eq!(d.pid, 7);
    assert_eq!(d.cmdline, "init --x");
    assert_eq!(d.uid, Some(0));
    assert_eq!(d.threads, Some(12));
    assert_eq!(d.rss_kb, Some(900));
    let lines = detail_lines(Some(&d));
    assert_eq!(
        lines,
        vec![
            "PID: 7", "Cmd: init --x", "Exe: /sbin/init", "UID: 0", "GID: 0", "Threads: 12",
            "RSS: 900 KB", "Open fds: 33",
        ]
    );
    let bare = ProcessDetails { pid: 1, ..Default::default() };
    assert_eq!(detail_lines(Some(&bare)), vec!["PID: 1"]);
    assert_eq!(detail_lines(None), vec!["(process details unavailable)"]);
}
