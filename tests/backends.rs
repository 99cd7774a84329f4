use colmet_node::backends::cpu::CpuBackend;
use colmet_node::backends::memory::MemoryBackend;
use colmet_node::backends::metric::RawReading;
use colmet_node::backends::perfhw::PerfhwBackend;
use colmet_node::backends::{AnyBackend, Backend, BackendsManager};

fn stat(s: &str) -> RawReading {
    RawReading::Stat(s.to_string())
}

fn job42() -> Vec<(i32, String)> {
    vec![(42, "job_42_abc".to_string())]
}

#[test]
fn memory_backend_reports_names_then_updated_values() {
    let mut bm = BackendsManager::new();
    bm.add_backend(AnyBackend::Memory(MemoryBackend::new("node1".to_string())));
    let host = "node1".to_string();
    let b1 = bm
        .get_all_metrics(&job42(), &vec![vec![stat("cache 100\nrss 50\n")]], &host, 1000)
        .ok()
        .unwrap();
    assert_eq!(
        b1,
        vec![(
            42,
            ("node1".to_string(), 1000, vec![("Memory".to_string(), vec![1, 2], vec![100, 50])])
        )]
    );
    let b2 = bm
        .get_all_metrics(&job42(), &vec![vec![stat("cache 120\nrss 50\n")]], &host, 2000)
        .ok()
        .unwrap();
    assert_eq!(
        b2,
        vec![(
            42,
            ("node1".to_string(), 2000, vec![("Memory".to_string(), vec![1, 2], vec![120, 50])])
        )]
    );
}

#[test]
fn one_entry_per_job_and_one_report_per_backend() {
    let mut bm = BackendsManager::new();
    bm.add_backend(AnyBackend::Memory(MemoryBackend::new("n".to_string())));
    bm.add_backend(AnyBackend::Cpu(CpuBackend::new("n".to_string())));
    let jobs = vec![(1, "job_1".to_string()), (2, "job_2".to_string())];
    let readings = vec![
        vec![stat("rss 5\n"), stat("rss 6\n")],
        vec![stat("nr_periods 3\nnr_throttled 1\n"), RawReading::Unavailable],
    ];
    let b = bm.get_all_metrics(&jobs, &readings, &"n".to_string(), 7).ok().unwrap();
    assert_eq!(b.len(), 2);
    assert_eq!(b[0].0, 1);
    assert_eq!(
        (b[0].1).2,
        vec![
            ("Memory".to_string(), vec![2], vec![5]),
            ("Cpu".to_string(), vec![34, 35], vec![3, 1]),
        ]
    );
    assert_eq!(b[1].0, 2);
    assert_eq!((b[1].1).2, vec![("Memory".to_string(), vec![2], vec![6])]);
}

#[test]
fn failed_read_keeps_previous_values() {
    let mut bm = BackendsManager::new();
    bm.add_backend(AnyBackend::Memory(MemoryBackend::new("n".to_string())));
    let host = "n".to_string();
    let never = bm
        .get_all_metrics(&job42(), &vec![vec![RawReading::Unavailable]], &host, 1)
        .ok()
        .unwrap();
    assert_eq!(never, vec![(42, ("n".to_string(), 1, vec![]))]);
    bm.get_all_metrics(&job42(), &vec![vec![stat("rss 9\n")]], &host, 2).ok().unwrap();
    let stale = bm
        .get_all_metrics(&job42(), &vec![vec![stat("rss oops\n")]], &host, 3)
        .ok()
        .unwrap();
    assert_eq!(stale, vec![(42, ("n".to_string(), 3, vec![("Memory".to_string(), vec![2], vec![9])]))]);
}

#[test]
fn departed_job_leaves_the_batch() {
    let mut bm = BackendsManager::new();
    bm.add_backend(AnyBackend::Memory(MemoryBackend::new("n".to_string())));
    let host = "n".to_string();
    bm.get_all_metrics(&job42(), &vec![vec![stat("rss 9\n")]], &host, 1).ok().unwrap();
    let empty: Vec<(i32, String)> = vec![];
    let b = bm.get_all_metrics(&empty, &vec![vec![]], &host, 2).ok().unwrap();
    assert_eq!(b, vec![]);
}

#[test]
fn unknown_metric_name_is_an_error() {
    let mut bm = BackendsManager::new();
    bm.add_backend(AnyBackend::Memory(MemoryBackend::new("n".to_string())));
    let r = bm.get_all_metrics(&job42(), &vec![vec![stat("rss 1\nweird 2\n")]], &"n".to_string(), 1);
    assert_eq!(r, Err("weird".to_string()));
}

#[test]
fn counter_backend_needs_one_value_per_selected_counter() {
    let mut bm = BackendsManager::new();
    bm.add_backend(AnyBackend::Perfhw(PerfhwBackend::new("n".to_string())));
    let host = "n".to_string();
    let short = bm
        .get_all_metrics(&job42(), &vec![vec![RawReading::Counters(vec![1, 2])]], &host, 1)
        .ok()
        .unwrap();
    assert_eq!(short, vec![(42, ("n".to_string(), 1, vec![]))]);
    let full = bm
        .get_all_metrics(&job42(), &vec![vec![RawReading::Counters(vec![10, 20, 30])]], &host, 2)
        .ok()
        .unwrap();
    assert_eq!(
        full,
        vec![(42, ("n".to_string(), 2, vec![("Perfhw".to_string(), vec![38, 40, 56], vec![10, 20, 30])]))]
    );
}

#[test]
fn counter_backend_reconfiguration_discards_values() {
    let mut p = PerfhwBackend::new("n".to_string());
    let jobs = job42();
    p.get_metrics(&jobs, &vec![RawReading::Counters(vec![1, 2, 3])], 1);
    assert!(!p.needs_programming(42));
    assert_eq!(p.selection_list(), "instructions,cache_misses,page_faults".to_string());
    p.set_metrics_to_get(vec!["cpu_cycles".to_string(), "branch_misses".to_string()]);
    assert!(p.needs_programming(42));
    assert_eq!(p.selection_len(), 2);
    assert_eq!(p.selection_list(), "cpu_cycles,branch_misses".to_string());
    let none = p.get_metrics(&jobs, &vec![RawReading::Unavailable], 2);
    assert_eq!(none.len(), 1);
    assert_eq!(none[0].metric_names, vec!["cpu_cycles".to_string(), "branch_misses".to_string()]);
    assert_eq!(none[0].metric_values, None);
    assert!(!p.needs_programming(42));
    let got = p.get_metrics(&jobs, &vec![RawReading::Counters(vec![7, 8])], 3);
    assert_eq!(got.len(), 1);
    assert_eq!(got[0].metric_names, vec!["cpu_cycles".to_string(), "branch_misses".to_string()]);
    assert_eq!(got[0].metric_values, Some(vec![7, 8]));
}

#[test]
fn stat_backends_ignore_reconfiguration() {
    let mut m = MemoryBackend::new("n".to_string());
    let jobs = job42();
    m.get_metrics(&jobs, &vec![stat("rss 4\n")], 1);
    m.set_metrics_to_get(vec!["cpu_cycles".to_string()]);
    let got = m.get_metrics(&jobs, &vec![RawReading::Unavailable], 2);
    assert_eq!(got[0].metric_names, vec!["rss".to_string()]);
    assert_eq!(got[0].metric_values, Some(vec![4]));
    assert_eq!(got[0].hostname, "n".to_string());
    assert_eq!(got[0].timestamp, 1);
}

#[test]
fn backends_name_their_sources() {
    let m = MemoryBackend::new("n".to_string());
    let c = CpuBackend::new("n".to_string());
    let p = PerfhwBackend::new("n".to_string());
    assert_eq!(m.source_path("job_42_abc"), "/sys/fs/cgroup/memory/oar/job_42_abc/memory.stat".to_string());
    assert_eq!(c.source_path("job_42_abc"), "/sys/fs/cgroup/cpu/oar/job_42_abc/cpu.stat".to_string());
    assert_eq!(p.source_path("job_42_abc"), "/oar/job_42_abc".to_string());
    assert_eq!(m.get_backend_name(), "Memory".to_string());
    assert_eq!(c.get_backend_name(), "Cpu".to_string());
    assert_eq!(p.get_backend_name(), "Perfhw".to_string());
}

#[test]
fn init_backends_adds_memory_cpu_and_counters() {
    let mut bm = BackendsManager::new();
    bm.init_backends("node7".to_string());
    let names: Vec<String> = bm.backends.iter().map(|b| b.get_backend_name()).collect();
    assert_eq!(names, vec!["Memory".to_string(), "Cpu".to_string(), "Perfhw".to_string()]);
    let jobs = vec![(5, "job_5".to_string())];
    let readings = vec![
        vec![RawReading::Stat("cache 1\n".to_string())],
        vec![RawReading::Stat("nr_periods 2\n".to_string())],
        vec![RawReading::Counters(vec![3, 4, 5])],
    ];
    let b = bm.get_all_metrics(&jobs, &readings, &"node7".to_string(), 9).ok().unwrap();
    assert_eq!(
        b,
        vec![(
            5,
            (
                "node7".to_string(),
                9,
                vec![
                    ("Memory".to_string(), vec![1], vec![1]),
                    ("Cpu".to_string(), vec![34], vec![2]),
                    ("Perfhw".to_string(), vec![38, 40, 56], vec![3, 4, 5]),
                ]
            )
        )]
    );
}

#[test]
fn every_tracked_job_has_a_metric_before_its_first_read() {
    let mut m = MemoryBackend::new("n".to_string());
    let jobs = vec![(1, "job_1".to_string()), (2, "job_2".to_string())];
    let got = m.get_metrics(&jobs, &vec![RawReading::Unavailable, stat("rss 3\n")], 5);
    assert_eq!(got.len(), 2);
    assert_eq!(got[0].job_id, 1);
    assert_eq!(got[0].metric_names, Vec::<String>::new());
    assert_eq!(got[0].metric_values, None);
    assert_eq!(got[1].metric_names, vec!["rss".to_string()]);
    let later = m.get_metrics(&jobs, &vec![stat("cache 8\n"), RawReading::Unavailable], 6);
    assert_eq!(later[0].metric_names, vec!["cache".to_string()]);
    assert_eq!(later[0].metric_values, Some(vec![8]));
    assert_eq!(later[0].timestamp, 5);
    assert_eq!(later[1].metric_values, Some(vec![3]));
}

#[test]
fn counters_are_programmed_once_per_selection() {
    let mut p = PerfhwBackend::new("n".to_string());
    let jobs = vec![(1, "job_1".to_string()), (2, "job_2".to_string())];
    assert!(p.needs_programming(1));
    p.get_metrics(&jobs, &vec![RawReading::Unavailable, RawReading::NotProgrammed], 1);
    assert!(!p.needs_programming(1));
    assert!(p.needs_programming(2));
    p.get_metrics(&vec![(2, "job_2".to_string())], &vec![RawReading::Counters(vec![1, 2, 3])], 2);
    assert!(p.needs_programming(1));
    assert!(!p.needs_programming(2));
}

#[test]
fn entry_host_comes_from_the_reporting_backend() {
    let mut bm = BackendsManager::new();
    bm.add_backend(AnyBackend::Memory(MemoryBackend::new("nodeA".to_string())));
    let jobs = vec![(1, "job_1".to_string()), (2, "job_2".to_string())];
    let b = bm
        .get_all_metrics(&jobs, &vec![vec![stat("rss 1\n"), RawReading::Unavailable]], &"other".to_string(), 4)
        .ok()
        .unwrap();
    assert_eq!((b[0].1).0, "nodeA".to_string());
    assert_eq!((b[1].1).0, "other".to_string());
}
