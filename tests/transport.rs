use std::collections::{BTreeMap, HashMap};

use colmet_node::backends::metric::RawReading;
use colmet_node::backends::perfhw::PerfhwBackend;
use colmet_node::backends::memory::MemoryBackend;
use colmet_node::backends::{AnyBackend, BackendsManager};
use colmet_node::cgroup_manager::CgroupManager;
use colmet_node::scheduler::time_to_round_timestamp;
use colmet_node::transport::{apply_config, encode_batch, parse_seconds_ns, receive_config};

fn config(entries: &[(&str, &str)]) -> Vec<(String, String)> {
    entries.iter().map(|(k, v)| (k.to_string(), v.to_string())).collect()
}

#[test]
fn seconds_are_read_as_nanoseconds() {
    assert_eq!(parse_seconds_ns("0.5"), Some(500_000_000));
    assert_eq!(parse_seconds_ns("1"), Some(1_000_000_000));
    assert_eq!(parse_seconds_ns("1.25"), Some(1_250_000_000));
    assert_eq!(parse_seconds_ns(".5"), Some(500_000_000));
    assert_eq!(parse_seconds_ns("2."), Some(2_000_000_000));
    assert_eq!(parse_seconds_ns("0.0000000019"), Some(1));
    assert_eq!(parse_seconds_ns("18446744073.709551615"), Some(u64::MAX));
}

#[test]
fn malformed_seconds_are_refused() {
    assert_eq!(parse_seconds_ns(""), None);
    assert_eq!(parse_seconds_ns("."), None);
    assert_eq!(parse_seconds_ns("1.2.3"), None);
    assert_eq!(parse_seconds_ns("abc"), None);
    assert_eq!(parse_seconds_ns("-1"), None);
    assert_eq!(parse_seconds_ns("18446744073.709551616"), None);
    assert_eq!(parse_seconds_ns("99999999999999999999999"), None);
}

#[test]
fn sample_period_message_changes_the_next_wake() {
    let mut reg = CgroupManager::new(1_000_000_000);
    let mut bm = BackendsManager::new();
    let now: u128 = 10_200_000_000;
    assert_eq!(time_to_round_timestamp(now, reg.sample_period() as u128), 800_000_000);
    apply_config(&config(&[("sample_period", "0.5")]), &mut reg, &mut bm);
    assert_eq!(reg.sample_period(), 500_000_000);
    assert_eq!(time_to_round_timestamp(now, reg.sample_period() as u128), 300_000_000);
}

#[test]
fn unreadable_or_zero_period_is_ignored() {
    let mut reg = CgroupManager::new(1_000_000_000);
    let mut bm = BackendsManager::new();
    apply_config(&config(&[("sample_period", "fast")]), &mut reg, &mut bm);
    assert_eq!(reg.sample_period(), 1_000_000_000);
    apply_config(&config(&[("sample_period", "0")]), &mut reg, &mut bm);
    assert_eq!(reg.sample_period(), 1_000_000_000);
    apply_config(&config(&[("colour", "blue")]), &mut reg, &mut bm);
    assert_eq!(reg.sample_period(), 1_000_000_000);
}

#[test]
fn counter_selection_message_reconfigures_the_counter_backend() {
    let mut reg = CgroupManager::new(1_000_000_000);
    let mut bm = BackendsManager::new();
    bm.add_backend(AnyBackend::Memory(MemoryBackend::new("n".to_string())));
    bm.add_backend(AnyBackend::Perfhw(PerfhwBackend::new("n".to_string())));
    let jobs = vec![(42, "job_42_abc".to_string())];
    let host = "n".to_string();
    let first = bm
        .get_all_metrics(
            &jobs,
            &vec![
                vec![RawReading::Stat("rss 1\n".to_string())],
                vec![RawReading::Counters(vec![5, 6, 7])],
            ],
            &host,
            1,
        )
        .ok()
        .unwrap();
    assert_eq!(
        (first[0].1).2[1],
        ("Perfhw".to_string(), vec![38, 40, 56], vec![5, 6, 7])
    );
    assert!(apply_config(
        &config(&[("sample_period", "1"), ("perfhw_metrics", "cpu_cycles,branch_misses")]),
        &mut reg,
        &mut bm,
    ));
    let after_failed = bm
        .get_all_metrics(
            &jobs,
            &vec![vec![RawReading::Unavailable], vec![RawReading::Unavailable]],
            &host,
            2,
        )
        .ok()
        .unwrap();
    assert_eq!(
        (after_failed[0].1).2,
        vec![("Memory".to_string(), vec![2], vec![1])]
    );
    let next = bm
        .get_all_metrics(
            &jobs,
            &vec![vec![RawReading::Unavailable], vec![RawReading::Counters(vec![100, 3])]],
            &host,
            3,
        )
        .ok()
        .unwrap();
    assert_eq!(
        (next[0].1).2[1],
        ("Perfhw".to_string(), vec![37, 42], vec![100, 3])
    );
}

#[test]
fn encoded_control_message_is_received() {
    let mut reg = CgroupManager::new(1_000_000_000);
    let mut bm = BackendsManager::new();
    let mut m = BTreeMap::new();
    m.insert("sample_period".to_string(), "0.25".to_string());
    let bytes = rmp_serde::to_vec(&m).unwrap();
    assert!(receive_config(&bytes, &mut reg, &mut bm));
    assert_eq!(reg.sample_period(), 250_000_000);
}

#[test]
fn garbage_control_message_changes_nothing() {
    let mut reg = CgroupManager::new(1_000_000_000);
    let mut bm = BackendsManager::new();
    assert!(!receive_config(&vec![0xc1, 0x00], &mut reg, &mut bm));
    assert_eq!(reg.sample_period(), 1_000_000_000);
}

#[test]
fn encoded_batch_decodes_to_the_same_value() {
    let batch = vec![
        (
            42,
            (
                "node1".to_string(),
                1_700_000_000_000i64,
                vec![
                    ("Memory".to_string(), vec![1, 2], vec![100, 50]),
                    ("Cpu".to_string(), vec![34], vec![-1]),
                ],
            ),
        ),
        (7, ("node1".to_string(), 1_700_000_000_000i64, vec![])),
    ];
    let bytes = encode_batch(&batch).unwrap();
    let decoded: HashMap<i32, (String, i64, Vec<(String, Vec<i32>, Vec<i64>)>)> =
        rmp_serde::from_slice(&bytes).unwrap();
    let expected: HashMap<i32, (String, i64, Vec<(String, Vec<i32>, Vec<i64>)>)> =
        batch.into_iter().collect();
    assert_eq!(decoded, expected);
}

#[test]
fn malformed_message_reconfigures_nothing() {
    let mut reg = CgroupManager::new(1_000_000_000);
    let mut bm = BackendsManager::new();
    bm.add_backend(AnyBackend::Perfhw(PerfhwBackend::new("n".to_string())));
    let jobs = vec![(42, "job_42_abc".to_string())];
    let host = "n".to_string();
    assert!(!apply_config(
        &config(&[("sample_period", "x"), ("perfhw_metrics", "cpu_cycles")]),
        &mut reg,
        &mut bm,
    ));
    assert!(!apply_config(
        &config(&[("sample_period", "2"), ("perfhw_metrics", "cpu_cycles,bogus")]),
        &mut reg,
        &mut bm,
    ));
    assert!(!apply_config(&config(&[("perfhw_metrics", "cpu_cycles")]), &mut reg, &mut bm));
    assert_eq!(reg.sample_period(), 1_000_000_000);
    let b = bm
        .get_all_metrics(&jobs, &vec![vec![RawReading::Counters(vec![1, 2, 3])]], &host, 1)
        .ok()
        .unwrap();
    assert_eq!((b[0].1).2, vec![("Perfhw".to_string(), vec![38, 40, 56], vec![1, 2, 3])]);
}

#[test]
fn encoded_message_with_bad_period_is_refused() {
    let mut reg = CgroupManager::new(1_000_000_000);
    let mut bm = BackendsManager::new();
    let mut m = BTreeMap::new();
    m.insert("sample_period".to_string(), "soon".to_string());
    m.insert("perfhw_metrics".to_string(), "cpu_cycles".to_string());
    let bytes = rmp_serde::to_vec(&m).unwrap();
    assert!(!receive_config(&bytes, &mut reg, &mut bm));
    assert_eq!(reg.sample_period(), 1_000_000_000);
}

#[test]
fn encoded_batch_lists_jobs_in_id_order() {
    let batch = vec![
        (9, ("h".to_string(), 1i64, vec![])),
        (3, ("h".to_string(), 1i64, vec![("Cpu".to_string(), vec![34], vec![5])])),
    ];
    let bytes = encode_batch(&batch).unwrap();
    let decoded: BTreeMap<i32, (String, i64, Vec<(String, Vec<i32>, Vec<i64>)>)> =
        rmp_serde::from_slice(&bytes).unwrap();
    assert_eq!(decoded.keys().cloned().collect::<Vec<i32>>(), vec![3, 9]);
    let sorted = vec![batch[1].clone(), batch[0].clone()];
    assert_eq!(bytes, encode_batch(&sorted).unwrap());
}
