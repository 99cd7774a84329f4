use colmet_node::cgroup_manager::{
    extract_job_id, CgroupManager, DirEvent, DirEventKind, JobIdPattern,
};

fn sorted(mut v: Vec<(i32, String)>) -> Vec<(i32, String)> {
    v.sort();
    v
}

#[test]
fn job_id_is_the_integer_after_the_separator() {
    assert_eq!(extract_job_id("_42"), Some(42));
    assert_eq!(extract_job_id("_007"), Some(7));
    assert_eq!(extract_job_id("x-3"), Some(-3));
}

#[test]
fn job_id_needs_digits_after_the_separator() {
    assert_eq!(extract_job_id(""), None);
    assert_eq!(extract_job_id("_"), None);
    assert_eq!(extract_job_id("_4a"), None);
    assert_eq!(extract_job_id("_99999999999"), None);
}

#[test]
fn pattern_finds_the_job_id_in_a_directory_name() {
    let p = JobIdPattern::new(r"_\d+").ok().unwrap();
    assert_eq!(p.job_id_of("job_42_abc"), Some(42));
    assert_eq!(p.job_id_of("oar.slice"), None);
    assert_eq!(p.find("job_42_abc"), Some("_42".to_string()));
}

#[test]
fn invalid_pattern_is_refused() {
    assert!(JobIdPattern::new("(").is_err());
}

#[test]
fn added_job_is_in_the_snapshot() {
    let mut m = CgroupManager::new(1_000_000_000);
    m.add_cgroup(42, "job_42_abc".to_string());
    m.add_cgroup(7, "job_7".to_string());
    assert_eq!(
        sorted(m.get_cgroups()),
        vec![(7, "job_7".to_string()), (42, "job_42_abc".to_string())]
    );
}

#[test]
fn adding_an_id_again_replaces_its_name() {
    let mut m = CgroupManager::new(1_000_000_000);
    m.add_cgroup(42, "a".to_string());
    m.add_cgroup(42, "b".to_string());
    assert_eq!(m.get_cgroups(), vec![(42, "b".to_string())]);
}

#[test]
fn removed_job_leaves_the_snapshot() {
    let mut m = CgroupManager::new(1_000_000_000);
    m.add_cgroup(42, "job_42_abc".to_string());
    m.add_cgroup(7, "job_7".to_string());
    m.remove_cgroup(42);
    assert_eq!(m.get_cgroups(), vec![(7, "job_7".to_string())]);
    m.remove_cgroup(1234);
    assert_eq!(m.get_cgroups(), vec![(7, "job_7".to_string())]);
}

#[test]
fn removing_the_last_job_resets_the_sample_period() {
    let mut m = CgroupManager::new(1_000_000_000);
    m.add_cgroup(42, "job_42_abc".to_string());
    m.set_sample_period(250_000_000);
    assert_eq!(m.sample_period(), 250_000_000);
    m.remove_cgroup(42);
    assert_eq!(m.get_cgroups(), vec![]);
    assert_eq!(m.sample_period(), 1_000_000_000);
}

#[test]
fn create_and_delete_events_track_the_job() {
    let p = JobIdPattern::new(r"_\d+").ok().unwrap();
    let mut m = CgroupManager::new(1_000_000_000);
    m.apply_event(
        &p,
        DirEvent { kind: DirEventKind::Create, is_dir: true, name: "job_42_abc".to_string() },
    );
    assert_eq!(m.get_cgroups(), vec![(42, "job_42_abc".to_string())]);
    m.apply_event(
        &p,
        DirEvent { kind: DirEventKind::Delete, is_dir: true, name: "job_42_abc".to_string() },
    );
    assert_eq!(m.get_cgroups(), vec![]);
}

#[test]
fn events_on_other_entries_are_ignored() {
    let p = JobIdPattern::new(r"_\d+").ok().unwrap();
    let mut m = CgroupManager::new(1_000_000_000);
    m.apply_event(
        &p,
        DirEvent { kind: DirEventKind::Create, is_dir: false, name: "job_1".to_string() },
    );
    m.apply_event(
        &p,
        DirEvent { kind: DirEventKind::Create, is_dir: true, name: "cpuset".to_string() },
    );
    m.apply_event(
        &p,
        DirEvent { kind: DirEventKind::Other, is_dir: true, name: "job_2".to_string() },
    );
    assert_eq!(m.get_cgroups(), vec![]);
}

#[test]
fn initial_scan_registers_matching_directories() {
    let p = JobIdPattern::new(r"_\d+").ok().unwrap();
    let mut m = CgroupManager::new(1_000_000_000);
    let names = vec![
        "job_3".to_string(),
        "cpuset.cpus".to_string(),
        "job_10_x".to_string(),
    ];
    m.scan(&p, &names);
    assert_eq!(
        sorted(m.get_cgroups()),
        vec![(3, "job_3".to_string()), (10, "job_10_x".to_string())]
    );
}

#[test]
fn scan_with_given_matches_registers_what_carries_an_id() {
    let mut m = CgroupManager::new(1_000_000_000);
    let names = vec!["job_3".to_string(), "other".to_string(), "job_x".to_string()];
    let matched = vec![Some("_3".to_string()), None, Some("_x".to_string())];
    m.scan_matched(&names, matched);
    assert_eq!(m.get_cgroups(), vec![(3, "job_3".to_string())]);
}

#[test]
fn delete_event_resets_the_sample_period() {
    let mut m = CgroupManager::new(2_000_000_000);
    m.add_cgroup(9, "job_9".to_string());
    m.set_sample_period(1);
    m.apply_event_matched(
        DirEvent { kind: DirEventKind::Delete, is_dir: true, name: "job_9".to_string() },
        Some("_9".to_string()),
    );
    assert_eq!(m.get_cgroups(), vec![]);
    assert_eq!(m.sample_period(), 2_000_000_000);
}
