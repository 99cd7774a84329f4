use colmet_node::backends::metric_names::metric_name_id;
use colmet_node::backends::{compress_metric_names, try_compress_metric_names};

#[test]
fn memory_names_compress_to_their_ids() {
    let ids = compress_metric_names(vec!["cache".to_string(), "rss".to_string()]);
    assert_eq!(ids, vec![1, 2]);
}

#[test]
fn cpu_and_counter_names_compress_to_their_ids() {
    let ids = compress_metric_names(vec![
        "nr_periods".to_string(),
        "throttled_time".to_string(),
        "instructions".to_string(),
        "bpf_output".to_string(),
    ]);
    assert_eq!(ids, vec![34, 36, 38, 64]);
}

#[test]
fn the_same_name_always_gets_the_same_id() {
    let ids = compress_metric_names(vec![
        "page_faults".to_string(),
        "cache".to_string(),
        "page_faults".to_string(),
    ]);
    assert_eq!(ids, vec![56, 1, 56]);
    assert_eq!(metric_name_id("page_faults"), Some(56));
    assert_eq!(metric_name_id("page_faults"), metric_name_id("page_faults"));
}

#[test]
fn unknown_name_is_reported_not_defaulted() {
    assert_eq!(metric_name_id("no_such_metric"), None);
    assert_eq!(metric_name_id(""), None);
    let r = try_compress_metric_names(&vec!["rss".to_string(), "no_such_metric".to_string()]);
    assert_eq!(r, Err("no_such_metric".to_string()));
}

#[test]
fn empty_name_list_compresses_to_nothing() {
    assert_eq!(compress_metric_names(vec![]), Vec::<i32>::new());
}
