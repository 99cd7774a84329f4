use colmet_node::stat_file::{get_metric_names, get_metric_values};
use colmet_node::text::{parse_i32, parse_i64};

#[test]
fn names_come_from_each_data_line() {
    let names = get_metric_names("cache 100\nrss 50\n");
    assert_eq!(names, vec!["cache".to_string(), "rss".to_string()]);
}

#[test]
fn values_come_from_each_data_line() {
    assert_eq!(get_metric_values("cache 100\nrss 50\n"), Some(vec![100, 50]));
}

#[test]
fn text_after_the_last_newline_is_excluded() {
    assert_eq!(get_metric_names("a 1\nb 2\nc 3"), vec!["a".to_string(), "b".to_string()]);
    assert_eq!(get_metric_values("a 1\nb 2\nc 3"), Some(vec![1, 2]));
}

#[test]
fn empty_file_has_no_metrics() {
    assert_eq!(get_metric_names(""), Vec::<String>::new());
    assert_eq!(get_metric_values(""), Some(vec![]));
}

#[test]
fn negative_and_large_values_are_read() {
    assert_eq!(
        get_metric_values("x -5\ny 9223372036854775807\n"),
        Some(vec![-5, 9223372036854775807])
    );
}

#[test]
fn unreadable_value_fails_the_whole_read() {
    assert_eq!(get_metric_values("cache 100\nrss fifty\n"), None);
    assert_eq!(get_metric_values("cache\n"), None);
    assert_eq!(get_metric_values("x 9223372036854775808\n"), None);
}

#[test]
fn decimal_integers_follow_the_std_rules() {
    assert_eq!(parse_i64("+17"), Some(17));
    assert_eq!(parse_i64("-9223372036854775808"), Some(i64::MIN));
    assert_eq!(parse_i64("9223372036854775808"), None);
    assert_eq!(parse_i64("-"), None);
    assert_eq!(parse_i64(""), None);
    assert_eq!(parse_i64(" 1"), None);
    assert_eq!(parse_i32("-2147483648"), Some(i32::MIN));
    assert_eq!(parse_i32("2147483648"), None);
    assert_eq!(parse_i32("42"), Some(42));
    assert_eq!(parse_i32("99999999999999999999999"), None);
}
