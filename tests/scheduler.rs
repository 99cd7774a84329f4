use colmet_node::scheduler::time_to_round_timestamp;

#[test]
fn sleep_ends_on_the_next_multiple() {
    assert_eq!(time_to_round_timestamp(1_500, 1_000), 500);
    assert_eq!(time_to_round_timestamp(1_999, 1_000), 1);
}

#[test]
fn sleep_is_a_full_period_on_a_multiple() {
    assert_eq!(time_to_round_timestamp(2_000, 1_000), 1_000);
    assert_eq!(time_to_round_timestamp(0, 7), 7);
}

#[test]
fn sleep_with_a_real_clock_value() {
    let now: u128 = 1_700_000_000_250_000_000;
    assert_eq!(time_to_round_timestamp(now, 500_000_000), 250_000_000);
    assert_eq!(time_to_round_timestamp(now, 1_000_000_000), 750_000_000);
}
