use gantt_engine::natural_order::compare_string_with_number;

#[test]
fn natural_sort_orders_numbers_by_value() {
    assert!(compare_string_with_number("node9", "node10") < 0);
    assert!(compare_string_with_number("node2", "node1") > 0);
    assert_eq!(compare_string_with_number("a", "a"), 0);
}

#[test]
fn natural_sort_ignores_leading_zeros() {
    assert_eq!(compare_string_with_number("node007", "node7"), 0);
    assert!(compare_string_with_number("node007", "node8") < 0);
    assert!(compare_string_with_number("node010", "node9") > 0);
}

#[test]
fn natural_sort_compares_text_runs_lexically() {
    assert!(compare_string_with_number("alpha1", "beta1") < 0);
    assert!(compare_string_with_number("node", "node-1") < 0);
    assert!(compare_string_with_number("node1", "node-1") < 0);
    assert!(compare_string_with_number("", "a") < 0);
    assert!(compare_string_with_number("a", "") > 0);
    assert_eq!(compare_string_with_number("", ""), 0);
}

#[test]
fn natural_sort_handles_long_numbers() {
    let a = "n123456789012345678901234567890";
    let b = "n123456789012345678901234567891";
    assert!(compare_string_with_number(a, b) < 0);
    assert!(compare_string_with_number(b, a) > 0);
    assert!(compare_string_with_number("n99999999999999999999", "n100000000000000000000") < 0);
}

#[test]
fn natural_sort_continues_after_equal_runs() {
    assert!(compare_string_with_number("host1-cpu2", "host1-cpu10") < 0);
    assert!(compare_string_with_number("host01-cpu3", "host1-cpu2") > 0);
    assert!(compare_string_with_number("1abc", "abc") < 0);
}
