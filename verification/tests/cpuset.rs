use gantt_engine::cpuset::{extract_ints_from_str, format_cpuset_grid5000, push_decimal, sorted_distinct};

fn cp_format(values: &[i32]) -> (Option<String>, Vec<i32>) {
    let mut values = values.to_vec();
    let text = format_cpuset_grid5000(&mut values);
    (text, values)
}

#[test]
fn integers_are_extracted_from_text() {
    assert_eq!(extract_ints_from_str("0, 1, 2"), vec![0, 1, 2]);
    assert_eq!(extract_ints_from_str("0-31"), vec![0, 31]);
    assert_eq!(extract_ints_from_str("cpu7core12"), vec![7, 12]);
    assert_eq!(extract_ints_from_str(""), Vec::<i32>::new());
    assert_eq!(extract_ints_from_str("none"), Vec::<i32>::new());
    assert_eq!(extract_ints_from_str("007"), vec![7]);
    assert_eq!(extract_ints_from_str("2147483647"), vec![2147483647]);
    assert_eq!(extract_ints_from_str("2147483648 5"), vec![5]);
    assert_eq!(extract_ints_from_str("99999999999999999999999999 3"), vec![3]);
    assert_eq!(extract_ints_from_str("-4"), vec![4]);
}

#[test]
fn a_cpuset_is_written_as_value_range_or_list() {
    assert_eq!(cp_format(&[]), (None, vec![]));
    assert_eq!(cp_format(&[5]), (Some("5".to_string()), vec![5]));
    assert_eq!(cp_format(&[5, 5, 5]), (Some("5".to_string()), vec![5]));
    assert_eq!(cp_format(&[3, 1, 2, 0]), (Some("0-3".to_string()), vec![0, 1, 2, 3]));
    assert_eq!(cp_format(&[0, 31]), (Some("0, 31".to_string()), vec![0, 31]));
    assert_eq!(cp_format(&[7, 0, 2, 2, 1]), (Some("0, 1, 2, 7".to_string()), vec![0, 1, 2, 7]));
    assert_eq!(cp_format(&[-2, -1]), (Some("-2--1".to_string()), vec![-2, -1]));
    assert_eq!(
        cp_format(&[i32::MAX, i32::MIN]),
        (Some("-2147483648, 2147483647".to_string()), vec![i32::MIN, i32::MAX])
    );
    assert_eq!(cp_format(&[10, 11]), (Some("10-11".to_string()), vec![10, 11]));
}

#[test]
fn values_are_ordered_and_told_apart() {
    assert_eq!(sorted_distinct(&vec![4, 1, 4, 3, 1]), vec![1, 3, 4]);
    assert_eq!(sorted_distinct(&vec![]), Vec::<i32>::new());
}

#[test]
fn integers_are_written_in_base_ten() {
    let mut text = String::from("n=");
    push_decimal(&mut text, 0);
    push_decimal(&mut text, -120);
    push_decimal(&mut text, 9);
    push_decimal(&mut text, 1000);
    assert_eq!(text, "n=0-12091000");
}
