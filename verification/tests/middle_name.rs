use rkubectl::middle::{fill_in_middle_name, filled_with_middle_name};

#[test]
fn test_insert_middle_name() {
    assert_eq!(filled_with_middle_name("kg2", "-sophon"), "kg-sophon2");
    assert_eq!(filled_with_middle_name("base22", "-sophon"), "base-sophon22");
    assert_eq!(filled_with_middle_name("notebook", "-sophon"), "notebook-sophon");
    assert_eq!(filled_with_middle_name("gk22", "-sophon"), "gk-sophon22");
    assert_eq!(filled_with_middle_name("datanode1", "-hdfs"), "datanode-hdfs1");
    assert_eq!(filled_with_middle_name("2222", "-test"), "-test2222");
    assert_eq!(filled_with_middle_name("s2s22", "-test"), "s2s-test22");
    assert_eq!(filled_with_middle_name("222s22", "-test"), "222s-test22");
    assert_eq!(filled_with_middle_name("s", "-test"), "s-test");
}

#[test]
fn middle_name_on_empty_name_is_the_middle_name() {
    assert_eq!(filled_with_middle_name("", "-sophon"), "-sophon");
}

#[test]
fn empty_middle_name_keeps_the_name() {
    assert_eq!(filled_with_middle_name("kg2", ""), "kg2");
}

#[test]
fn fill_in_middle_name_joins_component_middle_version() {
    let groups = vec![
        Some("kg2".to_string()),
        Some("kg".to_string()),
        Some("2".to_string()),
    ];
    assert_eq!(fill_in_middle_name(&groups, "-sophon"), "kg-sophon2");
    let groups = vec![Some("x".to_string()), Some("x".to_string()), Some("".to_string())];
    assert_eq!(fill_in_middle_name(&groups, "-m"), "x-m");
}

#[test]
fn only_the_last_line_of_a_name_with_a_newline_is_kept() {
    assert_eq!(filled_with_middle_name("ab\ncd12", "-x"), "cd-x12");
}

#[test]
fn the_middle_name_goes_before_the_longest_trailing_digit_run() {
    assert_eq!(filled_with_middle_name("a1b22", "-x"), "a1b-x22");
    assert_eq!(filled_with_middle_name("a1", "-x"), "a-x1");
}

#[test]
fn unicode_digits_count_as_version_digits() {
    assert_eq!(filled_with_middle_name("kg\u{663}", "-x"), "kg-x\u{663}");
}
