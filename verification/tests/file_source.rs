use webb::file_source::backup_name;

#[test]
fn backup_name_has_the_time_as_suffix() {
    assert_eq!(backup_name(1700000000, "success.yaml"), "success.yaml-1700000000");
    assert_eq!(backup_name(42, "fail.yaml"), "fail.yaml-42");
}

#[test]
fn backup_name_at_the_limits() {
    assert_eq!(backup_name(0, "a"), "a-0");
    assert_eq!(backup_name(9, ""), "-9");
    assert_eq!(backup_name(10, "a"), "a-10");
    assert_eq!(backup_name(u64::MAX, "a"), "a-18446744073709551615");
}

#[test]
fn backup_name_keeps_the_name_as_it_is() {
    assert_eq!(backup_name(7, "成功 1-2.yaml"), "成功 1-2.yaml-7");
}
