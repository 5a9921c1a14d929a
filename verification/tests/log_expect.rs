use webb::log_expect::LogExpect;

#[test]
fn value_of_ok() {
    let result: Result<u32, String> = Ok(7);
    assert_eq!(result.log_expect("seven was computed"), 7);
}

#[test]
fn value_of_some() {
    assert_eq!(Some("x").log_expect("x is there"), "x");
}
