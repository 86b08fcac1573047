use rlox::text::{integer_to_string, push_integer, report};

#[test]
fn integers_in_decimal() {
    for n in [0i64, 1, 9, 10, 11, 99, 100, 1234567890, -1, -10, -987, i64::MAX, i64::MIN] {
        assert_eq!(integer_to_string(n), format!("{}", n));
    }
}

#[test]
fn push_integer_appends() {
    let mut s = "line ".to_string();
    push_integer(&mut s, 42);
    assert_eq!(s, "line 42");
    push_integer(&mut s, -7);
    assert_eq!(s, "line 42-7");
}

#[test]
fn report_puts_the_location_before_the_colon() {
    assert_eq!(
        report(12, " at end".to_string(), "Expect expression.".to_string()),
        "[line 12] Error at end: Expect expression."
    );
    assert_eq!(report(1, String::new(), String::new()), "[line 1] Error: ");
}
