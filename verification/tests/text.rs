use concurrency::text::{decimal, push_decimal, push_natural};

#[test]
fn decimal_of_small_numbers() {
    assert_eq!(decimal(0), "0");
    assert_eq!(decimal(7), "7");
    assert_eq!(decimal(10), "10");
    assert_eq!(decimal(109), "109");
    assert_eq!(decimal(-1), "-1");
    assert_eq!(decimal(-250), "-250");
}

#[test]
fn decimal_at_the_ends_of_the_range() {
    assert_eq!(decimal(i64::MAX), "9223372036854775807");
    assert_eq!(decimal(i64::MIN), "-9223372036854775808");
}

#[test]
fn decimal_agrees_with_the_standard_formatting() {
    let mut v: i64 = 1;
    for _ in 0..60 {
        assert_eq!(decimal(v), format!("{}", v));
        assert_eq!(decimal(-v), format!("{}", -v));
        v = v * 2 + (v % 3);
    }
}

#[test]
fn push_appends_to_what_is_there() {
    let mut out = String::from("x=");
    push_decimal(&mut out, -42);
    out.push_str(", n=");
    push_natural(&mut out, u64::MAX);
    assert_eq!(out, "x=-42, n=18446744073709551615");
}
