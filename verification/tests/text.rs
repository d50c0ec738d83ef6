use openra::text::{push_decimal, push_decimal_i32};

#[test]
fn decimal_rendering() {
    let mut s = String::from("x=");
    push_decimal(&mut s, 0);
    assert_eq!(s, "x=0");
    let mut s = String::new();
    push_decimal(&mut s, 1234567890123);
    assert_eq!(s, "1234567890123");
    let mut s = String::new();
    push_decimal_i32(&mut s, -42);
    assert_eq!(s, "-42");
    let mut s = String::new();
    push_decimal_i32(&mut s, i32::MIN);
    assert_eq!(s, "-2147483648");
}
