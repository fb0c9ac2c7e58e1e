use strutters::math::greatest_common_divisor;
use strutters::math::integer_log2;

#[test]
fn test_integer_log2() {
    assert_eq!(integer_log2(3), 1);
    assert_eq!(integer_log2(63), 5);
    assert_eq!(integer_log2(64), 6);
}

#[test]
fn test_greatest_common_divisor() {
    assert_eq!(greatest_common_divisor(252, 105), 21);
    assert_eq!(greatest_common_divisor(105, 252), 21);
}

#[test]
fn integer_log2_bounds() {
    assert_eq!(integer_log2(1), 0);
    assert_eq!(integer_log2(2), 1);
    assert_eq!(integer_log2(u64::MAX), 63);
}

#[test]
fn greatest_common_divisor_zero() {
    assert_eq!(greatest_common_divisor(0, 9), 9);
    assert_eq!(greatest_common_divisor(9, 0), 9);
    assert_eq!(greatest_common_divisor(0, 0), 0);
}
