use priorityqueue::order::TotalOrder;

#[test]
fn usize_order() {
    assert!(1usize.is_le(&2));
    assert!(2usize.is_le(&2));
    assert!(!3usize.is_le(&2));
    assert!(0usize.is_le(&usize::MAX));
    assert!(!usize::MAX.is_le(&0));
}

#[test]
fn u32_order() {
    assert!(1u32.is_le(&2));
    assert!(2u32.is_le(&2));
    assert!(!3u32.is_le(&2));
    assert!(!u32::MAX.is_le(&0));
}

#[test]
fn u64_order() {
    assert!(1u64.is_le(&2));
    assert!(2u64.is_le(&2));
    assert!(!3u64.is_le(&2));
    assert!(!u64::MAX.is_le(&0));
}

#[test]
fn i32_order() {
    assert!((-1i32).is_le(&0));
    assert!((-1i32).is_le(&-1));
    assert!(!0i32.is_le(&-1));
    assert!(i32::MIN.is_le(&i32::MAX));
    assert!(!i32::MAX.is_le(&i32::MIN));
}

#[test]
fn i64_order() {
    assert!((-1i64).is_le(&0));
    assert!((-1i64).is_le(&-1));
    assert!(!0i64.is_le(&-1));
    assert!(i64::MIN.is_le(&i64::MAX));
    assert!(!i64::MAX.is_le(&i64::MIN));
}
