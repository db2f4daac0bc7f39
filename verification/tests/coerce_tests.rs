use numstat::coerce::{widen_vec, ToVeci32, Toi32, Widen};
use numstat::factorial::Factorial;
use numstat::ratio::Ratio;
use numstat::stats::{average, modes};

#[test]
fn widening_is_lossless() {
    let unsigned: Vec<u32> = vec![0, 4294967295];
    assert_eq!(widen_vec(&unsigned), vec![0i64, 4294967295i64]);
    let signed: Vec<i32> = vec![-2147483648, 2147483647];
    assert_eq!(widen_vec(&signed), vec![-2147483648i64, 2147483647i64]);
    let bytes: Vec<u8> = vec![7, 200];
    assert_eq!(widen_vec(&bytes), vec![7i64, 200i64]);
}

#[test]
fn statistics_through_widening() {
    let v: Vec<u8> = vec![1, 2, 3, 4];
    let r = average(&widen_vec(&v));
    assert_eq!(r.num, 10);
    assert_eq!(r.den, 4);
    let w: Vec<i16> = vec![-3, -3, 8];
    assert_eq!(modes(&widen_vec(&w)), vec![-3i64]);
}

#[test]
fn to_i32_conversions() {
    assert_eq!(200u8.h_i32(), 200);
    assert_eq!((-3i8).h_i32(), -3);
    assert_eq!(1000i16.h_i32(), 1000);
    assert_eq!(7i32.h_i32(), 7);
    assert_eq!(65535u16.h_i32(), 65535);
}

#[test]
fn to_vec_i32_conversion() {
    let v: Vec<u16> = vec![1, 65535];
    assert_eq!(v.h_to_vec_i32(), vec![1, 65535]);
    let empty: Vec<u8> = Vec::new();
    assert_eq!(empty.h_to_vec_i32(), Vec::<i32>::new());
}

#[test]
fn single_value_widening() {
    assert_eq!(5u8.widen(), 5i64);
    assert_eq!((-9i16).widen(), -9i64);
    assert_eq!(4294967295u32.widen(), 4294967295i64);
}

#[test]
fn factorials() {
    assert_eq!(0i32.h_factorial(), 1);
    assert_eq!(5i32.h_factorial(), 120);
    assert_eq!(10u32.h_factorial(), 3628800);
    assert_eq!(20u32.h_factorial(), 2432902008176640000);
}

#[test]
fn ratio_whole() {
    let r = Ratio::whole(-7);
    assert_eq!(r.num, -7);
    assert_eq!(r.den, 1);
}
