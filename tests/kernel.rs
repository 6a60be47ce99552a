use merx::codec::{decode, encode};
use merx::numeric::{add_buffers, buffer_is_less_or_equal, buffer_to_parts, div_buffer, mul_buffer, ord};
use merx::{buffer_is_negative, get_inner_len, pow_10, Asset, AssetKind, ByteArray, Credit, Debt, Fixed};
use merx::{ArrayWrapper, HasBound, HasFixedOps, IsFixed};
use std::cmp::Ordering;

type Coin = Asset<Fixed<4, 210_000_000, 10>>;
type CoinValue = Fixed<4, 210_000_000, 10>;

fn credit(a: Coin) -> Credit<CoinValue> {
    match a {
        Asset::Credit(c) => c,
        Asset::Debt(_) => panic!("expected a credit"),
    }
}

fn debt(a: Coin) -> Debt<CoinValue> {
    match a {
        Asset::Debt(d) => d,
        Asset::Credit(_) => panic!("expected a debt"),
    }
}

#[test]
fn encode_decode_round_trip() {
    for v in [0_i128, 1, -1, 255, 256, -256, i32::MAX as i128, i32::MIN as i128] {
        assert_eq!(decode(&encode::<4>(v)), v);
    }
    for v in [0_i128, i64::MAX as i128, i64::MIN as i128, -123_456_789_012] {
        assert_eq!(decode(&encode::<8>(v)), v);
    }
    for v in [0_i128, i128::MAX, i128::MIN, 170_141_183_460_469_231_731_687_303_715_884_105] {
        assert_eq!(decode(&encode::<16>(v)), v);
    }
}

#[test]
fn encoding_is_little_endian_twos_complement() {
    assert_eq!(encode::<4>(1), [1, 0, 0, 0]);
    assert_eq!(encode::<4>(-1), [255, 255, 255, 255]);
    assert_eq!(encode::<4>(0x0102_0304), [4, 3, 2, 1]);
    assert_eq!(encode::<4>(i32::MIN as i128), [0, 0, 0, 128]);
    assert_eq!(encode::<8>(-2), (-2_i64).to_le_bytes());
    assert_eq!(encode::<16>(-300), (-300_i128).to_le_bytes());
    assert_eq!(decode(&[0x78, 0x56, 0x34, 0x12]), 0x1234_5678);
    assert_eq!(decode(&[0, 0, 0, 0, 0, 0, 0, 0x80]), i64::MIN as i128);
}

#[test]
fn sign_from_most_significant_byte() {
    assert!(buffer_is_negative(encode::<4>(-1)));
    assert!(buffer_is_negative(encode::<8>(i64::MIN as i128)));
    assert!(!buffer_is_negative(encode::<16>(0)));
    assert!(!buffer_is_negative(encode::<4>(i32::MAX as i128)));
    assert!(buffer_is_negative([0u8, 0x80]));
}

#[test]
fn powers_of_ten() {
    assert_eq!(pow_10(0), 1);
    assert_eq!(pow_10(1), 10);
    assert_eq!(pow_10(2), 100);
    assert_eq!(pow_10(10), 10_000_000_000);
    assert_eq!(pow_10(38), 100_000_000_000_000_000_000_000_000_000_000_000_000);
}

#[test]
fn width_selection() {
    assert_eq!(get_inner_len(0), 4);
    assert_eq!(get_inner_len(2_147_483_647), 4);
    assert_eq!(get_inner_len(2_147_483_648), 8);
    assert_eq!(get_inner_len(9_223_372_036_854_775_807), 8);
    assert_eq!(get_inner_len(9_223_372_036_854_775_808), 16);
    assert_eq!(get_inner_len(i128::MAX), 16);
    assert_eq!(AssetKind::define(0, 2_147_483_647).unwrap().len, 4);
    assert_eq!(AssetKind::define(0, 2_147_483_648).unwrap().len, 8);
    assert_eq!(AssetKind::define(0, 9_223_372_036_854_775_807).unwrap().len, 8);
    assert_eq!(AssetKind::define(0, 9_223_372_036_854_775_808).unwrap().len, 16);
}

#[test]
fn misconfigured_kinds_are_refused() {
    assert!(AssetKind::define(39, 1).is_none());
    assert!(AssetKind::define(38, 1).is_some());
    assert!(AssetKind::define(38, 2).is_none());
    assert!(AssetKind::define(0, i128::MAX as u128).is_none());
    assert!(AssetKind::define(0, i128::MAX as u128 - 1).is_none());
    assert!(AssetKind::define(0, i128::MAX as u128 / 2).is_some());
    assert!(AssetKind::define(10, u128::MAX).is_none());
    let zero = AssetKind::define(10, 0).unwrap();
    assert_eq!((zero.max_scaled, zero.len), (0, 4));
}

#[test]
fn kernel_add_overflows_native_width() {
    let max = encode::<4>(i32::MAX as i128);
    let one = encode::<4>(1);
    assert_eq!(add_buffers(max, one), None);
    assert_eq!(add_buffers(max, encode::<4>(-1)), Some(encode::<4>(i32::MAX as i128 - 1)));
    let big = encode::<16>(i128::MAX);
    assert_eq!(add_buffers(big, encode::<16>(1)), None);
}

#[test]
fn kernel_mul_and_div() {
    let a = encode::<8>(1 << 32);
    assert_eq!(mul_buffer(a, 1 << 30), Some(encode::<8>(1 << 62)));
    assert_eq!(mul_buffer(a, 1 << 31), None);
    assert_eq!(mul_buffer(encode::<8>(0), 1 << 70), None);
    assert_eq!(div_buffer(a, 0), None);
    assert_eq!(div_buffer(a, -2), Some(encode::<8>(-(1 << 31))));
    assert_eq!(div_buffer(encode::<4>(i32::MIN as i128), -1), None);
}

#[test]
fn kernel_compare_and_bound() {
    assert_eq!(ord(encode::<4>(-5), encode::<4>(3)), Ordering::Less);
    assert_eq!(ord(encode::<4>(3), encode::<4>(3)), Ordering::Equal);
    assert_eq!(ord(encode::<16>(3), encode::<16>(-5)), Ordering::Greater);
    assert!(buffer_is_less_or_equal(encode::<4>(-10), 10));
    assert!(!buffer_is_less_or_equal(encode::<4>(-11), 10));
    assert!(!buffer_is_less_or_equal(encode::<4>(i32::MIN as i128), i32::MAX as u128));
}

#[test]
fn parts_keep_the_sign_of_the_value() {
    assert_eq!(buffer_to_parts(encode::<4>(-12_345), 100), (-123, -45, 100));
    assert_eq!(buffer_to_parts(encode::<8>(12_345), 100), (123, 45, 100));
    assert_eq!(buffer_to_parts(encode::<16>(-5), 10), (0, -5, 10));
}

#[test]
fn byte_array_ops_check_native_width_only() {
    let a = ByteArray::<4>::from_array_unchecked(encode::<4>(2_000_000_000));
    let b = ByteArray::<4>::from_array_unchecked(encode::<4>(100_000_000));
    assert_eq!(a.add_inner(b).map(|s| decode(&s.get_array())), Some(2_100_000_000));
    assert!(a.add_inner(a).is_none());
    assert!(a.mul_inner(2).is_none());
    assert_eq!(a.div_inner(-4).map(|s| decode(&s.get_array())), Some(-500_000_000));
}

#[test]
fn fixed_ops_check_the_bound() {
    let a = CoinValue::from_int(20_000_000).unwrap();
    let b = CoinValue::from_int(1_000_000).unwrap();
    let c = CoinValue::from_int(1_000_001).unwrap();
    assert_eq!(HasBound::add_checked(a, b).map(|s| s.to_int()), Some(21_000_000));
    assert!(HasBound::add_checked(a, c).is_none());
    assert!(HasBound::mul_checked(b, 22).is_none());
    assert_eq!(HasBound::mul_checked(b, 21).map(|s| s.to_int()), Some(21_000_000));
    assert_eq!(HasBound::div_checked(a, 3).map(|s| s.to_parts()), Some((6_666_666, 6, 10)));
    assert!(CoinValue::from_raw_buffer_checked(encode::<4>(210_000_000)).is_some());
    assert!(CoinValue::from_raw_buffer_checked(encode::<4>(-210_000_001)).is_none());
    assert_eq!(CoinValue::from_scaled(-15).unwrap().to_parts(), (-1, -5, 10));
    assert!(CoinValue::from_scaled(210_000_001).is_none());
    assert!(a.is_positive());
    assert!(!CoinValue::from_int(-1).unwrap().is_positive());
}

#[test]
fn fixed_equality_and_order() {
    let a = CoinValue::from_int(5).unwrap();
    let b = CoinValue::from_parts(50, 1).unwrap();
    let c = CoinValue::from_int(-5).unwrap();
    assert!(a == b);
    assert!(a != c);
    assert_eq!(a.compare(&c), Ordering::Greater);
    assert_eq!(c.compare(&a), Ordering::Less);
    assert_eq!(a.compare(&b), Ordering::Equal);
    assert_eq!(a.get_array(), encode::<4>(50));
}

#[test]
fn credit_and_debt_operators() {
    let c4 = credit(Coin::new(4).unwrap());
    let c6 = credit(Coin::new(6).unwrap());
    let d4 = debt(Coin::new(-4).unwrap());
    let d6 = debt(Coin::new(-6).unwrap());
    let c10 = (c4 + c6).unwrap();
    assert!(Asset::Credit(c10) == Coin::new(10).unwrap());
    let d10 = (d4 + d6).unwrap();
    assert!(Asset::Debt(d10) == Coin::new(-10).unwrap());
    let r = (d4 + c6).unwrap();
    assert!(matches!(r, Asset::Credit(_)));
    assert_eq!(r.to_int(), 2);
    let r = (c6 - d6).unwrap();
    assert!(matches!(r, Asset::Credit(_)));
    assert_eq!(r.to_int(), 0);
    let r = (c4 - d6).unwrap();
    assert!(matches!(r, Asset::Debt(_)));
    assert_eq!(r.to_int(), -2);
    let big = credit(Coin::new(21_000_000).unwrap());
    assert!((big + c4).is_none());
    let low = debt(Coin::new(-21_000_000).unwrap());
    assert!((low + d4).is_none());
}
