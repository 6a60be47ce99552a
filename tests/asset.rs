use merx::{Asset, AssetKind, Fixed, IsFixed};

// digits = 1, max_natural = 21_000_000
type Coin = Asset<Fixed<4, 210_000_000, 10>>;
// digits = 10, max_natural = 10_000_000_000
type Wide = Asset<Fixed<16, 100_000_000_000_000_000_000, 10_000_000_000>>;
// digits = 2, max_natural = 18_446_744_073_709_551_615
type LowPrecision = Asset<Fixed<16, 1_844_674_407_370_955_161_500, 100>>;
// digits = 1, max_natural = 18_446_744_073_709_551_615
type PassWithI32 = Asset<Fixed<16, 184_467_440_737_095_516_150, 10>>;
// digits = 6, max_natural = 1234
type WithUpper = Asset<Fixed<4, 1_234_000_000, 1_000_000>>;
// digits = 0, max_natural = 2_147_483_647
type Overflow = Asset<Fixed<4, 2_147_483_647, 1>>;

fn is_debt<T: merx::CheckedOps>(a: &Asset<T>) -> bool {
    matches!(a, Asset::Debt(_))
}

#[test]
fn kinds_of_the_tests_are_defined_as_written() {
    let k = AssetKind::define(1, 21_000_000).unwrap();
    assert_eq!((k.digits, k.pow, k.max_scaled, k.len), (1, 10, 210_000_000, 4));
    let k = AssetKind::define(10, 10_000_000_000).unwrap();
    assert_eq!(
        (k.pow, k.max_scaled, k.len),
        (10_000_000_000, 100_000_000_000_000_000_000, 16)
    );
    let k = AssetKind::define(2, 18_446_744_073_709_551_615).unwrap();
    assert_eq!((k.pow, k.max_scaled, k.len), (100, 1_844_674_407_370_955_161_500, 16));
    let k = AssetKind::define(1, 18_446_744_073_709_551_615).unwrap();
    assert_eq!((k.pow, k.max_scaled, k.len), (10, 184_467_440_737_095_516_150, 16));
    let k = AssetKind::define(6, 1234).unwrap();
    assert_eq!((k.pow, k.max_scaled, k.len), (1_000_000, 1_234_000_000, 4));
    let k = AssetKind::define(0, 2_147_483_647).unwrap();
    assert_eq!((k.pow, k.max_scaled, k.len), (1, 2_147_483_647, 4));
}

#[test]
fn decimal_pair_plus_negative_integer_is_credit() {
    let total = Coin::from_parts(679, 1).unwrap();
    let to_pay = Coin::new(-29).unwrap();
    assert!(is_debt(&to_pay));
    let remain = (total + to_pay).unwrap();
    assert!(matches!(remain, Asset::Credit(_)));
    assert_eq!(remain.to_parts(), (38, 9, 10));
    assert_eq!(remain.to_int(), 38);
}

#[test]
fn bound_itself_builds_and_one_past_fails() {
    assert!(WithUpper::new(1234).is_some());
    assert!(WithUpper::new(1235).is_none());
    assert!(WithUpper::new(-1234).is_some());
    assert!(WithUpper::new(-1235).is_none());
    assert!(WithUpper::new(i128::MAX).is_none());
    assert!(WithUpper::new(i128::MIN).is_none());
}

#[test]
fn decimal_pair_beyond_bound_fails() {
    assert!(WithUpper::from_parts(12340, 1).is_some());
    assert!(WithUpper::from_parts(12341, 1).is_none());
    assert!(WithUpper::from_parts(1_234_000_001, 6).is_none());
    assert!(WithUpper::from_parts(123_400_000, 5).is_some());
}

#[test]
fn decimal_pair_with_too_many_digits_fails() {
    assert!(WithUpper::from_parts(1, 7).is_none());
    assert!(WithUpper::from_parts(1, 6).is_some());
    assert!(Overflow::from_parts(1, 1).is_none());
    assert_eq!(WithUpper::from_parts(405, 2).unwrap().to_parts(), (4, 50_000, 1_000_000));
}

#[test]
fn multiplication_overflowing_32_bits_fails() {
    let a = Overflow::new(65_536).unwrap();
    assert!((a * 65_536).is_none());
    assert!((a * -65_536).is_none());
    assert_eq!((a * 2).unwrap().to_int(), 131_072);
    let top = Overflow::new(2_147_483_647).unwrap();
    assert!((top * 2).is_none());
    assert_eq!((top * -1).unwrap().to_int(), -2_147_483_647);
}

#[test]
fn scalar_beyond_native_width_fails() {
    let zero = Overflow::new(0).unwrap();
    assert!((zero * (1_i128 << 40)).is_none());
    assert!((zero / (1_i128 << 40)).is_none());
    assert!((zero * 2_147_483_647).is_some());
    assert!((zero * -2_147_483_648).is_some());
}

#[test]
fn division_by_zero_fails() {
    let a = Overflow::new(17).unwrap();
    assert!((a / 0).is_none());
    let w = Wide::new(17).unwrap();
    assert!((w / 0).is_none());
}

#[test]
fn division_rounds_toward_zero() {
    let a = Overflow::new(-7).unwrap();
    let q = (a / 2).unwrap();
    assert_eq!(q.to_int(), -3);
    assert!(is_debt(&q));
    let q = (a / -2).unwrap();
    assert_eq!(q.to_int(), 3);
    assert!(!is_debt(&q));
    let q = (Overflow::new(1).unwrap() / -2).unwrap();
    assert_eq!(q.to_int(), 0);
    assert!(!is_debt(&q));
}

#[test]
fn sum_beyond_bound_fails() {
    let a = Wide::new(6_000_000_000).unwrap();
    let b = Wide::new(5_000_000_000).unwrap();
    assert!((a + b).is_none());
    let c = Wide::new(-6_000_000_000).unwrap();
    let d = Wide::new(-5_000_000_000).unwrap();
    assert!((c + d).is_none());
}

#[test]
fn sum_within_bound_is_integer_sum() {
    let a = Wide::new(6_000_000_000).unwrap();
    let b = Wide::new(-5_000_000_001).unwrap();
    assert_eq!((a + b).unwrap().to_int(), 999_999_999);
    let c = Wide::new(4_000_000_000).unwrap();
    assert_eq!((a + c).unwrap().to_int(), 10_000_000_000);
}

#[test]
fn sum_of_decimal_pairs_keeps_fraction() {
    let a = Wide::new(3).unwrap();
    let b = Wide::from_parts(-45, 1).unwrap();
    let s = (a + b).unwrap();
    assert_eq!(s.to_parts(), (-1, -5_000_000_000, 10_000_000_000));
    assert!(is_debt(&s));
    let c = Wide::from_parts(25, 1).unwrap();
    let d = Wide::from_parts(75, 1).unwrap();
    assert_eq!((c + d).unwrap().to_parts(), (10, 0, 10_000_000_000));
}

#[test]
fn whole_number_round_trips() {
    for i in [0_i128, 1, -1, 42, -42, 10_000_000_000, -10_000_000_000] {
        assert_eq!(Wide::new(i).unwrap().to_int(), i);
    }
    for i in [0_i128, 21_000_000, -21_000_000, 7] {
        assert_eq!(Coin::new(i).unwrap().to_int(), i);
    }
}

#[test]
fn negative_amounts_are_debt() {
    assert!(is_debt(&Wide::new(-1).unwrap()));
    assert!(!is_debt(&Wide::new(0).unwrap()));
    assert!(!is_debt(&Wide::new(1).unwrap()));
    assert!(is_debt(&Wide::new(i32::MIN as i128).unwrap()));
    assert!(is_debt(&Coin::from_parts(-1, 1).unwrap()));
}

#[test]
fn sums_are_reclassified_by_sign() {
    let a = PassWithI32::new(i32::MAX as i128).unwrap();
    let b = PassWithI32::new(i32::MIN as i128).unwrap();
    let s = (a + b).unwrap();
    assert!(is_debt(&s));
    assert_eq!(s.to_int(), -1);
    let c = PassWithI32::new(1).unwrap();
    let z = (s + c).unwrap();
    assert!(!is_debt(&z));
    assert_eq!(z.to_parts(), (0, 0, 10));
}

#[test]
fn multiplication_gives_integer_product() {
    let a = Wide::new(3).unwrap();
    assert_eq!((a * 4).unwrap().to_int(), 12);
    let n = (a * -4).unwrap();
    assert_eq!(n.to_int(), -12);
    assert!(is_debt(&n));
    assert!((a * 4_000_000_000).is_none());
}

#[test]
fn low_precision_parts() {
    let a = LowPrecision::from_parts(7350, 2).unwrap();
    assert_eq!(a.to_parts(), (73, 50, 100));
    let b = LowPrecision::from_parts(-7350, 2).unwrap();
    assert_eq!(b.to_parts(), (-73, -50, 100));
}

#[test]
fn get_inner_returns_the_value() {
    let a = Coin::new(-3).unwrap();
    let inner = a.get_inner();
    assert_eq!(inner.to_parts(), (-3, 0, 10));
    let back = Asset::from_inner(inner);
    assert!(back == a);
    assert!(Asset::from_inner(Fixed::<4, 210_000_000, 10>::from_int(0).unwrap()) == Coin::new(0).unwrap());
}
