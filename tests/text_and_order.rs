use merx::decimal::parse_decimal;
use merx::kind::kind_is_valid;
use merx::{Asset, ByteArray, Fixed};
use std::cmp::Ordering;

type Coin = Asset<Fixed<4, 210_000_000, 10>>;
type WithUpper = Asset<Fixed<4, 1_234_000_000, 1_000_000>>;
type Wide = Asset<Fixed<16, 100_000_000_000_000_000_000, 10_000_000_000>>;

#[test]
fn decimal_text_is_read_as_mantissa_and_fraction_digits() {
    assert_eq!(parse_decimal(b"67.9"), Some((679, 1)));
    assert_eq!(parse_decimal(b"-29"), Some((-29, 0)));
    assert_eq!(parse_decimal(b"0.05"), Some((5, 2)));
    assert_eq!(parse_decimal(b"-0.5"), Some((-5, 1)));
    assert_eq!(parse_decimal(b"007"), Some((7, 0)));
    assert_eq!(
        parse_decimal(b"170141183460469231731687303715884105727"),
        Some((i128::MAX, 0))
    );
    assert_eq!(
        parse_decimal(b"-17014118346046923173168730371588410572.7"),
        Some((-i128::MAX, 1))
    );
}

#[test]
fn malformed_decimal_text_is_refused() {
    for text in [
        &b""[..],
        b"-",
        b".5",
        b"5.",
        b"1.2.3",
        b"+1",
        b"1e5",
        b" 1",
        b"--1",
        b"-.5",
        b"12a",
    ] {
        assert_eq!(parse_decimal(text), None);
    }
    assert_eq!(parse_decimal(b"170141183460469231731687303715884105728"), None);
    assert_eq!(parse_decimal(b"1701411834604692317316873037158841057280"), None);
}

#[test]
fn asset_from_decimal_text() {
    let total = Coin::from_decimal_str("67.9").unwrap();
    let to_pay = Coin::from_decimal_str("-29").unwrap();
    assert!(matches!(to_pay, Asset::Debt(_)));
    let remain = (total + to_pay).unwrap();
    assert!(matches!(remain, Asset::Credit(_)));
    assert_eq!(remain.to_parts(), (38, 9, 10));
    assert!(matches!(Coin::from_decimal_str("-0").unwrap(), Asset::Credit(_)));
    assert!(Coin::from_decimal_str("0.05").is_none());
    assert!(Coin::from_decimal_str("21000000.0").is_some());
    assert!(Coin::from_decimal_str("21000000.1").is_none());
    assert!(Coin::from_decimal_str("abc").is_none());
    assert!(WithUpper::from_decimal_str("1234.000000").is_some());
    assert!(WithUpper::from_decimal_str("1234.000001").is_none());
    assert!(WithUpper::from_decimal_str("1.0000001").is_none());
    assert_eq!(
        Wide::from_decimal_str("-0.0000000001").unwrap().to_parts(),
        (0, -1, 10_000_000_000)
    );
}

#[test]
fn kind_parameters_are_checked() {
    assert!(kind_is_valid(4, 210_000_000, 10));
    assert!(kind_is_valid(16, 100_000_000_000_000_000_000, 10_000_000_000));
    assert!(!kind_is_valid(4, 210_000_000, 11));
    assert!(!kind_is_valid(8, 210_000_000, 10));
    assert!(!kind_is_valid(16, 1 << 127, 1));
    assert!(!kind_is_valid(4, 10, 0));
}

#[test]
fn byte_array_from_and_to_native_integers() {
    assert!(ByteArray::<4>::from_int(1 << 31).is_none());
    assert!(ByteArray::<4>::from_int(-(1 << 31) - 1).is_none());
    assert_eq!(ByteArray::<4>::from_int(i32::MIN as i128).unwrap().to_int(), i32::MIN as i128);
    assert_eq!(ByteArray::<8>::from_int(-77).unwrap().to_int(), -77);
    assert!(ByteArray::<8>::from_int(1 << 63).is_none());
    assert_eq!(ByteArray::<16>::from_int(i128::MIN).unwrap().to_int(), i128::MIN);
}

#[test]
fn assets_and_values_are_ordered_by_amount() {
    let a = Coin::new(-3).unwrap();
    let b = Coin::from_parts(-25, 1).unwrap();
    let c = Coin::new(2).unwrap();
    assert_eq!(a.compare(&b), Ordering::Less);
    assert_eq!(c.compare(&b), Ordering::Greater);
    assert_eq!(c.compare(&Coin::from_parts(20, 1).unwrap()), Ordering::Equal);
    let x = a.get_inner();
    let y = c.get_inner();
    assert!(x < y);
    assert!(y > x);
    assert!(x <= x);
    assert_eq!(x.partial_cmp(&y), Some(Ordering::Less));
    assert!(a < b);
    assert!(b < c);
    assert!(c >= Coin::from_parts(20, 1).unwrap());
    assert_eq!(a.partial_cmp(&c), Some(Ordering::Less));
}
