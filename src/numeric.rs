//! The checked arithmetic kernel: add, multiply, divide and compare values held in
//! byte buffers of 4, 8 or 16 bytes, each computed in the native signed integer of
//! that width, failing instead of wrapping.
use crate::codec::{decode, encode, fits_width, le_signed, lemma_native_bounds};
use core::cmp::Ordering;
use vstd::prelude::*;

verus! {

/// Whether `len` is the byte length of a supported backing integer (32, 64 or 128 bits).
pub open spec fn native_len(len: usize) -> bool {
    len == 4 || len == 8 || len == 16
}

/// Division rounding toward zero, as Rust's integer `/` computes it.
pub open spec fn trunc_div(x: int, d: int) -> int {
    if x == 0 {
        0
    } else if x > 0 && d > 0 {
        x / d
    } else if x < 0 && d < 0 {
        (x * -1) / (d * -1)
    } else if x < 0 {
        ((x * -1) / d) * -1
    } else {
        (x / (d * -1)) * -1
    }
}

/// The remainder that goes with `trunc_div`: it has the sign of `x`.
pub open spec fn trunc_rem(x: int, d: int) -> int {
    if x == 0 {
        0
    } else if x > 0 && d > 0 {
        x % d
    } else if x < 0 && d < 0 {
        ((x * -1) % (d * -1)) * -1
    } else if x < 0 {
        ((x * -1) % d) * -1
    } else {
        x % (d * -1)
    }
}

/// `|v|`.
pub open spec fn abs(v: int) -> int {
    if v < 0 {
        -v
    } else {
        v
    }
}

/// The order of two integers.
pub open spec fn order_of(a: int, b: int) -> Ordering {
    if a < b {
        Ordering::Less
    } else if a == b {
        Ordering::Equal
    } else {
        Ordering::Greater
    }
}

/// `a + b` in the native integer of `len` bytes, or `None` where it overflows.
fn native_add(a: i128, b: i128, len: usize) -> (r: Option<i128>)
    requires
        native_len(len),
        fits_width(a as int, len as nat),
        fits_width(b as int, len as nat),
    ensures
        r is Some <==> fits_width(a + b, len as nat),
        r matches Some(s) ==> s == a + b,
{
    proof {
        lemma_native_bounds();
    }
    if len == 4 {
        match (a as i32).checked_add(b as i32) {
            Some(s) => Some(s as i128),
            None => None,
        }
    } else if len == 8 {
        match (a as i64).checked_add(b as i64) {
            Some(s) => Some(s as i128),
            None => None,
        }
    } else {
        a.checked_add(b)
    }
}

/// `a * k` in the native integer of `len` bytes, or `None` where `k` or the product
/// does not fit it.
fn native_mul(a: i128, k: i128, len: usize) -> (r: Option<i128>)
    requires
        native_len(len),
        fits_width(a as int, len as nat),
    ensures
        r is Some <==> fits_width(k as int, len as nat) && fits_width(a * k, len as nat),
        r matches Some(s) ==> s == a * k,
{
    proof {
        lemma_native_bounds();
    }
    if len == 4 {
        if k < i32::MIN as i128 || k > i32::MAX as i128 {
            return None;
        }
        match (a as i32).checked_mul(k as i32) {
            Some(s) => Some(s as i128),
            None => None,
        }
    } else if len == 8 {
        if k < i64::MIN as i128 || k > i64::MAX as i128 {
            return None;
        }
        match (a as i64).checked_mul(k as i64) {
            Some(s) => Some(s as i128),
            None => None,
        }
    } else {
        a.checked_mul(k)
    }
}

/// `a / k`, rounded toward zero, in the native integer of `len` bytes, or `None`
/// where `k` is zero or does not fit it, or the quotient overflows.
fn native_div(a: i128, k: i128, len: usize) -> (r: Option<i128>)
    requires
        native_len(len),
        fits_width(a as int, len as nat),
    ensures
        r is Some <==> k != 0 && fits_width(k as int, len as nat) && fits_width(
            trunc_div(a as int, k as int),
            len as nat,
        ),
        r matches Some(s) ==> s == trunc_div(a as int, k as int),
{
    proof {
        lemma_native_bounds();
    }
    if len == 4 {
        if k < i32::MIN as i128 || k > i32::MAX as i128 {
            return None;
        }
        match (a as i32).checked_div(k as i32) {
            Some(s) => Some(s as i128),
            None => None,
        }
    } else if len == 8 {
        if k < i64::MIN as i128 || k > i64::MAX as i128 {
            return None;
        }
        match (a as i64).checked_div(k as i64) {
            Some(s) => Some(s as i128),
            None => None,
        }
    } else {
        a.checked_div(k)
    }
}

/// Adds the values held in two buffers; `None` on native overflow.
pub fn add_buffers<const LEN: usize>(le: [u8; LEN], ri: [u8; LEN]) -> (r: Option<[u8; LEN]>)
    requires
        native_len(LEN),
    ensures
        r is Some <==> fits_width(le_signed(le@) + le_signed(ri@), LEN as nat),
        r matches Some(b) ==> le_signed(b@) == le_signed(le@) + le_signed(ri@),
{
    let a = decode(&le);
    let b = decode(&ri);
    match native_add(a, b, LEN) {
        Some(s) => Some(encode::<LEN>(s)),
        None => None,
    }
}

/// Multiplies the value held in a buffer by `ri`; `None` where `ri` does not fit
/// the native width or the product overflows it.
pub fn mul_buffer<const LEN: usize>(le: [u8; LEN], ri: i128) -> (r: Option<[u8; LEN]>)
    requires
        native_len(LEN),
    ensures
        r is Some <==> fits_width(ri as int, LEN as nat) && fits_width(
            le_signed(le@) * ri,
            LEN as nat,
        ),
        r matches Some(b) ==> le_signed(b@) == le_signed(le@) * ri,
{
    let a = decode(&le);
    match native_mul(a, ri, LEN) {
        Some(s) => Some(encode::<LEN>(s)),
        None => None,
    }
}

/// Divides the value held in a buffer by `rhs`, rounding toward zero; `None` where
/// `rhs` is zero or does not fit the native width, or the quotient overflows it.
pub fn div_buffer<const LEN: usize>(lhs: [u8; LEN], rhs: i128) -> (r: Option<[u8; LEN]>)
    requires
        native_len(LEN),
    ensures
        r is Some <==> rhs != 0 && fits_width(rhs as int, LEN as nat) && fits_width(
            trunc_div(le_signed(lhs@), rhs as int),
            LEN as nat,
        ),
        r matches Some(b) ==> le_signed(b@) == trunc_div(le_signed(lhs@), rhs as int),
{
    let a = decode(&lhs);
    match native_div(a, rhs, LEN) {
        Some(s) => Some(encode::<LEN>(s)),
        None => None,
    }
}

/// Whether the magnitude of the value held in `val` is at most `max`.
pub fn buffer_is_less_or_equal<const LEN: usize>(val: [u8; LEN], max: u128) -> (r: bool)
    requires
        native_len(LEN),
    ensures
        r == (abs(le_signed(val@)) <= max),
{
    let z = decode(&val);
    if z >= 0 {
        (z as u128) <= max
    } else {
        ((-(z + 1)) as u128) < max
    }
}

/// Three-way comparison of the values held in two buffers.
pub fn ord<const LEN: usize>(lhs: [u8; LEN], rhs: [u8; LEN]) -> (r: Ordering)
    requires
        native_len(LEN),
    ensures
        r == order_of(le_signed(lhs@), le_signed(rhs@)),
{
    let z = decode(&lhs);
    let y = decode(&rhs);
    if z == y {
        Ordering::Equal
    } else if z > y {
        Ordering::Greater
    } else {
        Ordering::Less
    }
}

/// Whether the value held in `val` is at least zero.
pub fn buffer_is_positive<const LEN: usize>(val: [u8; LEN]) -> (r: bool)
    requires
        native_len(LEN),
    ensures
        r == (le_signed(val@) >= 0),
{
    decode(&val) >= 0
}

/// Whether the value held in `val` is below zero, read from the sign bit of its most
/// significant byte.
pub fn buffer_is_negative<const LEN: usize>(val: [u8; LEN]) -> (r: bool)
    requires
        LEN >= 1,
    ensures
        r == (le_signed(val@) < 0),
{
    let most_significant = val[LEN - 1];
    proof {
        crate::codec::lemma_sign_byte(val@);
    }
    most_significant >= 128
}

/// Splits the value held in `buf` into its whole part and its fraction for the scale
/// factor `pow`, both rounded toward zero (the fraction has the sign of the value),
/// together with `pow`.
pub fn buffer_to_parts<const LEN: usize>(buf: [u8; LEN], pow: u128) -> (r: (i128, i128, u128))
    requires
        native_len(LEN),
        1 <= pow <= i128::MAX,
    ensures
        r.0 == trunc_div(le_signed(buf@), pow as int),
        r.1 == trunc_rem(le_signed(buf@), pow as int),
        r.2 == pow,
{
    let z = decode(&buf);
    let p = pow as i128;
    proof {
        lemma_native_bounds();
        lemma_trunc_bounds(z as int, p as int);
    }
    let whole = z.checked_div(p).unwrap();
    let frac = z.checked_rem(p).unwrap();
    (whole, frac, pow)
}

/// Rounding toward zero by a positive divisor keeps both results within the
/// magnitude of the dividend.
pub proof fn lemma_trunc_bounds(x: int, d: int)
    requires
        d >= 1,
    ensures
        abs(trunc_div(x, d)) <= abs(x),
        abs(trunc_rem(x, d)) <= abs(x),
        abs(trunc_rem(x, d)) < d,
        x == d * trunc_div(x, d) + trunc_rem(x, d),
{
    if x > 0 {
        lemma_div_rem_pos(x, d);
    } else if x < 0 {
        lemma_div_rem_pos(-x, d);
        assert(d * (((x * -1) / d) * -1) == -(d * ((x * -1) / d))) by (nonlinear_arith);
    }
}

proof fn lemma_div_rem_pos(x: int, d: int)
    requires
        x >= 1,
        d >= 1,
    ensures
        0 <= x / d <= x,
        0 <= x % d < d,
        x % d <= x,
        x == d * (x / d) + x % d,
{
    assert(x == d * (x / d) + x % d && 0 <= x % d < d) by (nonlinear_arith)
        requires
            d >= 1,
    ;
    assert(x / d <= x) by (nonlinear_arith)
        requires
            x >= 1,
            d >= 1,
    ;
    assert(x / d >= 0) by (nonlinear_arith)
        requires
            x >= 1,
            d >= 1,
    ;
}

} // verus!
