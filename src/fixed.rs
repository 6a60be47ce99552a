//! The fixed-point value: a scaled integer of an asset kind, stored in the
//! narrowest byte buffer that holds the kind's bound.
use crate::asset::CheckedOps;
use crate::codec::{decode, encode, fits_width, le_signed, lemma_le_signed_injective, lemma_native_bounds};
use crate::kind::{
    digits_of, lemma_pow10_max, lemma_pow10_monotonic, lemma_pow10_positive, pow10, pow_10,
    scale_digits, valid_kind,
};
use crate::numeric::{
    abs, add_buffers, buffer_is_less_or_equal, buffer_is_positive, buffer_to_parts, div_buffer,
    lemma_trunc_bounds, mul_buffer, native_len, ord, order_of, trunc_div, trunc_rem,
};
use core::cmp::Ordering;
use vstd::prelude::*;

verus! {

/// A type whose values are held in a byte array of `LEN` bytes.
pub trait ArrayWrapper<const LEN: usize>: Sized {
    /// The bytes that hold the value.
    spec fn bytes(&self) -> [u8; LEN];

    /// Whether `value` holds a value of this type.
    spec fn admits(value: [u8; LEN]) -> bool;

    fn get_array(self) -> (r: [u8; LEN])
        ensures
            r == self.bytes(),
    ;

    fn from_array_unchecked(value: [u8; LEN]) -> (r: Self)
        requires
            Self::admits(value),
        ensures
            r.bytes() == value,
    ;
}

/// Native-width arithmetic on the value held in the array, checked for overflow of
/// the native integer only.
pub trait HasFixedOps<const LEN: usize>: ArrayWrapper<LEN> {
    fn add_inner(self, rhs: Self) -> (r: Option<Self>)
        requires
            native_len(LEN),
        ensures
            r is Some <==> fits_width(
                le_signed(self.bytes()@) + le_signed(rhs.bytes()@),
                LEN as nat,
            ),
            r matches Some(s) ==> le_signed(s.bytes()@) == le_signed(self.bytes()@) + le_signed(
                rhs.bytes()@,
            ),
    ;

    fn mul_inner(self, rhs: i128) -> (r: Option<Self>)
        requires
            native_len(LEN),
        ensures
            r is Some <==> fits_width(rhs as int, LEN as nat) && fits_width(
                le_signed(self.bytes()@) * rhs,
                LEN as nat,
            ),
            r matches Some(s) ==> le_signed(s.bytes()@) == le_signed(self.bytes()@) * rhs,
    ;

    fn div_inner(self, rhs: i128) -> (r: Option<Self>)
        requires
            native_len(LEN),
        ensures
            r is Some <==> rhs != 0 && fits_width(rhs as int, LEN as nat) && fits_width(
                trunc_div(le_signed(self.bytes()@), rhs as int),
                LEN as nat,
            ),
            r matches Some(s) ==> le_signed(s.bytes()@) == trunc_div(
                le_signed(self.bytes()@),
                rhs as int,
            ),
    ;
}

/// Arithmetic whose results must also stay within the magnitude `MAX`.
pub trait HasBound<const MAX: u128, const LEN: usize>: ArrayWrapper<LEN> {
    /// Whether the type's parameters form a valid asset kind.
    spec fn kind_is_valid() -> bool;

    fn add_checked(self, rhs: Self) -> (r: Option<Self>)
        ensures
            r is Some <==> abs(le_signed(self.bytes()@) + le_signed(rhs.bytes()@)) <= MAX,
            r matches Some(s) ==> le_signed(s.bytes()@) == le_signed(self.bytes()@) + le_signed(
                rhs.bytes()@,
            ),
    ;

    fn mul_checked(self, rhs: i128) -> (r: Option<Self>)
        ensures
            r is Some <==> fits_width(rhs as int, LEN as nat) && abs(
                le_signed(self.bytes()@) * rhs,
            ) <= MAX,
            r matches Some(s) ==> le_signed(s.bytes()@) == le_signed(self.bytes()@) * rhs,
    ;

    fn div_checked(self, rhs: i128) -> (r: Option<Self>)
        ensures
            r is Some <==> rhs != 0 && fits_width(rhs as int, LEN as nat),
            r matches Some(s) ==> le_signed(s.bytes()@) == trunc_div(
                le_signed(self.bytes()@),
                rhs as int,
            ),
    ;

    fn from_raw_buffer_checked(buf: [u8; LEN]) -> (r: Option<Self>)
        requires
            Self::kind_is_valid(),
        ensures
            r is Some <==> abs(le_signed(buf@)) <= MAX,
            r matches Some(s) ==> s.bytes() == buf,
    ;
}

/// Decomposition of a fixed-point value with scale factor `POW`.
pub trait IsFixed<const LEN: usize, const MAX: u128, const POW: u128>: Sized + ArrayWrapper<
    LEN,
> {
    /// The whole part, the fraction in units of `1 / POW` (both rounded toward zero,
    /// the fraction with the sign of the value) and `POW`.
    fn to_parts(self) -> (r: (i128, i128, u128))
        ensures
            r.0 == trunc_div(le_signed(self.bytes()@), POW as int),
            r.1 == trunc_rem(le_signed(self.bytes()@), POW as int),
            r.2 == POW,
    ;

    fn is_positive(self) -> (r: bool)
        ensures
            r == (le_signed(self.bytes()@) >= 0),
    ;
}

/// `LEN` bytes holding a signed integer, little-endian.
#[derive(Debug, Clone, Copy, Eq, Hash)]
pub struct ByteArray<const LEN: usize>([u8; LEN]);

impl<const LEN: usize> PartialEq for ByteArray<LEN> {
    fn eq(&self, rhs: &Self) -> (r: bool) {
        let mut i: usize = 0;
        while i < LEN
            invariant
                i <= LEN,
                self.0@.len() == LEN,
                rhs.0@.len() == LEN,
                forall|j: int| 0 <= j < i ==> self.0@[j] == rhs.0@[j],
            decreases LEN - i,
        {
            if self.0[i] != rhs.0[i] {
                return false;
            }
            i = i + 1;
        }
        assert(self.0@ =~= rhs.0@);
        true
    }
}

impl<const LEN: usize> vstd::std_specs::cmp::PartialEqSpecImpl for ByteArray<LEN> {
    open spec fn obeys_eq_spec() -> bool {
        true
    }

    open spec fn eq_spec(&self, rhs: &Self) -> bool {
        self.bytes()@ == rhs.bytes()@
    }
}

impl<const LEN: usize> ByteArray<LEN> {
    /// The bytes of `value` in the native width, or `None` where it does not fit.
    pub fn from_int(value: i128) -> (r: Option<Self>)
        requires
            native_len(LEN),
        ensures
            r is Some <==> fits_width(value as int, LEN as nat),
            r matches Some(b) ==> le_signed(b.bytes()@) == value,
    {
        proof {
            lemma_native_bounds();
        }
        let fits = if LEN == 4 {
            i32::MIN as i128 <= value && value <= i32::MAX as i128
        } else if LEN == 8 {
            i64::MIN as i128 <= value && value <= i64::MAX as i128
        } else {
            true
        };
        if fits {
            Some(ByteArray(encode::<LEN>(value)))
        } else {
            None
        }
    }

    /// The integer held in the bytes.
    pub fn to_int(self) -> (r: i128)
        requires
            1 <= LEN <= 16,
        ensures
            r == le_signed(self.bytes()@),
    {
        decode(&self.0)
    }
}

impl<const LEN: usize> ArrayWrapper<LEN> for ByteArray<LEN> {
    closed spec fn bytes(&self) -> [u8; LEN] {
        self.0
    }

    open spec fn admits(value: [u8; LEN]) -> bool {
        true
    }

    fn get_array(self) -> (r: [u8; LEN]) {
        self.0
    }

    fn from_array_unchecked(value: [u8; LEN]) -> (r: Self) {
        ByteArray(value)
    }
}

impl<const LEN: usize> HasFixedOps<LEN> for ByteArray<LEN> {
    fn add_inner(self, rhs: Self) -> (r: Option<Self>) {
        match add_buffers(self.0, rhs.0) {
            Some(b) => Some(ByteArray(b)),
            None => None,
        }
    }

    fn mul_inner(self, rhs: i128) -> (r: Option<Self>) {
        match mul_buffer(self.0, rhs) {
            Some(b) => Some(ByteArray(b)),
            None => None,
        }
    }

    fn div_inner(self, rhs: i128) -> (r: Option<Self>) {
        match div_buffer(self.0, rhs) {
            Some(b) => Some(ByteArray(b)),
            None => None,
        }
    }
}

/// A fixed-point amount of the asset kind `(LEN, MAX, POW)`: a scaled integer `v`
/// standing for `v / POW`, with `|v| <= MAX`, held in `LEN` bytes.
#[derive(Debug, Clone, Copy, Eq, Hash)]
pub struct Fixed<const LEN: usize, const MAX: u128, const POW: u128>(ByteArray<LEN>);

impl<const LEN: usize, const MAX: u128, const POW: u128> PartialEq for Fixed<LEN, MAX, POW> {
    fn eq(&self, rhs: &Self) -> (r: bool) {
        proof {
            lemma_le_signed_injective(self.0.0@, rhs.0.0@);
        }
        self.0 == rhs.0
    }
}

impl<const LEN: usize, const MAX: u128, const POW: u128> vstd::std_specs::cmp::PartialEqSpecImpl for Fixed<LEN, MAX, POW> {
    open spec fn obeys_eq_spec() -> bool {
        true
    }

    open spec fn eq_spec(&self, rhs: &Self) -> bool {
        self.amount() == rhs.amount()
    }
}

/// A valid kind's bound fits its backing width, with room for its negation.
pub proof fn lemma_bound_fits_width(len: usize, max: u128, pow: u128, v: int)
    requires
        valid_kind(len, max, pow),
        abs(v) <= max,
    ensures
        native_len(len),
        fits_width(v, len as nat),
{
    lemma_native_bounds();
}

impl<const LEN: usize, const MAX: u128, const POW: u128> Fixed<LEN, MAX, POW> {
    #[verifier::type_invariant]
    spec fn inv(self) -> bool {
        &&& valid_kind(LEN, MAX, POW)
        &&& abs(le_signed(self.0.0@)) <= MAX
    }

    /// The amount whose scaled integer is `value * POW`, or `None` where its magnitude
    /// exceeds `MAX` (or does not fit `i128`).
    pub fn from_int(value: i128) -> (r: Option<Self>)
        requires
            valid_kind(LEN, MAX, POW),
        ensures
            r is Some <==> abs(value * POW) <= MAX,
            r matches Some(f) ==> f.amount() == value * POW,
    {
        proof {
            lemma_pow10_monotonic(digits_of(POW as nat), 38);
            lemma_pow10_max();
        }
        match value.checked_mul(POW as i128) {
            Some(scaled) => Self::from_scaled(scaled),
            None => None,
        }
    }

    /// The amount `value / 10^precision`, or `None` where `precision` exceeds the
    /// kind's digits or the scaled magnitude exceeds `MAX` (or does not fit `i128`).
    pub fn from_parts(value: i128, precision: u128) -> (r: Option<Self>)
        requires
            valid_kind(LEN, MAX, POW),
        ensures
            r is Some <==> precision <= digits_of(POW as nat) && abs(
                value * pow10((digits_of(POW as nat) - precision) as nat),
            ) <= MAX,
            r matches Some(f) ==> f.amount() == value * pow10(
                (digits_of(POW as nat) - precision) as nat,
            ),
    {
        let digits = scale_digits(POW);
        if precision > digits as u128 {
            return None;
        }
        let shift = digits - precision as u8;
        let factor = pow_10(shift);
        proof {
            lemma_pow10_monotonic(shift as nat, 38);
            lemma_pow10_max();
        }
        match value.checked_mul(factor as i128) {
            Some(scaled) => Self::from_scaled(scaled),
            None => None,
        }
    }

    /// The amount whose scaled integer is `scaled`, or `None` where `|scaled| > MAX`.
    pub fn from_scaled(scaled: i128) -> (r: Option<Self>)
        requires
            valid_kind(LEN, MAX, POW),
        ensures
            r is Some <==> abs(scaled as int) <= MAX,
            r matches Some(f) ==> f.amount() == scaled,
    {
        let within = if scaled >= 0 {
            (scaled as u128) <= MAX
        } else {
            ((-(scaled + 1)) as u128) < MAX
        };
        if !within {
            return None;
        }
        proof {
            lemma_bound_fits_width(LEN, MAX, POW, scaled as int);
        }
        let buf = encode::<LEN>(scaled);
        Some(Fixed(ByteArray(buf)))
    }

    /// Three-way comparison of two amounts of the same kind.
    pub fn compare(&self, other: &Self) -> (r: Ordering)
        ensures
            r == order_of(self.amount(), other.amount()),
    {
        proof {
            use_type_invariant(self);
        }
        ord(self.0.0, other.0.0)
    }

    /// The whole part of the amount, rounded toward zero.
    pub fn to_int(self) -> (r: i128)
        ensures
            r == trunc_div(self.amount(), POW as int),
    {
        self.to_parts().0
    }
}

impl<const LEN: usize, const MAX: u128, const POW: u128> PartialOrd for Fixed<LEN, MAX, POW> {
    fn partial_cmp(&self, rhs: &Self) -> (r: Option<Ordering>) {
        Some(self.compare(rhs))
    }
}

impl<const LEN: usize, const MAX: u128, const POW: u128> vstd::std_specs::cmp::PartialOrdSpecImpl for Fixed<LEN, MAX, POW> {
    open spec fn obeys_partial_cmp_spec() -> bool {
        true
    }

    open spec fn partial_cmp_spec(&self, rhs: &Self) -> Option<Ordering> {
        Some(order_of(self.amount(), rhs.amount()))
    }
}

impl<const LEN: usize, const MAX: u128, const POW: u128> ArrayWrapper<LEN> for Fixed<LEN, MAX, POW> {
    closed spec fn bytes(&self) -> [u8; LEN] {
        self.0.0
    }

    open spec fn admits(value: [u8; LEN]) -> bool {
        valid_kind(LEN, MAX, POW) && abs(le_signed(value@)) <= MAX
    }

    fn get_array(self) -> (r: [u8; LEN]) {
        self.0.0
    }

    fn from_array_unchecked(value: [u8; LEN]) -> (r: Self) {
        Fixed(ByteArray(value))
    }
}

impl<const LEN: usize, const MAX: u128, const POW: u128> HasBound<MAX, LEN> for Fixed<
    LEN,
    MAX,
    POW,
> {
    open spec fn kind_is_valid() -> bool {
        valid_kind(LEN, MAX, POW)
    }

    fn add_checked(self, rhs: Self) -> (r: Option<Self>) {
        proof {
            use_type_invariant(&self);
            use_type_invariant(&rhs);
            lemma_bound_fits_width(LEN, MAX, POW, 0);
            lemma_native_bounds();
        }
        let sum = match self.0.add_inner(rhs.0) {
            Some(s) => s,
            None => return None,
        };
        if buffer_is_less_or_equal(sum.0, MAX) {
            Some(Fixed(sum))
        } else {
            None
        }
    }

    fn mul_checked(self, rhs: i128) -> (r: Option<Self>) {
        proof {
            use_type_invariant(&self);
            lemma_bound_fits_width(LEN, MAX, POW, 0);
            lemma_native_bounds();
        }
        let product = match self.0.mul_inner(rhs) {
            Some(s) => s,
            None => return None,
        };
        if buffer_is_less_or_equal(product.0, MAX) {
            Some(Fixed(product))
        } else {
            None
        }
    }

    fn div_checked(self, rhs: i128) -> (r: Option<Self>) {
        proof {
            use_type_invariant(&self);
            let a = le_signed(self.0.0@);
            lemma_bound_fits_width(LEN, MAX, POW, a);
            if rhs != 0 {
                lemma_div_magnitude(a, rhs as int);
                lemma_bound_fits_width(LEN, MAX, POW, trunc_div(a, rhs as int));
            }
        }
        let quotient = match self.0.div_inner(rhs) {
            Some(s) => s,
            None => return None,
        };
        if buffer_is_less_or_equal(quotient.0, MAX) {
            Some(Fixed(quotient))
        } else {
            None
        }
    }

    fn from_raw_buffer_checked(buf: [u8; LEN]) -> (r: Option<Self>) {
        proof {
            lemma_bound_fits_width(LEN, MAX, POW, 0);
        }
        if buffer_is_less_or_equal(buf, MAX) {
            Some(Fixed(ByteArray(buf)))
        } else {
            None
        }
    }
}

/// Dividing by a nonzero integer never grows a magnitude.
pub proof fn lemma_div_magnitude(x: int, d: int)
    requires
        d != 0,
    ensures
        abs(trunc_div(x, d)) <= abs(x),
{
    if d > 0 {
        lemma_trunc_bounds(x, d);
    } else {
        lemma_trunc_bounds(x, -d);
        assert(d * -1 == -d);
        assert(x * -1 == -x);
        if x > 0 {
            assert(trunc_div(x, d) == -(x / (-d)));
            assert(trunc_div(x, -d) == x / (-d));
        } else if x < 0 {
            assert(trunc_div(x, d) == (-x) / (-d));
            assert(trunc_div(x, -d) == -((-x) / (-d)));
        }
    }
}

impl<const LEN: usize, const MAX: u128, const POW: u128> IsFixed<LEN, MAX, POW> for Fixed<
    LEN,
    MAX,
    POW,
> {
    fn to_parts(self) -> (r: (i128, i128, u128)) {
        proof {
            use_type_invariant(&self);
            lemma_bound_fits_width(LEN, MAX, POW, 0);
            lemma_pow10_positive(digits_of(POW as nat));
            lemma_pow10_monotonic(digits_of(POW as nat), 38);
            lemma_pow10_max();
        }
        buffer_to_parts(self.0.0, POW)
    }

    fn is_positive(self) -> (r: bool) {
        proof {
            use_type_invariant(&self);
            lemma_bound_fits_width(LEN, MAX, POW, 0);
        }
        buffer_is_positive(self.0.0)
    }
}

impl<const LEN: usize, const MAX: u128, const POW: u128> CheckedOps for Fixed<LEN, MAX, POW> {
    open spec fn amount(&self) -> int {
        le_signed(self.bytes()@)
    }

    open spec fn bound() -> int {
        MAX as int
    }

    open spec fn scalar_fits(k: int) -> bool {
        fits_width(k, LEN as nat)
    }

    fn add_checked(self, rhs: Self) -> (r: Option<Self>) {
        <Self as HasBound<MAX, LEN>>::add_checked(self, rhs)
    }

    fn mul_checked(self, rhs: i128) -> (r: Option<Self>) {
        <Self as HasBound<MAX, LEN>>::mul_checked(self, rhs)
    }

    fn div_checked(self, rhs: i128) -> (r: Option<Self>) {
        <Self as HasBound<MAX, LEN>>::div_checked(self, rhs)
    }

    fn is_positive(&self) -> (r: bool) {
        <Self as IsFixed<LEN, MAX, POW>>::is_positive(*self)
    }
}

} // verus!
