//! Signed amounts partitioned by sign: a `Credit` is at least zero, a `Debt` below
//! zero, and an `Asset` is one of the two, reclassified after every operation.
use crate::decimal::{decimal_mantissa, decimal_text, fraction_len, parse_decimal, unsigned_part};
use crate::fixed::{Fixed, IsFixed};
use crate::kind::{digits_of, pow10, valid_kind};
use crate::numeric::{abs, order_of, trunc_div, trunc_rem};
use core::cmp::Ordering;
use vstd::prelude::*;
use vstd::string::StringSliceAdditionalSpecFns;

verus! {

/// Checked arithmetic on a scaled amount, failing rather than overflowing or leaving
/// the bound of its kind.
pub trait CheckedOps: Sized {
    /// The scaled integer that the value stands for.
    spec fn amount(&self) -> int;

    /// The greatest magnitude a value of this type can hold.
    spec fn bound() -> int;

    /// Whether `k` fits the native integer that backs the type.
    spec fn scalar_fits(k: int) -> bool;

    fn add_checked(self, rhs: Self) -> (r: Option<Self>)
        ensures
            r is Some <==> abs(self.amount() + rhs.amount()) <= Self::bound(),
            r matches Some(s) ==> s.amount() == self.amount() + rhs.amount(),
    ;

    fn mul_checked(self, rhs: i128) -> (r: Option<Self>)
        ensures
            r is Some <==> Self::scalar_fits(rhs as int) && abs(self.amount() * rhs)
                <= Self::bound(),
            r matches Some(s) ==> s.amount() == self.amount() * rhs,
    ;

    fn div_checked(self, rhs: i128) -> (r: Option<Self>)
        ensures
            r is Some <==> rhs != 0 && Self::scalar_fits(rhs as int),
            r matches Some(s) ==> s.amount() == trunc_div(self.amount(), rhs as int),
    ;

    fn is_positive(&self) -> (r: bool)
        ensures
            r == (self.amount() >= 0),
    ;
}

/// Wraps an amount below zero.
///
/// `Debt(-4) + Debt(-6) = Debt(-10)`
///
/// `Debt(-4) + Credit(6) = Credit(2)`
#[derive(Debug, PartialEq, Eq, Hash)]
pub struct Debt<T: CheckedOps>(T);

/// Wraps an amount of zero or more.
///
/// `Credit(4) + Credit(6) = Credit(10)`
///
/// `Credit(6) - Debt(-6) = Credit(0)`
#[derive(Debug, PartialEq, Eq, Hash)]
pub struct Credit<T: CheckedOps>(T);

impl<T: CheckedOps + Copy> Clone for Debt<T> {
    fn clone(&self) -> (r: Self)
        ensures
            r == *self,
    {
        *self
    }
}

impl<T: CheckedOps + Copy> Copy for Debt<T> {

}

impl<T: CheckedOps + Copy> Clone for Credit<T> {
    fn clone(&self) -> (r: Self)
        ensures
            r == *self,
    {
        *self
    }
}

impl<T: CheckedOps + Copy> Copy for Credit<T> {

}

impl<T: CheckedOps + Copy> Clone for Asset<T> {
    fn clone(&self) -> (r: Self)
        ensures
            r == *self,
    {
        *self
    }
}

impl<T: CheckedOps + Copy> Copy for Asset<T> {

}

impl<T: CheckedOps> Debt<T> {
    #[verifier::type_invariant]
    spec fn inv(self) -> bool {
        self.0.amount() < 0
    }

    /// The scaled amount owed, below zero.
    pub closed spec fn value(self) -> int {
        self.0.amount()
    }
}

impl<T: CheckedOps> Credit<T> {
    #[verifier::type_invariant]
    spec fn inv(self) -> bool {
        self.0.amount() >= 0
    }

    /// The scaled amount held, zero or more.
    pub closed spec fn value(self) -> int {
        self.0.amount()
    }
}

/// Either a `Credit` or a `Debt`, chosen by the sign of the amount alone.
///
/// Amounts of one kind can be added; an amount can be multiplied or divided by an
/// integer. Each result is classified anew by its sign.
#[derive(Debug, PartialEq, Eq, Hash)]
pub enum Asset<T: CheckedOps> {
    Debt(Debt<T>),
    Credit(Credit<T>),
}

impl<T: CheckedOps> Asset<T> {
    /// The scaled amount, whichever side it stands on.
    pub open spec fn value(self) -> int {
        match self {
            Asset::Debt(d) => d.value(),
            Asset::Credit(c) => c.value(),
        }
    }

    /// Whether the variant agrees with the sign of the amount.
    pub open spec fn classified(self) -> bool {
        (self is Debt) == (self.value() < 0)
    }

    /// Returns the numeric value of the asset.
    pub fn get_inner(self) -> (r: T)
        ensures
            r.amount() == self.value(),
    {
        match self {
            Self::Debt(x) => x.0,
            Self::Credit(x) => x.0,
        }
    }

    /// Classifies `value` by its sign: a `Credit` at zero or above, a `Debt` below.
    pub fn from_inner(value: T) -> (r: Asset<T>)
        ensures
            r.value() == value.amount(),
            r.classified(),
    {
        if value.is_positive() {
            Asset::Credit(Credit(value))
        } else {
            Asset::Debt(Debt(value))
        }
    }
}

// Credit + Credit -> Credit?
impl<T: CheckedOps> core::ops::Add<Credit<T>> for Credit<T> {
    type Output = Option<Credit<T>>;

    fn add(self, rhs: Credit<T>) -> (r: Option<Credit<T>>)
        ensures
            r is Some <==> self.value() + rhs.value() <= T::bound(),
            r matches Some(c) ==> c.value() == self.value() + rhs.value() && c.value() >= 0,
    {
        proof {
            use_type_invariant(&self);
            use_type_invariant(&rhs);
        }
        match self.0.add_checked(rhs.0) {
            Some(v) => Some(Credit(v)),
            None => None,
        }
    }
}

// The result is stated by the `ensures` of `add` above, not by a spec function.
impl<T: CheckedOps> vstd::std_specs::ops::AddSpecImpl<Credit<T>> for Credit<T> {
    open spec fn obeys_add_spec() -> bool {
        false
    }

    open spec fn add_req(self, rhs: Credit<T>) -> bool {
        true
    }

    open spec fn add_spec(self, rhs: Credit<T>) -> Option<Credit<T>> {
        None
    }
}

// Debt + Debt -> Debt?
impl<T: CheckedOps> core::ops::Add<Debt<T>> for Debt<T> {
    type Output = Option<Debt<T>>;

    fn add(self, rhs: Debt<T>) -> (r: Option<Debt<T>>)
        ensures
            r is Some <==> -(self.value() + rhs.value()) <= T::bound(),
            r matches Some(d) ==> d.value() == self.value() + rhs.value() && d.value() < 0,
    {
        proof {
            use_type_invariant(&self);
            use_type_invariant(&rhs);
        }
        match self.0.add_checked(rhs.0) {
            Some(v) => Some(Debt(v)),
            None => None,
        }
    }
}

// The result is stated by the `ensures` of `add` above, not by a spec function.
impl<T: CheckedOps> vstd::std_specs::ops::AddSpecImpl<Debt<T>> for Debt<T> {
    open spec fn obeys_add_spec() -> bool {
        false
    }

    open spec fn add_req(self, rhs: Debt<T>) -> bool {
        true
    }

    open spec fn add_spec(self, rhs: Debt<T>) -> Option<Debt<T>> {
        None
    }
}

// Credit - Debt -> Asset?
impl<T: CheckedOps> core::ops::Sub<Debt<T>> for Credit<T> {
    type Output = Option<Asset<T>>;

    /// A debt is stored below zero, so taking it away adds its stored amount.
    fn sub(self, rhs: Debt<T>) -> (r: Option<Asset<T>>)
        ensures
            r is Some <==> abs(self.value() + rhs.value()) <= T::bound(),
            r matches Some(a) ==> a.value() == self.value() + rhs.value() && a.classified(),
    {
        match self.0.add_checked(rhs.0) {
            Some(v) => Some(Asset::from_inner(v)),
            None => None,
        }
    }
}

// The result is stated by the `ensures` of `sub` above, not by a spec function.
impl<T: CheckedOps> vstd::std_specs::ops::SubSpecImpl<Debt<T>> for Credit<T> {
    open spec fn obeys_sub_spec() -> bool {
        false
    }

    open spec fn sub_req(self, rhs: Debt<T>) -> bool {
        true
    }

    open spec fn sub_spec(self, rhs: Debt<T>) -> Option<Asset<T>> {
        None
    }
}

// Debt + Credit -> Asset?
impl<T: CheckedOps> core::ops::Add<Credit<T>> for Debt<T> {
    type Output = Option<Asset<T>>;

    fn add(self, rhs: Credit<T>) -> (r: Option<Asset<T>>)
        ensures
            r is Some <==> abs(self.value() + rhs.value()) <= T::bound(),
            r matches Some(a) ==> a.value() == self.value() + rhs.value() && a.classified(),
    {
        match self.0.add_checked(rhs.0) {
            Some(v) => Some(Asset::from_inner(v)),
            None => None,
        }
    }
}

// The result is stated by the `ensures` of `add` above, not by a spec function.
impl<T: CheckedOps> vstd::std_specs::ops::AddSpecImpl<Credit<T>> for Debt<T> {
    open spec fn obeys_add_spec() -> bool {
        false
    }

    open spec fn add_req(self, rhs: Credit<T>) -> bool {
        true
    }

    open spec fn add_spec(self, rhs: Credit<T>) -> Option<Asset<T>> {
        None
    }
}

// Asset + Asset -> Asset?
impl<T: CheckedOps> core::ops::Add<Asset<T>> for Asset<T> {
    type Output = Option<Asset<T>>;

    fn add(self, rhs: Asset<T>) -> (r: Option<Asset<T>>)
        ensures
            r is Some <==> abs(self.value() + rhs.value()) <= T::bound(),
            r matches Some(a) ==> a.value() == self.value() + rhs.value() && a.classified(),
    {
        let lhs = self.get_inner();
        let rhs = rhs.get_inner();
        match lhs.add_checked(rhs) {
            Some(v) => Some(Asset::from_inner(v)),
            None => None,
        }
    }
}

// The result is stated by the `ensures` of `add` above, not by a spec function.
impl<T: CheckedOps> vstd::std_specs::ops::AddSpecImpl<Asset<T>> for Asset<T> {
    open spec fn obeys_add_spec() -> bool {
        false
    }

    open spec fn add_req(self, rhs: Asset<T>) -> bool {
        true
    }

    open spec fn add_spec(self, rhs: Asset<T>) -> Option<Asset<T>> {
        None
    }
}

// Asset * i128 -> Asset?
impl<T: CheckedOps> core::ops::Mul<i128> for Asset<T> {
    type Output = Option<Asset<T>>;

    fn mul(self, rhs: i128) -> (r: Option<Asset<T>>)
        ensures
            r is Some <==> T::scalar_fits(rhs as int) && abs(self.value() * rhs) <= T::bound(),
            r matches Some(a) ==> a.value() == self.value() * rhs && a.classified(),
    {
        let lhs = self.get_inner();
        match lhs.mul_checked(rhs) {
            Some(v) => Some(Asset::from_inner(v)),
            None => None,
        }
    }
}

// The result is stated by the `ensures` of `mul` above, not by a spec function.
impl<T: CheckedOps> vstd::std_specs::ops::MulSpecImpl<i128> for Asset<T> {
    open spec fn obeys_mul_spec() -> bool {
        false
    }

    open spec fn mul_req(self, rhs: i128) -> bool {
        true
    }

    open spec fn mul_spec(self, rhs: i128) -> Option<Asset<T>> {
        None
    }
}

// Asset / i128 -> Asset?
impl<T: CheckedOps> core::ops::Div<i128> for Asset<T> {
    type Output = Option<Asset<T>>;

    fn div(self, rhs: i128) -> (r: Option<Asset<T>>)
        ensures
            r is Some <==> rhs != 0 && T::scalar_fits(rhs as int),
            r matches Some(a) ==> a.value() == trunc_div(self.value(), rhs as int)
                && a.classified(),
    {
        let lhs = self.get_inner();
        match lhs.div_checked(rhs) {
            Some(v) => Some(Asset::from_inner(v)),
            None => None,
        }
    }
}

// The result is stated by the `ensures` of `div` above, not by a spec function.
impl<T: CheckedOps> vstd::std_specs::ops::DivSpecImpl<i128> for Asset<T> {
    open spec fn obeys_div_spec() -> bool {
        false
    }

    open spec fn div_req(self, rhs: i128) -> bool {
        true
    }

    open spec fn div_spec(self, rhs: i128) -> Option<Asset<T>> {
        None
    }
}

impl<const LEN: usize, const MAX: u128, const POW: u128> Asset<Fixed<LEN, MAX, POW>> {
    /// The asset worth the whole number `val`: `None` where `|val * POW|` exceeds
    /// `MAX`, else a `Debt` for `val < 0` and a `Credit` otherwise.
    pub fn new(val: i128) -> (r: Option<Self>)
        requires
            valid_kind(LEN, MAX, POW),
        ensures
            r is Some <==> abs(val * POW) <= MAX,
            r matches Some(a) ==> a.value() == val * POW && a.classified() && (a is Debt <==> val
                < 0),
    {
        match Fixed::<LEN, MAX, POW>::from_int(val) {
            Some(f) => {
                proof {
                    crate::kind::lemma_pow10_positive(digits_of(POW as nat));
                    lemma_sign_of_product(val as int, POW as int);
                }
                Some(Asset::from_inner(f))
            },
            None => None,
        }
    }

    /// The asset worth `value / 10^precision`, e.g. `(679, 1)` is 67.9: `None` where
    /// `precision` exceeds the kind's digits or the scaled magnitude exceeds `MAX`.
    pub fn from_parts(value: i128, precision: u128) -> (r: Option<Self>)
        requires
            valid_kind(LEN, MAX, POW),
        ensures
            r is Some <==> precision <= digits_of(POW as nat) && abs(
                value * pow10((digits_of(POW as nat) - precision) as nat),
            ) <= MAX,
            r matches Some(a) ==> a.value() == value * pow10(
                (digits_of(POW as nat) - precision) as nat,
            ) && a.classified() && (a is Debt <==> value < 0),
    {
        match Fixed::<LEN, MAX, POW>::from_parts(value, precision) {
            Some(f) => {
                proof {
                    crate::kind::lemma_pow10_positive((digits_of(POW as nat) - precision) as nat);
                    lemma_sign_of_product(value as int, pow10((digits_of(POW as nat) - precision) as nat) as int);
                }
                Some(Asset::from_inner(f))
            },
            None => None,
        }
    }

    /// The asset written as decimal text (`"67.9"`, `"-29"`): `None` where the text
    /// is not decimal text, has more fraction digits than the kind, or stands for a
    /// magnitude beyond `MAX`.
    pub fn from_decimal_str(text: &str) -> (r: Option<Self>)
        requires
            valid_kind(LEN, MAX, POW),
        ensures
            r is Some <==> text_fits_kind(text.spec_bytes(), digits_of(POW as nat)) && abs(
                text_scaled(text.spec_bytes(), digits_of(POW as nat)),
            ) <= MAX,
            r matches Some(a) ==> a.value() == text_scaled(text.spec_bytes(), digits_of(POW as nat))
                && a.classified(),
    {
        match parse_decimal(text.as_bytes()) {
            Some((mantissa, precision)) => Self::from_parts(mantissa, precision),
            None => None,
        }
    }

    /// Three-way comparison of two assets of the same kind by amount.
    pub fn compare(&self, other: &Self) -> (r: Ordering)
        ensures
            r == order_of(self.value(), other.value()),
    {
        self.get_inner().compare(&other.get_inner())
    }

    /// The whole part, the fraction in units of `1 / POW` (both rounded toward zero,
    /// the fraction with the sign of the amount) and `POW`.
    pub fn to_parts(self) -> (r: (i128, i128, u128))
        ensures
            r.0 == trunc_div(self.value(), POW as int),
            r.1 == trunc_rem(self.value(), POW as int),
            r.2 == POW,
    {
        self.get_inner().to_parts()
    }

    /// The whole part of the amount, rounded toward zero.
    pub fn to_int(self) -> (r: i128)
        ensures
            r == trunc_div(self.value(), POW as int),
    {
        self.to_parts().0
    }
}

impl<const LEN: usize, const MAX: u128, const POW: u128> PartialOrd for Asset<Fixed<LEN, MAX, POW>> {
    fn partial_cmp(&self, rhs: &Self) -> (r: Option<Ordering>) {
        Some(self.compare(rhs))
    }
}

impl<const LEN: usize, const MAX: u128, const POW: u128> vstd::std_specs::cmp::PartialOrdSpecImpl for Asset<Fixed<LEN, MAX, POW>> {
    open spec fn obeys_partial_cmp_spec() -> bool {
        true
    }

    open spec fn partial_cmp_spec(&self, rhs: &Self) -> Option<Ordering> {
        Some(order_of(self.value(), rhs.value()))
    }
}

/// Whether `s` is decimal text with at most `digits` digits after its dot.
pub open spec fn text_fits_kind(s: Seq<u8>, digits: nat) -> bool {
    decimal_text(s) && fraction_len(unsigned_part(s)) <= digits
}

/// The scaled integer that decimal text `s` stands for in a kind of `digits` digits.
pub open spec fn text_scaled(s: Seq<u8>, digits: nat) -> int {
    decimal_mantissa(s) * pow10((digits - fraction_len(unsigned_part(s))) as nat)
}

/// A product with a positive factor has the sign of the other factor.
proof fn lemma_sign_of_product(x: int, k: int)
    requires
        k >= 1,
    ensures
        (x * k < 0) == (x < 0),
{
    if x < 0 {
        assert(x * k < 0) by (nonlinear_arith)
            requires
                x < 0,
                k >= 1,
        ;
    } else {
        assert(x * k >= 0) by (nonlinear_arith)
            requires
                x >= 0,
                k >= 1,
        ;
    }
}

} // verus!
