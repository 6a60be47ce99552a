//! Derivation of an asset kind's parameters: the decimal scale factor, the
//! greatest scaled magnitude and the backing width.
use vstd::prelude::*;

verus! {

/// `10^n`.
pub open spec fn pow10(n: nat) -> nat
    decreases n,
{
    if n == 0 {
        1
    } else {
        10 * pow10((n - 1) as nat)
    }
}

/// The number of decimal digits that a scale factor stands for: `log10(pow)`, rounded down.
pub open spec fn digits_of(pow: nat) -> nat
    decreases pow,
{
    if pow < 10 {
        0
    } else {
        1 + digits_of(pow / 10)
    }
}

/// Bytes of the narrowest signed integer that holds `max_value`.
pub open spec fn inner_len(max_value: int) -> usize {
    if max_value <= 0x7fff_ffff {
        4
    } else if max_value <= 0x7fff_ffff_ffff_ffff {
        8
    } else {
        16
    }
}

/// Whether an asset kind with `digits` decimal digits and magnitudes up to
/// `max_natural` whole units can be defined.
pub open spec fn kind_definable(digits: u8, max_natural: u128) -> bool {
    &&& digits <= 38
    &&& (max_natural == 0 || (i128::MAX as int) / (max_natural as int) > pow10(digits as nat))
}

/// Whether `(LEN, MAX, POW)` are consistent parameters of a fixed-point type: `POW`
/// is a power of ten of at most 38 digits, `MAX` a scaled bound that fits `i128`,
/// and `LEN` the narrowest width that holds `MAX`.
pub open spec fn valid_kind(len: usize, max: u128, pow: u128) -> bool {
    &&& digits_of(pow as nat) <= 38
    &&& pow10(digits_of(pow as nat)) == pow
    &&& max <= i128::MAX
    &&& len == inner_len(max as int)
}

pub proof fn lemma_pow10_positive(n: nat)
    ensures
        pow10(n) >= 1,
    decreases n,
{
    if n > 0 {
        lemma_pow10_positive((n - 1) as nat);
    }
}

pub proof fn lemma_pow10_monotonic(m: nat, n: nat)
    requires
        m <= n,
    ensures
        pow10(m) <= pow10(n),
    decreases n,
{
    if m < n {
        lemma_pow10_monotonic(m, (n - 1) as nat);
        lemma_pow10_positive((n - 1) as nat);
    }
}

pub proof fn lemma_pow10_max()
    ensures
        pow10(38) == 100_000_000_000_000_000_000_000_000_000_000_000_000,
{
    reveal_with_fuel(pow10, 39);
}

/// `10^d` has `d` digits after its leading one.
pub proof fn lemma_digits_of_pow10(d: nat)
    ensures
        digits_of(pow10(d)) == d,
    decreases d,
{
    if d > 0 {
        lemma_digits_of_pow10((d - 1) as nat);
        lemma_pow10_positive((d - 1) as nat);
        assert(pow10(d) / 10 == pow10((d - 1) as nat));
    }
}

/// Returns `10^exp`, computed exactly on integers.
pub fn pow_10(exp: u8) -> (r: u128)
    requires
        exp <= 38,
    ensures
        r == pow10(exp as nat),
{
    proof {
        reveal_with_fuel(pow10, 2);
    }
    let mut x: u128 = 10;
    let mut i: u8 = 0;
    if exp == 0 {
        return 1;
    } else if exp == 1 {
        return 10;
    }
    while i < exp - 1
        invariant
            2 <= exp <= 38,
            i <= exp - 1,
            x == pow10((i + 1) as nat),
        decreases exp - 1 - i,
    {
        proof {
            lemma_pow10_monotonic((i + 2) as nat, 38);
            lemma_pow10_max();
        }
        x = x * 10;
        i = i + 1;
    }
    x
}

/// Returns the number of bytes of the narrowest signed integer (32, 64 or 128 bits)
/// that holds `max_value`.
pub fn get_inner_len(max_value: i128) -> (r: usize)
    requires
        max_value >= 0,
    ensures
        r == inner_len(max_value as int),
{
    let m = max_value as u128;
    if m <= 2147483647 {
        4
    } else if m <= 9223372036854775807 {
        8
    } else {
        16
    }
}

/// A number below `10^(n + 1)` has at most `n` digits after its leading one.
pub proof fn lemma_digits_bound(p: nat, n: nat)
    requires
        p < pow10(n + 1),
    ensures
        digits_of(p) <= n,
    decreases n,
{
    if p >= 10 {
        if n == 0 {
            assert(pow10(1) == 10) by {
                reveal_with_fuel(pow10, 2);
            }
        } else {
            assert(pow10(n + 1) == 10 * pow10(n));
            assert(p / 10 < pow10(n));
            lemma_digits_bound(p / 10, (n - 1) as nat);
        }
    }
}

/// Every `u128` has at most 38 digits after its leading one.
pub proof fn lemma_u128_digits(p: u128)
    ensures
        digits_of(p as nat) <= 38,
{
    lemma_pow10_max();
    assert(pow10(39) == 10 * pow10(38));
    lemma_digits_bound(p as nat, 38);
}

/// Returns the number of decimal digits of a scale factor, `log10(pow)` rounded down.
pub fn scale_digits(pow: u128) -> (r: u8)
    ensures
        r == digits_of(pow as nat),
{
    proof {
        lemma_u128_digits(pow);
    }
    let mut p: u128 = pow;
    let mut n: u8 = 0;
    while p >= 10
        invariant
            n + digits_of(p as nat) == digits_of(pow as nat),
            digits_of(pow as nat) <= 38,
        decreases p,
    {
        p = p / 10;
        n = n + 1;
    }
    n
}

/// Whether `(len, max, pow)` are consistent parameters of a fixed-point type.
pub fn kind_is_valid(len: usize, max: u128, pow: u128) -> (r: bool)
    ensures
        r == valid_kind(len, max, pow),
{
    let digits = scale_digits(pow);
    proof {
        lemma_u128_digits(pow);
    }
    if pow_10(digits) != pow {
        return false;
    }
    if max > 0x7fff_ffff_ffff_ffff_ffff_ffff_ffff_ffff {
        return false;
    }
    len == get_inner_len(max as i128)
}

/// The parameters of an asset kind, derived once from its declared precision and bound.
#[derive(Debug, Clone, Copy, PartialEq, Eq, Structural)]
pub struct AssetKind {
    /// Decimal digits of precision.
    pub digits: u8,
    /// The scale factor `10^digits`.
    pub pow: u128,
    /// The greatest magnitude in scaled units: whole-unit bound times `pow`.
    pub max_scaled: u128,
    /// Bytes of the backing integer: 4, 8 or 16.
    pub len: usize,
}

impl AssetKind {
    /// Derives the parameters of a kind with `digits` decimal digits and magnitudes
    /// up to `max_natural` whole units, or `None` where such a kind is
    /// misconfigured (too many digits, or a scaled bound beyond `i128`).
    pub fn define(digits: u8, max_natural: u128) -> (r: Option<AssetKind>)
        ensures
            r is Some <==> kind_definable(digits, max_natural),
            r matches Some(k) ==> {
                &&& k.digits == digits
                &&& k.pow == pow10(digits as nat)
                &&& k.max_scaled == max_natural * pow10(digits as nat)
                &&& k.len == inner_len(k.max_scaled as int)
                &&& valid_kind(k.len, k.max_scaled, k.pow)
            },
    {
        if digits > 38 {
            return None;
        }
        let pow = pow_10(digits);
        let top: u128 = 0x7fff_ffff_ffff_ffff_ffff_ffff_ffff_ffff;
        if max_natural != 0 && top / max_natural <= pow {
            return None;
        }
        proof {
            lemma_digits_of_pow10(digits as nat);
            if max_natural != 0 {
                let q = top / max_natural;
                assert(max_natural * pow <= max_natural * q) by (nonlinear_arith)
                    requires
                        pow < q,
                ;
                assert(max_natural * q <= top) by (nonlinear_arith)
                    requires
                        q == top / max_natural,
                        max_natural > 0,
                ;
            }
        }
        let max_scaled = max_natural * pow;
        let len = get_inner_len(max_scaled as i128);
        Some(AssetKind { digits, pow, max_scaled, len })
    }
}

} // verus!
