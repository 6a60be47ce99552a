//! Laws that relate the constructors, the arithmetic and the decomposition of
//! fixed-point amounts, stated over the integers their contracts speak of.
use crate::kind::{kind_definable, lemma_pow10_positive, pow10, valid_kind};
use crate::numeric::{abs, lemma_trunc_bounds, trunc_div, trunc_rem};
use vstd::prelude::*;

verus! {

/// Rounding toward zero undoes a multiplication by a positive factor, leaving no
/// remainder.
pub proof fn lemma_trunc_div_of_multiple(i: int, pow: int)
    requires
        pow >= 1,
    ensures
        trunc_div(i * pow, pow) == i,
        trunc_rem(i * pow, pow) == 0,
        abs(i * pow) == abs(i) * pow,
{
    if i > 0 {
        assert((i * pow) / pow == i && (i * pow) % pow == 0 && i * pow > 0) by (nonlinear_arith)
            requires
                i > 0,
                pow >= 1,
        ;
    } else if i < 0 {
        let n = -i;
        assert((n * pow) / pow == n && (n * pow) % pow == 0 && n * pow > 0) by (nonlinear_arith)
            requires
                n > 0,
                pow >= 1,
        ;
        assert(i * pow * -1 == n * pow) by (nonlinear_arith)
            requires
                n == -i,
        ;
    } else {
        assert(i * pow == 0);
    }
}

/// Round trip: for a whole number `i` with `|i|` at most the kind's bound in whole
/// units (`max / pow`), building the amount succeeds (its scaled magnitude is
/// within `max`) and its whole part is `i` again.
pub proof fn law_round_trip(len: usize, max: u128, pow: u128, i: int)
    requires
        valid_kind(len, max, pow),
        abs(i) <= max / pow,
    ensures
        abs(i * pow) <= max,
        trunc_div(i * pow, pow as int) == i,
{
    lemma_pow10_positive(crate::kind::digits_of(pow as nat));
    lemma_trunc_div_of_multiple(i, pow as int);
    let m = max as int;
    let p = pow as int;
    let a = abs(i);
    assert(a * p <= (m / p) * p) by (nonlinear_arith)
        requires
            a <= m / p,
            p >= 1,
    ;
    assert((m / p) * p <= m) by (nonlinear_arith)
        requires
            p >= 1,
            m >= 0,
    ;
}

/// Additive consistency: the whole and fractional parts of a sum recombine to the
/// sum of the operands' recombined parts, and where neither operand has a fraction
/// the whole part of the sum is the sum of the whole parts.
pub proof fn law_additive_consistency(pow: u128, a: int, b: int)
    requires
        pow >= 1,
    ensures
        pow * trunc_div(a + b, pow as int) + trunc_rem(a + b, pow as int) == (pow * trunc_div(
            a,
            pow as int,
        ) + trunc_rem(a, pow as int)) + (pow * trunc_div(b, pow as int) + trunc_rem(
            b,
            pow as int,
        )),
        trunc_rem(a, pow as int) == 0 && trunc_rem(b, pow as int) == 0 ==> trunc_div(
            a + b,
            pow as int,
        ) == trunc_div(a, pow as int) + trunc_div(b, pow as int),
{
    let p = pow as int;
    lemma_trunc_bounds(a, p);
    lemma_trunc_bounds(b, p);
    lemma_trunc_bounds(a + b, p);
    if trunc_rem(a, p) == 0 && trunc_rem(b, p) == 0 {
        let x = trunc_div(a, p);
        let y = trunc_div(b, p);
        assert(a + b == (x + y) * p) by (nonlinear_arith)
            requires
                a == p * x,
                b == p * y,
        ;
        lemma_trunc_div_of_multiple(x + y, p);
    }
}

/// Bound enforcement: in a kind defined with `digits` decimal digits and a bound of
/// `natural` whole units, the whole number `i` has a scaled magnitude within the
/// kind's scaled bound exactly where `|i| <= natural`: one unit past the bound
/// fails, the bound itself succeeds.
pub proof fn law_bound_enforcement(digits: u8, natural: u128, i: int)
    requires
        kind_definable(digits, natural),
    ensures
        (abs(i * pow10(digits as nat)) <= natural * pow10(digits as nat)) <==> abs(i) <= natural,
{
    let p = pow10(digits as nat) as int;
    lemma_pow10_positive(digits as nat);
    lemma_trunc_div_of_multiple(i, p);
    let a = abs(i);
    let n = natural as int;
    if a <= n {
        assert(a * p <= n * p) by (nonlinear_arith)
            requires
                a <= n,
                p >= 1,
        ;
    } else {
        assert(a * p > n * p) by (nonlinear_arith)
            requires
                a > n,
                p >= 1,
        ;
    }
}

} // verus!
