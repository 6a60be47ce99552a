//! Decimal text: an optional `-`, one or more digits, and optionally a `.` followed
//! by one or more digits (`"67.9"`, `"-29"`, `"0.05"`). No `+`, exponent or spaces.
use vstd::prelude::*;

verus! {

/// Whether `b` is an ASCII digit.
pub open spec fn is_digit(b: u8) -> bool {
    48 <= b <= 57
}

/// The digits of `s` read as one decimal number, the dot skipped.
pub open spec fn mantissa_of(s: Seq<u8>) -> nat
    decreases s.len(),
{
    if s.len() == 0 {
        0
    } else if s.last() == 46 {
        mantissa_of(s.drop_last())
    } else {
        (mantissa_of(s.drop_last()) * 10 + (s.last() - 48)) as nat
    }
}

/// The number of dots in `s`.
pub open spec fn dots_of(s: Seq<u8>) -> nat
    decreases s.len(),
{
    if s.len() == 0 {
        0
    } else if s.last() == 46 {
        dots_of(s.drop_last()) + 1
    } else {
        dots_of(s.drop_last())
    }
}

/// The number of digits after the dot of `s`; zero where there is none.
pub open spec fn fraction_len(s: Seq<u8>) -> nat
    decreases s.len(),
{
    if s.len() == 0 || s.last() == 46 {
        0
    } else if dots_of(s.drop_last()) > 0 {
        fraction_len(s.drop_last()) + 1
    } else {
        0
    }
}

/// Whether `s` is an unsigned decimal: digits, and at most one dot with a digit on
/// either side.
pub open spec fn unsigned_decimal(s: Seq<u8>) -> bool {
    &&& s.len() >= 1
    &&& is_digit(s[0])
    &&& is_digit(s.last())
    &&& dots_of(s) <= 1
    &&& forall|i: int| 0 <= i < s.len() ==> is_digit(#[trigger] s[i]) || s[i] == 46
}

/// Whether `s` starts with a minus sign.
pub open spec fn negative_text(s: Seq<u8>) -> bool {
    s.len() >= 1 && s[0] == 45
}

/// `s` without its minus sign.
pub open spec fn unsigned_part(s: Seq<u8>) -> Seq<u8> {
    if negative_text(s) {
        s.drop_first()
    } else {
        s
    }
}

/// Whether `s` is decimal text whose digits, read as one number, fit `i128`.
pub open spec fn decimal_text(s: Seq<u8>) -> bool {
    unsigned_decimal(unsigned_part(s)) && mantissa_of(unsigned_part(s)) <= i128::MAX
}

/// The signed number that the digits of decimal text spell, the dot skipped.
pub open spec fn decimal_mantissa(s: Seq<u8>) -> int {
    if negative_text(s) {
        -mantissa_of(unsigned_part(s))
    } else {
        mantissa_of(unsigned_part(s)) as int
    }
}

/// Reads decimal text as `(mantissa, digits after the dot)`: `"67.9"` is `(679, 1)`
/// and `"-29"` is `(-29, 0)`. `None` where the text is not decimal text or its
/// digits do not fit `i128`.
pub fn parse_decimal(text: &[u8]) -> (r: Option<(i128, u128)>)
    ensures
        r is Some <==> decimal_text(text@),
        r matches Some(p) ==> p.0 == decimal_mantissa(text@) && p.1 == fraction_len(
            unsigned_part(text@),
        ),
{
    let n = text.len();
    if n == 0 {
        return None;
    }
    let negative = text[0] == 45;
    let start: usize = if negative {
        1
    } else {
        0
    };
    let ghost body = unsigned_part(text@);
    assert(body =~= text@.subrange(start as int, n as int));
    if start >= n {
        return None;
    }
    let mut mantissa: u128 = 0;
    let mut too_big = false;
    let mut dots: usize = 0;
    let mut fraction: usize = 0;
    let mut i: usize = start;
    let top: u128 = 0x7fff_ffff_ffff_ffff_ffff_ffff_ffff_ffff;
    assert(body.subrange(0, 0) =~= Seq::<u8>::empty());
    while i < n
        invariant
            start <= i <= n,
            n == text@.len(),
            start < n,
            body == unsigned_part(text@),
            body =~= text@.subrange(start as int, n as int),
            top == i128::MAX,
            dots == dots_of(body.subrange(0, i - start)),
            fraction == fraction_len(body.subrange(0, i - start)),
            dots <= i - start,
            fraction <= i - start,
            too_big == (mantissa_of(body.subrange(0, i - start)) > top),
            !too_big ==> mantissa == mantissa_of(body.subrange(0, i - start)),
            forall|j: int| 0 <= j < i - start ==> is_digit(#[trigger] body[j]) || body[j] == 46,
        decreases n - i,
    {
        let b = text[i];
        let ghost k = i - start;
        let ghost prefix = body.subrange(0, k);
        let ghost next = body.subrange(0, k + 1);
        assert(next.drop_last() =~= prefix);
        assert(next.last() == b);
        if b == 46 {
            dots = dots + 1;
            fraction = 0;
        } else if b >= 48 && b <= 57 {
            if dots > 0 {
                fraction = fraction + 1;
            } else {
                fraction = 0;
            }
            if !too_big {
                let digit = (b - 48) as u128;
                if mantissa > (top - digit) / 10 {
                    assert(mantissa * 10 + digit > top) by (nonlinear_arith)
                        requires
                            mantissa > (top - digit) / 10,
                            digit <= top,
                    ;
                    too_big = true;
                } else {
                    assert(mantissa * 10 + digit <= top) by (nonlinear_arith)
                        requires
                            mantissa <= (top - digit) / 10,
                            digit <= top,
                    ;
                    mantissa = mantissa * 10 + digit;
                }
            }
        } else {
            assert(!(is_digit(body[k as int]) || body[k as int] == 46));
            assert(0 <= k < body.len());
            assert(!unsigned_decimal(body));
            return None;
        }
        i = i + 1;
    }
    assert(body.subrange(0, n - start) =~= body);
    let first = text[start];
    let last = text[n - 1];
    if !(first >= 48 && first <= 57 && last >= 48 && last <= 57) || too_big || dots > 1 {
        return None;
    }
    let value = mantissa as i128;
    if negative {
        Some((-value, fraction as u128))
    } else {
        Some((value, fraction as u128))
    }
}

} // verus!
