//! Little-endian two's-complement encoding of signed integers into byte arrays.
//!
//! A fixed-point value is stored in the fewest bytes its asset kind needs; these
//! functions are the only place where bytes turn into integers and back.
use vstd::prelude::*;

verus! {

/// `256^n`.
pub open spec fn pow256(n: nat) -> nat
    decreases n,
{
    if n == 0 {
        1
    } else {
        256 * pow256((n - 1) as nat)
    }
}

/// The unsigned integer whose little-endian bytes are `s`.
pub open spec fn le_unsigned(s: Seq<u8>) -> nat
    decreases s.len(),
{
    if s.len() == 0 {
        0
    } else {
        (le_unsigned(s.drop_last()) + pow256((s.len() - 1) as nat) * s.last()) as nat
    }
}

/// Half of the unsigned range of `len` bytes: `2^(8 * len - 1)`.
pub open spec fn half_range(len: nat) -> nat {
    pow256(len) / 2
}

/// The signed (two's-complement) integer whose little-endian bytes are `s`.
pub open spec fn le_signed(s: Seq<u8>) -> int {
    if le_unsigned(s) >= half_range(s.len()) {
        le_unsigned(s) - pow256(s.len())
    } else {
        le_unsigned(s) as int
    }
}

/// The least signed integer of `len` bytes.
pub open spec fn native_min(len: nat) -> int {
    -(half_range(len) as int)
}

/// The greatest signed integer of `len` bytes.
pub open spec fn native_max(len: nat) -> int {
    half_range(len) - 1
}

/// Whether `v` is a signed integer of `len` bytes.
pub open spec fn fits_width(v: int, len: nat) -> bool {
    native_min(len) <= v <= native_max(len)
}

pub proof fn lemma_pow256_positive(n: nat)
    ensures
        pow256(n) >= 1,
    decreases n,
{
    if n > 0 {
        lemma_pow256_positive((n - 1) as nat);
    }
}

pub proof fn lemma_pow256_monotonic(m: nat, n: nat)
    requires
        m <= n,
    ensures
        pow256(m) <= pow256(n),
    decreases n,
{
    if m < n {
        lemma_pow256_monotonic(m, (n - 1) as nat);
        lemma_pow256_positive((n - 1) as nat);
    }
}

/// The widths that back a fixed-point value, as exact numbers.
pub proof fn lemma_pow256_widths()
    ensures
        pow256(3) == 0x100_0000,
        pow256(4) == 0x1_0000_0000,
        pow256(7) == 0x100_0000_0000_0000,
        pow256(8) == 0x1_0000_0000_0000_0000,
        pow256(15) == 0x100_0000_0000_0000_0000_0000_0000_0000,
        pow256(16) == 0x1_0000_0000_0000_0000_0000_0000_0000_0000,
{
    reveal_with_fuel(pow256, 17);
}

/// For one byte or more, half the range is `128 * 256^(len - 1)`.
pub proof fn lemma_half_range(len: nat)
    requires
        len >= 1,
    ensures
        half_range(len) == 128 * pow256((len - 1) as nat),
        pow256(len) == 2 * half_range(len),
{
}

/// Native bounds of the three backing widths.
pub proof fn lemma_native_bounds()
    ensures
        native_min(4) == i32::MIN,
        native_max(4) == i32::MAX,
        native_min(8) == i64::MIN,
        native_max(8) == i64::MAX,
        native_min(16) == i128::MIN,
        native_max(16) == i128::MAX,
{
    lemma_pow256_widths();
    lemma_half_range(4);
    lemma_half_range(8);
    lemma_half_range(16);
}

pub proof fn lemma_le_unsigned_bound(s: Seq<u8>)
    ensures
        le_unsigned(s) < pow256(s.len()),
    decreases s.len(),
{
    if s.len() > 0 {
        let d = s.drop_last();
        let p = pow256(d.len());
        lemma_le_unsigned_bound(d);
        let b = s.last();
        assert(p * b <= p * 255) by (nonlinear_arith)
            requires
                b <= 255,
        ;
    }
}

/// The signed value of a byte sequence lies within its native range.
pub proof fn lemma_le_signed_fits(s: Seq<u8>)
    requires
        s.len() >= 1,
    ensures
        fits_width(le_signed(s), s.len()),
{
    lemma_le_unsigned_bound(s);
    lemma_half_range(s.len());
}

/// Two byte sequences of one length hold the same value only where they are equal.
pub proof fn lemma_le_signed_injective(s: Seq<u8>, t: Seq<u8>)
    requires
        s.len() == t.len(),
    ensures
        (le_signed(s) == le_signed(t)) == (s == t),
{
    if le_signed(s) == le_signed(t) {
        lemma_le_unsigned_bound(s);
        lemma_le_unsigned_bound(t);
        lemma_le_unsigned_injective(s, t);
    }
}

proof fn lemma_le_unsigned_injective(s: Seq<u8>, t: Seq<u8>)
    requires
        s.len() == t.len(),
        le_unsigned(s) == le_unsigned(t),
    ensures
        s == t,
    decreases s.len(),
{
    if s.len() > 0 {
        let ds = s.drop_last();
        let dt = t.drop_last();
        let p = pow256(ds.len());
        lemma_le_unsigned_bound(ds);
        lemma_le_unsigned_bound(dt);
        let a = s.last();
        let b = t.last();
        let x = le_unsigned(ds);
        let y = le_unsigned(dt);
        assert(a == b && x == y) by (nonlinear_arith)
            requires
                x + p * a == y + p * b,
                0 <= x < p,
                0 <= y < p,
                0 <= a,
                0 <= b,
        ;
        lemma_le_unsigned_injective(ds, dt);
        assert(s =~= ds.push(a));
        assert(t =~= dt.push(b));
    } else {
        assert(s =~= t);
    }
}

/// A byte sequence holds a negative value exactly where its last byte has its top bit set.
pub proof fn lemma_sign_byte(s: Seq<u8>)
    requires
        s.len() >= 1,
    ensures
        (le_signed(s) < 0) == (s.last() >= 128),
{
    let d = s.drop_last();
    let p = pow256(d.len());
    let b = s.last();
    lemma_le_unsigned_bound(d);
    lemma_le_unsigned_bound(s);
    lemma_half_range(s.len());
    if b >= 128 {
        assert(p * b >= p * 128) by (nonlinear_arith)
            requires
                b >= 128,
        ;
    } else {
        assert(p * b <= p * 127) by (nonlinear_arith)
            requires
                b <= 127,
        ;
    }
}

/// Extending a prefix by one byte adds that byte at its place value.
proof fn lemma_le_prefix_step(s: Seq<u8>, i: int)
    requires
        0 <= i < s.len(),
    ensures
        le_unsigned(s.subrange(0, i + 1)) == le_unsigned(s.subrange(0, i)) + pow256(i as nat)
            * s[i],
{
    assert(s.subrange(0, i + 1).drop_last() =~= s.subrange(0, i));
}

/// `256^n` computed for a byte count below sixteen.
fn byte_scale(n: usize) -> (r: u128)
    requires
        n <= 15,
    ensures
        r == pow256(n as nat),
{
    let mut r: u128 = 1;
    let mut i: usize = 0;
    while i < n
        invariant
            i <= n <= 15,
            r == pow256(i as nat),
        decreases n - i,
    {
        proof {
            lemma_pow256_monotonic((i + 1) as nat, 15);
            lemma_pow256_widths();
        }
        r = r * 256;
        i = i + 1;
    }
    r
}

/// Reads the signed integer stored little-endian in `buf`.
pub fn decode<const LEN: usize>(buf: &[u8; LEN]) -> (v: i128)
    requires
        1 <= LEN <= 16,
    ensures
        v == le_signed(buf@),
        fits_width(v as int, LEN as nat),
{
    let mut acc: u128 = 0;
    let mut i: usize = 0;
    while i < LEN
        invariant
            1 <= LEN <= 16,
            i <= LEN,
            buf@.len() == LEN,
            acc == le_unsigned(buf@.subrange(0, i as int)),
        decreases LEN - i,
    {
        let scale = byte_scale(i);
        proof {
            let pre = buf@.subrange(0, i as int);
            lemma_le_unsigned_bound(pre);
            assert(pre.len() == i);
            lemma_le_prefix_step(buf@, i as int);
            lemma_pow256_monotonic((i + 1) as nat, 16);
            lemma_pow256_widths();
            let b = buf@[i as int];
            let p = pow256(i as nat);
            assert(p * b <= p * 255) by (nonlinear_arith)
                requires
                    b <= 255,
            ;
        }
        acc = acc + scale * (buf[i] as u128);
        i = i + 1;
    }
    assert(buf@.subrange(0, LEN as int) =~= buf@);
    proof {
        lemma_half_range(LEN as nat);
        lemma_le_unsigned_bound(buf@);
        lemma_le_signed_fits(buf@);
        lemma_pow256_monotonic((LEN - 1) as nat, 15);
        lemma_pow256_widths();
    }
    let half: u128 = byte_scale(LEN - 1) * 128;
    if acc >= half {
        ((acc - half) as i128) - ((half - 1) as i128) - 1
    } else {
        acc as i128
    }
}

/// Writes `v` little-endian in `LEN` bytes.
pub fn encode<const LEN: usize>(v: i128) -> (buf: [u8; LEN])
    requires
        1 <= LEN <= 16,
        fits_width(v as int, LEN as nat),
    ensures
        le_signed(buf@) == v,
{
    proof {
        lemma_half_range(LEN as nat);
        lemma_pow256_monotonic((LEN - 1) as nat, 15);
        lemma_pow256_widths();
    }
    let half: u128 = byte_scale(LEN - 1) * 128;
    let unsigned: u128 = if v >= 0 {
        v as u128
    } else {
        let w = (-(v + 1)) as u128;
        (half - 1 - w) + half
    };
    assert(unsigned < pow256(LEN as nat));
    assert(v >= 0 ==> unsigned == v);
    assert(v < 0 ==> unsigned == pow256(LEN as nat) + v);
    let mut buf = [0u8; LEN];
    let mut rest: u128 = unsigned;
    let mut i: usize = 0;
    assert(le_unsigned(buf@.subrange(0, 0)) == 0);
    assert(pow256(0) == 1);
    while i < LEN
        invariant
            1 <= LEN <= 16,
            i <= LEN,
            buf@.len() == LEN,
            unsigned == le_unsigned(buf@.subrange(0, i as int)) + pow256(i as nat) * rest,
        decreases LEN - i,
    {
        let ghost before = buf@;
        let byte = (rest % 256) as u8;
        let next = rest / 256;
        buf[i] = byte;
        proof {
            assert(buf@.subrange(0, i as int) =~= before.subrange(0, i as int));
            lemma_le_prefix_step(buf@, i as int);
            let p = pow256(i as nat);
            assert(p * rest == p * byte + (256 * p) * next) by (nonlinear_arith)
                requires
                    rest == 256 * next + byte,
            ;
        }
        rest = next;
        i = i + 1;
    }
    proof {
        assert(buf@.subrange(0, LEN as int) =~= buf@);
        lemma_le_unsigned_bound(buf@);
        let p = pow256(LEN as nat);
        if rest > 0 {
            assert(p * rest >= p) by (nonlinear_arith)
                requires
                    rest >= 1,
            ;
        }
    }
    buf
}

} // verus!
