//! Bound derivation: the smallest and largest raw value of a format, and the
//! format that each operator gives its result.
//!
//! A format is a signedness and a bit-width `bits`. Everything here is stated
//! over mathematical integers, so it holds for every raw container at once.
use vstd::arithmetic::div_mod::{
    lemma_basic_div,
    lemma_div_is_ordered,
    lemma_div_is_ordered_by_denominator,
    lemma_div_pos_is_pos,
    lemma_fundamental_div_mod,
    lemma_fundamental_div_mod_converse,
    lemma_mod_bound,
    lemma_multiply_divide_le,
    lemma_multiply_divide_lt,
};
use vstd::arithmetic::power2::{
    lemma2_to64,
    lemma2_to64_rest,
    lemma_pow2_adds,
    lemma_pow2_pos,
    lemma_pow2_strictly_increases,
    lemma_pow2_unfold,
    pow2,
};
use vstd::prelude::*;

verus! {

/// The smallest raw value of a format: `-2^(bits-1)` for a signed format of at
/// least one bit, and 0 otherwise.
pub open spec fn min_raw(signed: bool, bits: nat) -> int {
    if signed && bits > 0 {
        -(pow2((bits - 1) as nat) as int)
    } else {
        0
    }
}

/// The largest raw value of a format: `2^(bits-1) - 1` for a signed format of at
/// least one bit, `2^bits - 1` for an unsigned one, and 0 for no bits at all.
pub open spec fn max_raw(signed: bool, bits: nat) -> int {
    if bits == 0 {
        0
    } else if signed {
        pow2((bits - 1) as nat) - 1
    } else {
        pow2(bits) - 1
    }
}

/// Whether `raw` is a raw value of the format.
pub open spec fn in_range(signed: bool, bits: nat, raw: int) -> bool {
    min_raw(signed, bits) <= raw <= max_raw(signed, bits)
}

/// The larger of two bit-widths.
pub open spec fn wider(b0: nat, b1: nat) -> nat {
    if b0 > b1 {
        b0
    } else {
        b1
    }
}

/// Bit-width of a sum or a difference: one more than the wider operand.
pub open spec fn sum_bits(b0: nat, b1: nat) -> nat {
    wider(b0, b1) + 1
}

/// Bit-width of a product: the operands' widths added.
pub open spec fn product_bits(b0: nat, b1: nat) -> nat {
    b0 + b1
}

/// Bit-width of a quotient: the dividend's width, and one bit more where the
/// result is signed.
pub open spec fn quotient_bits(b0: nat, signed: bool) -> nat {
    if signed {
        b0 + 1
    } else {
        b0
    }
}

/// Division that rounds toward zero, as the machine divides: the quotient of
/// the magnitudes, with the sign of the exact quotient.
pub open spec fn trunc_div(a: int, b: int) -> int {
    if b > 0 {
        if a >= 0 {
            a / b
        } else {
            -((-a) / b)
        }
    } else {
        if a >= 0 {
            -(a / (-b))
        } else {
            (-a) / (-b)
        }
    }
}

/// The number of bits that it takes to write `n`: the least `k` with
/// `n < 2^k`.
pub open spec fn bit_length(n: nat) -> nat
    decreases n,
{
    if n == 0 {
        0
    } else {
        1 + bit_length(n / 2)
    }
}

/// Bit-width of the product of a number of `bits` bits and the constant `val`.
/// A positive constant adds the least `k` with `val <= 2^k`, a negative one the
/// least `k` with `-val < 2^k`; the product with 0 has no bits.
pub open spec fn mul_const_bits(bits: nat, val: int) -> nat {
    if val == 0 {
        0
    } else if val < 0 {
        bits + bit_length((-val) as nat)
    } else {
        bits + bit_length((val - 1) as nat)
    }
}

/// Bit-width of the quotient of a number of `bits` bits by the constant `val`,
/// which is not 0: one bit more than `bits`, less the bits that it takes to
/// write `val`, or `-val - 1` where `val` is negative. Where this is negative,
/// there is no such quotient format.
pub open spec fn div_const_bits(bits: nat, val: int) -> int {
    if val < 0 {
        1 + bits - bit_length((-val - 1) as nat)
    } else {
        1 + bits - bit_length(val as nat)
    }
}

/// Whether every number of a format has a magnitude below `2^max_exp`, so
/// that a binary floating-point format whose largest exponent is `max_exp`
/// holds each of them as a finite value. The magnitude of a raw value is at
/// most `2^bits`, and at most `2^(bits-1)` where the format is signed; the
/// shift divides it by `2^shift`.
pub open spec fn magnitude_below(signed: bool, bits: nat, shift: int, max_exp: int) -> bool {
    bits - shift - (if signed {
        1int
    } else {
        0int
    }) <= max_exp
}

/// The value that lies nearest to `v` between `lo` and `hi`.
pub open spec fn clamp(v: int, lo: int, hi: int) -> int {
    if v < lo {
        lo
    } else if v > hi {
        hi
    } else {
        v
    }
}

/// Every format holds 0, and its bounds lie on either side of it.
pub proof fn lemma_zero_in_range(signed: bool, bits: nat)
    ensures
        min_raw(signed, bits) <= 0 <= max_raw(signed, bits),
        bits == 0 ==> min_raw(signed, bits) == 0 && max_raw(signed, bits) == 0,
        !signed ==> min_raw(signed, bits) == 0,
{
    lemma_pow2_pos(bits);
    if bits > 0 {
        lemma_pow2_pos((bits - 1) as nat);
    }
}

/// A raw value of a format is a raw value of every wider format of the same
/// signedness.
pub proof fn lemma_range_widens(signed: bool, b0: nat, b1: nat, raw: int)
    requires
        b0 <= b1,
        in_range(signed, b0, raw),
    ensures
        in_range(signed, b1, raw),
{
    lemma_zero_in_range(signed, b0);
    lemma_zero_in_range(signed, b1);
    if b0 < b1 {
        lemma_pow2_strictly_increases(b0, b1);
        if b0 > 0 {
            lemma_pow2_strictly_increases((b0 - 1) as nat, (b1 - 1) as nat);
        }
    }
}

/// Addition stays in range: the sum of two raw values of one signedness is a
/// raw value of the format one bit wider than the wider operand.
pub proof fn lemma_add_closed(signed: bool, b0: nat, b1: nat, x: int, y: int)
    requires
        in_range(signed, b0, x),
        in_range(signed, b1, y),
    ensures
        in_range(signed, sum_bits(b0, b1), x + y),
{
    let b = wider(b0, b1);
    lemma_range_widens(signed, b0, b, x);
    lemma_range_widens(signed, b1, b, y);
    lemma_pow2_unfold(b + 1);
    lemma_pow2_pos(b);
    if b > 0 {
        lemma_pow2_unfold(b);
    }
}

/// Subtraction stays in range: the difference of two raw values of one
/// signedness is a raw value of the signed format one bit wider than the wider
/// operand.
pub proof fn lemma_sub_closed(signed: bool, b0: nat, b1: nat, x: int, y: int)
    requires
        in_range(signed, b0, x),
        in_range(signed, b1, y),
    ensures
        in_range(true, sum_bits(b0, b1), x - y),
{
    let b = wider(b0, b1);
    lemma_range_widens(signed, b0, b, x);
    lemma_range_widens(signed, b1, b, y);
    lemma_pow2_pos(b);
    if b > 0 {
        lemma_pow2_unfold(b);
    }
}

/// Negation stays in range: the negative of a raw value is a raw value of the
/// signed format one bit wider.
pub proof fn lemma_neg_closed(signed: bool, bits: nat, x: int)
    requires
        in_range(signed, bits, x),
    ensures
        in_range(true, bits + 1, -x),
{
    lemma_pow2_pos(bits);
    if bits > 0 {
        lemma_pow2_unfold(bits);
        lemma_pow2_pos((bits - 1) as nat);
    }
}

/// Multiplication stays in range: the product of a raw value of `b0` bits and
/// one of `b1` bits is a raw value of `b0 + b1` bits, signed if either operand
/// is.
pub proof fn lemma_mul_closed(s0: bool, b0: nat, s1: bool, b1: nat, x: int, y: int)
    requires
        in_range(s0, b0, x),
        in_range(s1, b1, y),
    ensures
        in_range(s0 || s1, product_bits(b0, b1), x * y),
{
    let b = b0 + b1;
    lemma_zero_in_range(s0 || s1, b);
    lemma_zero_in_range(s0, b0);
    lemma_zero_in_range(s1, b1);
    if b0 == 0 || b1 == 0 {
        assert(x * y == 0) by (nonlinear_arith)
            requires
                x == 0 || y == 0,
        ;
    } else {
        let m0 = pow2((b0 - 1) as nat) as int;
        let m1 = pow2((b1 - 1) as nat) as int;
        lemma_pow2_pos((b0 - 1) as nat);
        lemma_pow2_pos((b1 - 1) as nat);
        lemma_pow2_unfold(b0);
        lemma_pow2_unfold(b1);
        lemma_pow2_unfold(b);
        lemma_pow2_adds((b0 - 1) as nat, b1);
        lemma_pow2_adds(b0, (b1 - 1) as nat);
        lemma_pow2_adds((b0 - 1) as nat, (b1 - 1) as nat);
        let half = pow2((b - 1) as nat) as int;
        assert(half == 2 * (m0 * m1)) by (nonlinear_arith)
            requires
                half == m0 * (2 * m1),
        ;
        if s0 && s1 {
            assert(-(m0 * m1) <= x * y <= m0 * m1) by (nonlinear_arith)
                requires
                    -m0 <= x < m0,
                    -m1 <= y < m1,
            ;
        } else if s0 {
            assert(-(m0 * (2 * m1)) < x * y < m0 * (2 * m1)) by (nonlinear_arith)
                requires
                    -m0 <= x < m0,
                    0 <= y < 2 * m1,
            ;
        } else if s1 {
            assert(-((2 * m0) * m1) < x * y < (2 * m0) * m1) by (nonlinear_arith)
                requires
                    0 <= x < 2 * m0,
                    -m1 <= y < m1,
            ;
            assert((2 * m0) * m1 == half) by (nonlinear_arith)
                requires
                    half == 2 * (m0 * m1),
            ;
        } else {
            assert(0 <= x * y < (2 * m0) * (2 * m1)) by (nonlinear_arith)
                requires
                    0 <= x < 2 * m0,
                    0 <= y < 2 * m1,
            ;
            assert((2 * m0) * (2 * m1) == 2 * half) by (nonlinear_arith)
                requires
                    half == 2 * (m0 * m1),
            ;
        }
    }
}

/// The magnitude of a quotient rounded toward zero is at most that of the
/// dividend, and the quotient of a non-negative dividend by a positive divisor
/// is non-negative.
pub proof fn lemma_trunc_div_bounds(x: int, y: int)
    requires
        y != 0,
    ensures
        x >= 0 ==> -x <= trunc_div(x, y) <= x,
        x <= 0 ==> x <= trunc_div(x, y) <= -x,
        x >= 0 && y > 0 ==> trunc_div(x, y) >= 0,
        x <= 0 && y > 0 ==> trunc_div(x, y) <= 0,
{
    let a = if x >= 0 { x } else { -x };
    let d = if y > 0 { y } else { -y };
    lemma_div_pos_is_pos(a, d);
    lemma_div_is_ordered_by_denominator(a, 1, d);
}

/// Division stays in range: the quotient, rounded toward zero, of a raw value
/// of `b0` bits by a nonzero raw value is a raw value of `b0` bits where both
/// are unsigned, and of the signed format of `b0 + 1` bits otherwise.
pub proof fn lemma_div_closed(s0: bool, b0: nat, s1: bool, b1: nat, x: int, y: int)
    requires
        in_range(s0, b0, x),
        in_range(s1, b1, y),
        y != 0,
    ensures
        in_range(s0 || s1, quotient_bits(b0, s0 || s1), trunc_div(x, y)),
{
    lemma_trunc_div_bounds(x, y);
    lemma_zero_in_range(s0, b0);
    lemma_zero_in_range(s1, b1);
    lemma_pow2_pos(b0);
    if b0 > 0 {
        lemma_pow2_unfold(b0);
        lemma_pow2_pos((b0 - 1) as nat);
    }
}

/// The bounds of a format are those of the full container, shifted right by
/// the bits that the format leaves unused: an arithmetic shift for the signed
/// minimum, a logical one for the maximum.
pub proof fn lemma_bounds_by_shift(signed: bool, width: nat, bits: nat)
    requires
        0 < bits <= width,
    ensures
        min_raw(signed, bits) == min_raw(signed, width) / (pow2((width - bits) as nat) as int),
        max_raw(signed, bits) == max_raw(signed, width) / (pow2((width - bits) as nat) as int),
{
    let k = (width - bits) as nat;
    let p = pow2(k) as int;
    lemma_pow2_pos(k);
    let e = if signed { (bits - 1) as nat } else { bits };
    let m = pow2(e) as int;
    lemma_pow2_pos(e);
    lemma_pow2_adds(e, k);
    assert(pow2(e + k) == m * p);
    assert(m * p - 1 == (m - 1) * p + (p - 1)) by (nonlinear_arith);
    assert(-(m * p) == (-m) * p + 0) by (nonlinear_arith);
    lemma_fundamental_div_mod_converse(m * p - 1, p, m - 1, p - 1);
    lemma_fundamental_div_mod_converse(-(m * p), p, -m, 0);
    if !signed {
        assert(0int / p == 0) by {
            lemma_fundamental_div_mod_converse(0, p, 0, 0);
        }
    }
}

/// Shifting a raw value left by `n` bits gives a raw value of the format `n`
/// bits wider.
pub proof fn lemma_shl_closed(signed: bool, bits: nat, n: nat, x: int)
    requires
        in_range(signed, bits, x),
    ensures
        in_range(signed, bits + n, x * pow2(n)),
{
    let p = pow2(n) as int;
    lemma_pow2_pos(n);
    lemma_zero_in_range(signed, bits + n);
    lemma_zero_in_range(signed, bits);
    if bits == 0 {
        assert(x * p == 0) by (nonlinear_arith)
            requires
                x == 0,
        ;
    } else {
        let e = if signed { (bits - 1) as nat } else { bits };
        let m = pow2(e) as int;
        lemma_pow2_pos(e);
        lemma_pow2_adds(e, n);
        assert(pow2(e + n) == m * p);
        assert(-(m * p) <= x * p <= m * p - 1) by (nonlinear_arith)
            requires
                -m <= x <= m - 1,
                p >= 1,
        ;
        if !signed {
            assert(0 <= x * p) by (nonlinear_arith)
                requires
                    0 <= x,
                    0 <= p,
            ;
        }
    }
}

/// Shifting a raw value right by `n` of its `bits` bits, rounding down, gives a
/// raw value of the format `n` bits narrower. Where all `bits` bits are shifted
/// out, this holds of non-negative values only: a negative one rounds down to
/// -1, which no format of zero bits holds.
pub proof fn lemma_shr_closed(signed: bool, bits: nat, n: nat, x: int)
    requires
        in_range(signed, bits, x),
        n <= bits,
        n < bits || x >= 0,
    ensures
        in_range(signed, (bits - n) as nat, x / (pow2(n) as int)),
{
    let p = pow2(n) as int;
    lemma_pow2_pos(n);
    lemma_zero_in_range(signed, bits);
    if n == bits {
        lemma_pow2_pos(bits);
        if bits > 0 {
            lemma_pow2_unfold(bits);
        }
        lemma_fundamental_div_mod_converse(x, p, 0, x);
    } else {
        let out = (bits - n) as nat;
        let e = if signed { (out - 1) as nat } else { out };
        let m = pow2(e) as int;
        lemma_pow2_pos(e);
        lemma_pow2_adds(e, n);
        assert(pow2(e + n) == m * p);
        assert(m * p - 1 == (m - 1) * p + (p - 1)) by (nonlinear_arith);
        assert(-(m * p) == (-m) * p + 0) by (nonlinear_arith);
        lemma_fundamental_div_mod_converse(m * p - 1, p, m - 1, p - 1);
        lemma_fundamental_div_mod_converse(-(m * p), p, -m, 0);
        lemma_div_is_ordered(x, m * p - 1, p);
        if signed {
            lemma_div_is_ordered(-(m * p), x, p);
        } else {
            lemma_div_pos_is_pos(x, p);
        }
    }
}

/// An unsigned raw value is a raw value of the signed format one bit wider.
pub proof fn lemma_into_signed(bits: nat, x: int)
    requires
        in_range(false, bits, x),
    ensures
        in_range(true, bits + 1, x),
{
    lemma_pow2_pos(bits);
}

/// A signed raw value that is not negative is a raw value of the unsigned
/// format one bit narrower.
pub proof fn lemma_into_unsigned(bits: nat, x: int)
    requires
        bits > 0,
        in_range(true, bits, x),
        x >= 0,
    ensures
        in_range(false, (bits - 1) as nat, x),
{
    lemma2_to64();
}

/// Repeated halving is division by a power of two: where each of `f(1)` to
/// `f(n)` is half of the one before it, rounded down, `f(n)` is `f(0)` divided
/// by `2^n`, rounded down.
pub proof fn lemma_halving(f: spec_fn(nat) -> int, n: nat)
    requires
        forall|k: nat| 0 < k <= n ==> #[trigger] f(k) == f((k - 1) as nat) / 2,
    ensures
        f(n) == f(0) / (pow2(n) as int),
    decreases n,
{
    lemma2_to64();
    if n > 0 {
        let m = (n - 1) as nat;
        lemma_halving(f, m);
        let p = pow2(m) as int;
        lemma_pow2_pos(m);
        lemma_pow2_unfold(n);
        let q = f(0) / p;
        lemma_fundamental_div_mod(f(0), p);
        lemma_mod_bound(f(0), p);
        lemma_fundamental_div_mod(q, 2);
        let r = (q % 2) * p + f(0) % p;
        assert(f(0) == (q / 2) * (2 * p) + r) by (nonlinear_arith)
            requires
                f(0) == p * q + f(0) % p,
                q == 2 * (q / 2) + q % 2,
                r == (q % 2) * p + f(0) % p,
        ;
        assert(0 <= r < 2 * p) by (nonlinear_arith)
            requires
                r == (q % 2) * p + f(0) % p,
                0 <= q % 2 < 2,
                0 <= f(0) % p < p,
        ;
        lemma_fundamental_div_mod_converse(f(0), 2 * p, q / 2, r);
        assert(f(n) == f(m) / 2);
    } else {
        assert(f(0) / 1 == f(0));
    }
}

/// Repeated doubling is multiplication by a power of two: where each of `f(1)`
/// to `f(n)` is twice the one before it as long as that lies between `lo` and
/// `hi`, and `f(0)` times `2^n` lies between them, `f(n)` is `f(0)` times `2^n`.
pub proof fn lemma_doubling(f: spec_fn(nat) -> int, n: nat, lo: int, hi: int)
    requires
        lo <= 0 <= hi,
        lo <= f(0) * pow2(n) <= hi,
        forall|k: nat|
            0 < k <= n && lo <= 2 * f((k - 1) as nat) <= hi ==> #[trigger] f(k) == 2 * f(
                (k - 1) as nat,
            ),
    ensures
        f(n) == f(0) * pow2(n),
    decreases n,
{
    lemma2_to64();
    if n > 0 {
        let m = (n - 1) as nat;
        let p = pow2(m) as int;
        lemma_pow2_pos(m);
        lemma_pow2_unfold(n);
        assert(f(0) * pow2(n) == 2 * (f(0) * p)) by (nonlinear_arith)
            requires
                pow2(n) == 2 * p,
        ;
        lemma_doubling(f, m, lo, hi);
        assert(f(n) == 2 * f(m));
    } else {
        assert(f(0) * 1 == f(0));
    }
}

/// What the machine computes when it divides signed integers is the quotient
/// rounded toward zero.
pub proof fn lemma_trunc_div_machine(a: int, b: int)
    requires
        b != 0,
    ensures
        trunc_div(a, b) == if a >= 0 {
            a / b
        } else {
            -((-a) / b)
        },
{
    if b < 0 {
        let x = if a >= 0 { a } else { -a };
        let d = -b;
        lemma_fundamental_div_mod(x, d);
        lemma_mod_bound(x, d);
        assert(x == (-(x / d)) * b + x % d) by (nonlinear_arith)
            requires
                x == d * (x / d) + x % d,
                d == -b,
        ;
        lemma_neg_divisor(x, b, -(x / d), x % d);
    }
}

/// Division by a negative divisor: where `x == q * b + r` with `0 <= r < -b`,
/// `x / b` is `q`.
proof fn lemma_neg_divisor(x: int, b: int, q: int, r: int)
    by (nonlinear_arith)
    requires
        b < 0,
        0 <= r < -b,
        x == q * b + r,
    ensures
        x / b == q,
{
}

/// `bit_length(n)` is the least `k` with `n < 2^k`: `n` lies below `2^k`, and
/// not below `2^(k-1)` unless it is 0.
pub proof fn lemma_bit_length(n: nat)
    ensures
        n < pow2(bit_length(n)),
        n > 0 ==> bit_length(n) > 0 && pow2((bit_length(n) - 1) as nat) <= n,
    decreases n,
{
    lemma2_to64();
    if n > 0 {
        lemma_bit_length(n / 2);
        lemma_pow2_unfold(bit_length(n));
        if n / 2 > 0 {
            lemma_pow2_unfold(bit_length(n / 2));
        }
    }
}

/// A number below `2^k` takes at most `k` bits to write.
pub proof fn lemma_bit_length_le(n: nat, k: nat)
    requires
        n < pow2(k),
    ensures
        bit_length(n) <= k,
{
    lemma_bit_length(n);
    if n > 0 && bit_length(n) > k {
        let j = (bit_length(n) - 1) as nat;
        if k < j {
            lemma_pow2_strictly_increases(k, j);
        }
    }
}

/// Multiplication by a constant stays in range: the product of a raw value of
/// `bits` bits and `val` is a raw value of `mul_const_bits(bits, val)` bits. A
/// negative constant is one of a signed container.
pub proof fn lemma_mul_const_closed(signed: bool, bits: nat, x: int, val: int)
    requires
        in_range(signed, bits, x),
        val < 0 ==> signed,
    ensures
        in_range(signed, mul_const_bits(bits, val), x * val),
{
    let out = mul_const_bits(bits, val);
    lemma_zero_in_range(signed, out);
    lemma_zero_in_range(signed, bits);
    if val == 0 || bits == 0 {
        assert(x * val == 0) by (nonlinear_arith)
            requires
                x == 0 || val == 0,
        ;
    } else {
        let e = if signed { (bits - 1) as nat } else { bits };
        let m = pow2(e) as int;
        lemma_pow2_pos(e);
        if val > 0 {
            let k = bit_length((val - 1) as nat);
            let p = pow2(k) as int;
            lemma_bit_length((val - 1) as nat);
            lemma_pow2_adds(e, k);
            assert(pow2(e + k) == m * p);
            assert(-(m * p) <= x * val <= m * p - 1) by (nonlinear_arith)
                requires
                    -m <= x <= m - 1,
                    1 <= val <= p,
            ;
            if !signed {
                assert(0 <= x * val) by (nonlinear_arith)
                    requires
                        0 <= x,
                        0 <= val,
                ;
            }
        } else {
            let k = bit_length((-val) as nat);
            let p = pow2(k) as int;
            lemma_bit_length((-val) as nat);
            lemma_pow2_adds(e, k);
            assert(pow2(e + k) == m * p);
            assert(-(m * p) <= x * val <= m * p - 1) by (nonlinear_arith)
                requires
                    -m <= x <= m - 1,
                    1 <= -val <= p - 1,
                    m >= 1,
            ;
        }
    }
}

/// A quotient of non-negative numbers lies below `t` where the dividend lies
/// below `t` times the divisor.
proof fn lemma_div_below(a: int, d: int, t: int)
    requires
        0 <= a,
        0 < d,
        a < d * t,
    ensures
        0 <= a / d < t,
{
    lemma_div_pos_is_pos(a, d);
    lemma_multiply_divide_lt(a, d, t);
}

/// Division by a constant stays in range: the quotient, rounded toward zero,
/// of a raw value of `bits` bits by `val` is a raw value of
/// `div_const_bits(bits, val)` bits, where that is not negative. A negative
/// constant is one of a signed container.
pub proof fn lemma_div_const_closed(signed: bool, bits: nat, x: int, val: int)
    requires
        in_range(signed, bits, x),
        val != 0,
        val < 0 ==> signed,
        div_const_bits(bits, val) >= 0,
    ensures
        in_range(signed, div_const_bits(bits, val) as nat, trunc_div(x, val)),
{
    let out = div_const_bits(bits, val) as nat;
    lemma_zero_in_range(signed, out);
    lemma_zero_in_range(signed, bits);
    lemma_trunc_div_bounds(x, val);
    lemma2_to64();
    let a = if x >= 0 { x } else { -x };
    let d = if val > 0 { val } else { -val };
    // The least power of two that the divisor reaches, and its exponent.
    let j = if val > 0 { (bit_length(val as nat) - 1) as nat } else { bit_length((-val - 1) as nat) };
    if val > 0 {
        lemma_bit_length(val as nat);
    } else {
        lemma_bit_length((-val - 1) as nat);
        lemma2_to64();
        if -val - 1 > 0 {
            lemma_pow2_unfold(j);
        }
    }
    // Now `d >= 2^j` where `val > 0`, and `d > 2^(j-1)`, `d >= 1` where `val < 0`.
    if bits == 0 {
        lemma_basic_div(0, d);
    } else if val < 0 && j == 0 {
        lemma_neg_closed(signed, bits, x);
        assert(a / 1 == a);
    } else {
        let e = if signed { (bits - 1) as nat } else { bits };
        let m = pow2(e) as int;
        lemma_pow2_pos(e);
        // The exponent of the power of two that the divisor reaches.
        let g = if val > 0 { j } else { (j - 1) as nat };
        let q = pow2(g) as int;
        lemma_pow2_pos(g);
        if g > e {
            // The divisor is above every magnitude of the format.
            lemma_pow2_strictly_increases(e, g);
            lemma_basic_div(a, d);
        } else {
            let t = pow2((e - g) as nat) as int;
            lemma_pow2_pos((e - g) as nat);
            lemma_pow2_adds((e - g) as nat, g);
            assert(m == t * q);
            if signed {
                assert(pow2((out - 1) as nat) == t);
            } else {
                assert(pow2(out) == t);
            }
            if val < 0 || x >= 0 {
                assert(a < d * t) by (nonlinear_arith)
                    requires
                        a < t * q && d >= q || a <= t * q && d > q,
                        t >= 1,
                ;
                lemma_div_below(a, d, t);
            } else {
                assert(a <= d * t) by (nonlinear_arith)
                    requires
                        a <= t * q,
                        d >= q,
                        t >= 1,
                ;
                lemma_multiply_divide_le(a, d, t);
            }
        }
    }
}

/// The raw values of a format of at most 128 bits fit the 128-bit integers:
/// `i128` where the format is signed, `u128` where it is not.
pub proof fn lemma_fits_128(signed: bool, bits: nat, x: int)
    requires
        bits <= 128,
        in_range(signed, bits, x),
    ensures
        signed ==> i128::MIN <= x <= i128::MAX,
        !signed ==> 0 <= x <= u128::MAX,
{
    lemma_range_widens(signed, bits, 128, x);
    lemma2_to64();
    lemma2_to64_rest();
    lemma_pow2_adds(64, 63);
    lemma_pow2_adds(64, 64);
}

} // verus!
