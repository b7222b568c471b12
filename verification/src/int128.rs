//! The 128-bit raw containers, `i128` and `u128`.
use crate::bounds::{lemma_doubling, lemma_halving, lemma_trunc_div_machine};
use crate::raw::{Fp, ToSigned, ToUnsigned};
use vstd::arithmetic::power2::{lemma2_to64, lemma2_to64_rest, lemma_pow2_adds, pow2};
use vstd::prelude::*;

verus! {

/// The powers of two that bound `i128` and `u128`.
proof fn lemma_limits()
    ensures
        pow2((i128::BITS - 1) as nat) == i128::MAX + 1,
        pow2(u128::BITS as nat) == u128::MAX + 1,
        i128::MIN == -i128::MAX - 1,
{
    lemma2_to64();
    lemma2_to64_rest();
    lemma_pow2_adds(64, 63);
    lemma_pow2_adds(64, 64);
}

/// One step of a shift of an `i128`, as the machine performs it.
proof fn lemma_signed_shift_step(x: i128, n: u32)
    ensures
        x >> 0u32 == x,
        x << 0u32 == x,
        0 < n < i128::BITS ==> x >> n == (x >> ((n - 1) as u32)) / 2,
        0 < n < i128::BITS && i128::MIN <= 2 * (x << ((n - 1) as u32)) <= i128::MAX
            ==> x << n == 2 * (x << ((n - 1) as u32)),
{
    if 0 < n < i128::BITS {
        lemma_signed_shr_bits(x, x >> ((n - 1) as u32), n);
        lemma_signed_shl_bits(x, x << ((n - 1) as u32), n);
    } else {
        lemma_signed_shr_bits(x, x, 1);
        lemma_signed_shl_bits(x, x, 1);
    }
}

/// How the machine shifts an `i128` to the right: by no bit, by one bit, and
/// by one bit more.
proof fn lemma_signed_shr_bits(x: i128, y: i128, n: u32)
    by (bit_vector)
    requires
        0 < n < i128::BITS,
    ensures
        x >> 0u32 == x,
        x >> n == (x >> ((n - 1) as u32)) >> 1u32,
        y >> 1u32 == y / 2,
{
}

/// How the machine shifts an `i128` to the left: by no bit, by one bit, and
/// by one bit more.
proof fn lemma_signed_shl_bits(x: i128, z: i128, n: u32)
    by (bit_vector)
    requires
        0 < n < i128::BITS,
    ensures
        x << 0u32 == x,
        x << n == (x << ((n - 1) as u32)) << 1u32,
        i128::MIN <= 2 * z <= i128::MAX ==> z << 1u32 == 2 * z,
{
}

/// One step of a shift of a `u128`, as the machine performs it.
proof fn lemma_unsigned_shift_step(x: u128, n: u32)
    ensures
        x >> 0u32 == x,
        x << 0u32 == x,
        0 < n < u128::BITS ==> x >> n == (x >> ((n - 1) as u32)) / 2,
        0 < n < u128::BITS && 2 * (x << ((n - 1) as u32)) <= u128::MAX
            ==> x << n == 2 * (x << ((n - 1) as u32)),
{
    if 0 < n < u128::BITS {
        lemma_unsigned_shr_bits(x, x >> ((n - 1) as u32), n);
        lemma_unsigned_shl_bits(x, x << ((n - 1) as u32), n);
    } else {
        lemma_unsigned_shr_bits(x, x, 1);
        lemma_unsigned_shl_bits(x, x, 1);
    }
}

/// How the machine shifts a `u128` to the right: by no bit, by one bit, and
/// by one bit more.
proof fn lemma_unsigned_shr_bits(x: u128, y: u128, n: u32)
    by (bit_vector)
    requires
        0 < n < u128::BITS,
    ensures
        x >> 0u32 == x,
        x >> n == (x >> ((n - 1) as u32)) >> 1u32,
        y >> 1u32 == y / 2,
{
}

/// How the machine shifts a `u128` to the left: by no bit, by one bit, and
/// by one bit more.
proof fn lemma_unsigned_shl_bits(x: u128, z: u128, n: u32)
    by (bit_vector)
    requires
        0 < n < u128::BITS,
    ensures
        x << 0u32 == x,
        x << n == (x << ((n - 1) as u32)) << 1u32,
        2 * z <= u128::MAX ==> z << 1u32 == 2 * z,
{
}

/// A right shift of an `i128` divides it by a power of two and rounds down.
proof fn lemma_signed_shr(x: i128, n: u32)
    requires
        n < i128::BITS,
    ensures
        (x >> n) as int == (x as int) / (pow2(n as nat) as int),
{
    let f = |k: nat| (x >> (k as u32)) as int;
    assert forall|k: nat| 0 < k <= n implies #[trigger] f(k) == f((k - 1) as nat) / 2 by {
        lemma_signed_shift_step(x, k as u32);
    }
    lemma_signed_shift_step(x, 0);
    lemma_halving(f, n as nat);
}

/// A left shift of an `i128` multiplies it by a power of two, where the product
/// fits.
proof fn lemma_signed_shl(x: i128, n: u32)
    requires
        n < i128::BITS,
        i128::MIN <= x * pow2(n as nat) <= i128::MAX,
    ensures
        (x << n) as int == x * pow2(n as nat),
{
    let f = |k: nat| (x << (k as u32)) as int;
    assert forall|k: nat|
        0 < k <= n && i128::MIN <= 2 * f((k - 1) as nat) <= i128::MAX
        implies #[trigger] f(k) == 2 * f((k - 1) as nat) by {
        lemma_signed_shift_step(x, k as u32);
    }
    lemma_signed_shift_step(x, 0);
    lemma_doubling(f, n as nat, i128::MIN as int, i128::MAX as int);
}

/// A right shift of a `u128` divides it by a power of two and rounds down.
proof fn lemma_unsigned_shr(x: u128, n: u32)
    requires
        n < u128::BITS,
    ensures
        (x >> n) as int == (x as int) / (pow2(n as nat) as int),
{
    let f = |k: nat| (x >> (k as u32)) as int;
    assert forall|k: nat| 0 < k <= n implies #[trigger] f(k) == f((k - 1) as nat) / 2 by {
        lemma_unsigned_shift_step(x, k as u32);
    }
    lemma_unsigned_shift_step(x, 0);
    lemma_halving(f, n as nat);
}

/// A left shift of a `u128` multiplies it by a power of two, where the product
/// fits.
proof fn lemma_unsigned_shl(x: u128, n: u32)
    requires
        n < u128::BITS,
        x * pow2(n as nat) <= u128::MAX,
    ensures
        (x << n) as int == x * pow2(n as nat),
{
    let f = |k: nat| (x << (k as u32)) as int;
    assert forall|k: nat|
        0 < k <= n && 0 <= 2 * f((k - 1) as nat) <= u128::MAX
        implies #[trigger] f(k) == 2 * f((k - 1) as nat) by {
        lemma_unsigned_shift_step(x, k as u32);
    }
    lemma_unsigned_shift_step(x, 0);
    lemma_doubling(f, n as nat, 0, u128::MAX as int);
}

/// A difference of two `u128` that fits `i128` is what the wrapped difference
/// reads as an `i128`.
proof fn lemma_wrapped_difference(x: u128, y: u128, w: u128)
    by (bit_vector)
    requires
        i128::MIN <= x - y <= i128::MAX,
        w == if x >= y {
            x - y
        } else {
            x - y + u128::MAX + 1
        },
    ensures
        w as i128 == x - y,
{
}

impl Fp for i128 {
    open spec fn width() -> nat {
        i128::BITS as nat
    }

    open spec fn signed() -> bool {
        true
    }

    open spec fn value(self) -> int {
        self as int
    }

    open spec fn of(v: int) -> Self {
        v as i128
    }

    proof fn lemma_value_of(v: int) {
        lemma_limits();
    }

    proof fn lemma_of_value(self) {
    }

    proof fn lemma_width() {
    }

    proof fn lemma_value_in_range(self) {
        lemma_limits();
    }

    fn bits() -> (b: u32) {
        i128::BITS
    }

    fn is_signed() -> (s: bool) {
        true
    }

    fn min_value() -> (m: Self) {
        proof {
            lemma_limits();
        }
        i128::MIN
    }

    fn max_value() -> (m: Self) {
        proof {
            lemma_limits();
        }
        i128::MAX
    }

    fn lt(self, other: Self) -> (b: bool) {
        self < other
    }

    fn raw_add(self, other: Self) -> (r: Self) {
        proof {
            lemma_limits();
        }
        self + other
    }

    fn raw_mul(self, other: Self) -> (r: Self) {
        proof {
            lemma_limits();
        }
        self * other
    }

    fn raw_div(self, other: Self) -> (r: Self) {
        proof {
            lemma_limits();
            lemma_trunc_div_machine(self as int, other as int);
        }
        self / other
    }

    fn shl(self, n: u32) -> (r: Self) {
        proof {
            lemma_limits();
            lemma_signed_shl(self, n);
        }
        self << n
    }

    fn shr(self, n: u32) -> (r: Self) {
        proof {
            lemma_signed_shr(self, n);
        }
        self >> n
    }

    fn to_i128(self) -> (r: i128) {
        self as i128
    }

    fn to_u128(self) -> (r: u128) {
        self as u128
    }

    fn from_i128(v: i128) -> (r: Self) {
        proof {
            lemma_limits();
        }
        v as i128
    }

    fn from_u128(v: u128) -> (r: Self) {
        proof {
            lemma_limits();
        }
        v as i128
    }
}

impl Fp for u128 {
    open spec fn width() -> nat {
        u128::BITS as nat
    }

    open spec fn signed() -> bool {
        false
    }

    open spec fn value(self) -> int {
        self as int
    }

    open spec fn of(v: int) -> Self {
        v as u128
    }

    proof fn lemma_value_of(v: int) {
        lemma_limits();
    }

    proof fn lemma_of_value(self) {
    }

    proof fn lemma_width() {
    }

    proof fn lemma_value_in_range(self) {
        lemma_limits();
    }

    fn bits() -> (b: u32) {
        u128::BITS
    }

    fn is_signed() -> (s: bool) {
        false
    }

    fn min_value() -> (m: Self) {
        u128::MIN
    }

    fn max_value() -> (m: Self) {
        proof {
            lemma_limits();
        }
        u128::MAX
    }

    fn lt(self, other: Self) -> (b: bool) {
        self < other
    }

    fn raw_add(self, other: Self) -> (r: Self) {
        proof {
            lemma_limits();
        }
        self + other
    }

    fn raw_mul(self, other: Self) -> (r: Self) {
        proof {
            lemma_limits();
        }
        self * other
    }

    fn raw_div(self, other: Self) -> (r: Self) {
        self / other
    }

    fn shl(self, n: u32) -> (r: Self) {
        proof {
            lemma_limits();
            lemma_unsigned_shl(self, n);
        }
        self << n
    }

    fn shr(self, n: u32) -> (r: Self) {
        proof {
            lemma_unsigned_shr(self, n);
        }
        self >> n
    }

    fn to_i128(self) -> (r: i128) {
        self as i128
    }

    fn to_u128(self) -> (r: u128) {
        self as u128
    }

    fn from_i128(v: i128) -> (r: Self) {
        proof {
            lemma_limits();
        }
        v as u128
    }

    fn from_u128(v: u128) -> (r: Self) {
        proof {
            lemma_limits();
        }
        v as u128
    }
}

impl ToSigned for i128 {
    type Signed = i128;

    proof fn lemma_signed() {
    }

    fn to_signed(self) -> (r: i128) {
        self
    }

    fn raw_sub(self, other: Self) -> (r: i128) {
        proof {
            lemma_limits();
        }
        self - other
    }

    fn raw_neg(self) -> (r: i128) {
        proof {
            lemma_limits();
        }
        -self
    }
}

impl ToSigned for u128 {
    type Signed = i128;

    proof fn lemma_signed() {
    }

    fn to_signed(self) -> (r: i128) {
        proof {
            lemma_limits();
        }
        self as i128
    }

    fn raw_sub(self, other: Self) -> (r: i128) {
        let wrapped = self.wrapping_sub(other);
        proof {
            lemma_limits();
            lemma_wrapped_difference(self, other, wrapped);
        }
        #[verifier::truncate]
        (wrapped as i128)
    }

    fn raw_neg(self) -> (r: i128) {
        let zero: u128 = 0;
        zero.raw_sub(self)
    }
}

impl ToUnsigned for i128 {
    type Unsigned = u128;

    proof fn lemma_unsigned() {
    }

    fn to_unsigned(self) -> (r: u128) {
        self as u128
    }

    fn from_unsigned(v: u128) -> (r: i128) {
        proof {
            lemma_limits();
        }
        v as i128
    }
}

} // verus!
