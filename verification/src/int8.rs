//! The 8-bit raw containers, `i8` and `u8`.
use crate::bounds::{lemma_doubling, lemma_halving, lemma_trunc_div_machine};
use crate::raw::{Fp, ToSigned, ToUnsigned};
use vstd::arithmetic::power2::{lemma2_to64, pow2};
use vstd::prelude::*;

verus! {

/// The powers of two that bound `i8` and `u8`.
proof fn lemma_limits()
    ensures
        pow2((i8::BITS - 1) as nat) == i8::MAX + 1,
        pow2(u8::BITS as nat) == u8::MAX + 1,
        i8::MIN == -i8::MAX - 1,
{
    lemma2_to64();
}

/// One step of a shift of an `i8`, as the machine performs it.
proof fn lemma_signed_shift_step(x: i8, n: u32)
    ensures
        x >> 0u32 == x,
        x << 0u32 == x,
        0 < n < i8::BITS ==> x >> n == (x >> ((n - 1) as u32)) / 2,
        0 < n < i8::BITS && i8::MIN <= 2 * (x << ((n - 1) as u32)) <= i8::MAX
            ==> x << n == 2 * (x << ((n - 1) as u32)),
{
    if 0 < n < i8::BITS {
        lemma_signed_shr_bits(x, x >> ((n - 1) as u32), n);
        lemma_signed_shl_bits(x, x << ((n - 1) as u32), n);
    } else {
        lemma_signed_shr_bits(x, x, 1);
        lemma_signed_shl_bits(x, x, 1);
    }
}

/// How the machine shifts an `i8` to the right: by no bit, by one bit, and
/// by one bit more.
proof fn lemma_signed_shr_bits(x: i8, y: i8, n: u32)
    by (bit_vector)
    requires
        0 < n < i8::BITS,
    ensures
        x >> 0u32 == x,
        x >> n == (x >> ((n - 1) as u32)) >> 1u32,
        y >> 1u32 == y / 2,
{
}

/// How the machine shifts an `i8` to the left: by no bit, by one bit, and
/// by one bit more.
proof fn lemma_signed_shl_bits(x: i8, z: i8, n: u32)
    by (bit_vector)
    requires
        0 < n < i8::BITS,
    ensures
        x << 0u32 == x,
        x << n == (x << ((n - 1) as u32)) << 1u32,
        i8::MIN <= 2 * z <= i8::MAX ==> z << 1u32 == 2 * z,
{
}

/// One step of a shift of a `u8`, as the machine performs it.
proof fn lemma_unsigned_shift_step(x: u8, n: u32)
    ensures
        x >> 0u32 == x,
        x << 0u32 == x,
        0 < n < u8::BITS ==> x >> n == (x >> ((n - 1) as u32)) / 2,
        0 < n < u8::BITS && 2 * (x << ((n - 1) as u32)) <= u8::MAX
            ==> x << n == 2 * (x << ((n - 1) as u32)),
{
    if 0 < n < u8::BITS {
        lemma_unsigned_shr_bits(x, x >> ((n - 1) as u32), n);
        lemma_unsigned_shl_bits(x, x << ((n - 1) as u32), n);
    } else {
        lemma_unsigned_shr_bits(x, x, 1);
        lemma_unsigned_shl_bits(x, x, 1);
    }
}

/// How the machine shifts a `u8` to the right: by no bit, by one bit, and
/// by one bit more.
proof fn lemma_unsigned_shr_bits(x: u8, y: u8, n: u32)
    by (bit_vector)
    requires
        0 < n < u8::BITS,
    ensures
        x >> 0u32 == x,
        x >> n == (x >> ((n - 1) as u32)) >> 1u32,
        y >> 1u32 == y / 2,
{
}

/// How the machine shifts a `u8` to the left: by no bit, by one bit, and
/// by one bit more.
proof fn lemma_unsigned_shl_bits(x: u8, z: u8, n: u32)
    by (bit_vector)
    requires
        0 < n < u8::BITS,
    ensures
        x << 0u32 == x,
        x << n == (x << ((n - 1) as u32)) << 1u32,
        2 * z <= u8::MAX ==> z << 1u32 == 2 * z,
{
}

/// A right shift of an `i8` divides it by a power of two and rounds down.
proof fn lemma_signed_shr(x: i8, n: u32)
    requires
        n < i8::BITS,
    ensures
        (x >> n) as int == (x as int) / (pow2(n as nat) as int),
{
    let f = |k: nat| (x >> (k as u32)) as int;
    assert forall|k: nat| 0 < k <= n implies #[trigger] f(k) == f((k - 1) as nat) / 2 by {
        lemma_signed_shift_step(x, k as u32);
    }
    lemma_signed_shift_step(x, 0);
    lemma_halving(f, n as nat);
}

/// A left shift of an `i8` multiplies it by a power of two, where the product
/// fits.
proof fn lemma_signed_shl(x: i8, n: u32)
    requires
        n < i8::BITS,
        i8::MIN <= x * pow2(n as nat) <= i8::MAX,
    ensures
        (x << n) as int == x * pow2(n as nat),
{
    let f = |k: nat| (x << (k as u32)) as int;
    assert forall|k: nat|
        0 < k <= n && i8::MIN <= 2 * f((k - 1) as nat) <= i8::MAX
        implies #[trigger] f(k) == 2 * f((k - 1) as nat) by {
        lemma_signed_shift_step(x, k as u32);
    }
    lemma_signed_shift_step(x, 0);
    lemma_doubling(f, n as nat, i8::MIN as int, i8::MAX as int);
}

/// A right shift of a `u8` divides it by a power of two and rounds down.
proof fn lemma_unsigned_shr(x: u8, n: u32)
    requires
        n < u8::BITS,
    ensures
        (x >> n) as int == (x as int) / (pow2(n as nat) as int),
{
    let f = |k: nat| (x >> (k as u32)) as int;
    assert forall|k: nat| 0 < k <= n implies #[trigger] f(k) == f((k - 1) as nat) / 2 by {
        lemma_unsigned_shift_step(x, k as u32);
    }
    lemma_unsigned_shift_step(x, 0);
    lemma_halving(f, n as nat);
}

/// A left shift of a `u8` multiplies it by a power of two, where the product
/// fits.
proof fn lemma_unsigned_shl(x: u8, n: u32)
    requires
        n < u8::BITS,
        x * pow2(n as nat) <= u8::MAX,
    ensures
        (x << n) as int == x * pow2(n as nat),
{
    let f = |k: nat| (x << (k as u32)) as int;
    assert forall|k: nat|
        0 < k <= n && 0 <= 2 * f((k - 1) as nat) <= u8::MAX
        implies #[trigger] f(k) == 2 * f((k - 1) as nat) by {
        lemma_unsigned_shift_step(x, k as u32);
    }
    lemma_unsigned_shift_step(x, 0);
    lemma_doubling(f, n as nat, 0, u8::MAX as int);
}

/// A difference of two `u8` that fits `i8` is what the wrapped difference
/// reads as an `i8`.
proof fn lemma_wrapped_difference(x: u8, y: u8, w: u8)
    by (bit_vector)
    requires
        i8::MIN <= x - y <= i8::MAX,
        w == if x >= y {
            x - y
        } else {
            x - y + u8::MAX + 1
        },
    ensures
        w as i8 == x - y,
{
}

impl Fp for i8 {
    open spec fn width() -> nat {
        i8::BITS as nat
    }

    open spec fn signed() -> bool {
        true
    }

    open spec fn value(self) -> int {
        self as int
    }

    open spec fn of(v: int) -> Self {
        v as i8
    }

    proof fn lemma_value_of(v: int) {
        lemma_limits();
    }

    proof fn lemma_of_value(self) {
    }

    proof fn lemma_width() {
    }

    proof fn lemma_value_in_range(self) {
        lemma_limits();
    }

    fn bits() -> (b: u32) {
        i8::BITS
    }

    fn is_signed() -> (s: bool) {
        true
    }

    fn min_value() -> (m: Self) {
        proof {
            lemma_limits();
        }
        i8::MIN
    }

    fn max_value() -> (m: Self) {
        proof {
            lemma_limits();
        }
        i8::MAX
    }

    fn lt(self, other: Self) -> (b: bool) {
        self < other
    }

    fn raw_add(self, other: Self) -> (r: Self) {
        proof {
            lemma_limits();
        }
        self + other
    }

    fn raw_mul(self, other: Self) -> (r: Self) {
        proof {
            lemma_limits();
        }
        self * other
    }

    fn raw_div(self, other: Self) -> (r: Self) {
        proof {
            lemma_limits();
            lemma_trunc_div_machine(self as int, other as int);
        }
        self / other
    }

    fn shl(self, n: u32) -> (r: Self) {
        proof {
            lemma_limits();
            lemma_signed_shl(self, n);
        }
        self << n
    }

    fn shr(self, n: u32) -> (r: Self) {
        proof {
            lemma_signed_shr(self, n);
        }
        self >> n
    }

    fn to_i128(self) -> (r: i128) {
        self as i128
    }

    fn to_u128(self) -> (r: u128) {
        self as u128
    }

    fn from_i128(v: i128) -> (r: Self) {
        proof {
            lemma_limits();
        }
        v as i8
    }

    fn from_u128(v: u128) -> (r: Self) {
        proof {
            lemma_limits();
        }
        v as i8
    }
}

impl Fp for u8 {
    open spec fn width() -> nat {
        u8::BITS as nat
    }

    open spec fn signed() -> bool {
        false
    }

    open spec fn value(self) -> int {
        self as int
    }

    open spec fn of(v: int) -> Self {
        v as u8
    }

    proof fn lemma_value_of(v: int) {
        lemma_limits();
    }

    proof fn lemma_of_value(self) {
    }

    proof fn lemma_width() {
    }

    proof fn lemma_value_in_range(self) {
        lemma_limits();
    }

    fn bits() -> (b: u32) {
        u8::BITS
    }

    fn is_signed() -> (s: bool) {
        false
    }

    fn min_value() -> (m: Self) {
        u8::MIN
    }

    fn max_value() -> (m: Self) {
        proof {
            lemma_limits();
        }
        u8::MAX
    }

    fn lt(self, other: Self) -> (b: bool) {
        self < other
    }

    fn raw_add(self, other: Self) -> (r: Self) {
        proof {
            lemma_limits();
        }
        self + other
    }

    fn raw_mul(self, other: Self) -> (r: Self) {
        proof {
            lemma_limits();
        }
        self * other
    }

    fn raw_div(self, other: Self) -> (r: Self) {
        self / other
    }

    fn shl(self, n: u32) -> (r: Self) {
        proof {
            lemma_limits();
            lemma_unsigned_shl(self, n);
        }
        self << n
    }

    fn shr(self, n: u32) -> (r: Self) {
        proof {
            lemma_unsigned_shr(self, n);
        }
        self >> n
    }

    fn to_i128(self) -> (r: i128) {
        self as i128
    }

    fn to_u128(self) -> (r: u128) {
        self as u128
    }

    fn from_i128(v: i128) -> (r: Self) {
        proof {
            lemma_limits();
        }
        v as u8
    }

    fn from_u128(v: u128) -> (r: Self) {
        proof {
            lemma_limits();
        }
        v as u8
    }
}

impl ToSigned for i8 {
    type Signed = i8;

    proof fn lemma_signed() {
    }

    fn to_signed(self) -> (r: i8) {
        self
    }

    fn raw_sub(self, other: Self) -> (r: i8) {
        proof {
            lemma_limits();
        }
        self - other
    }

    fn raw_neg(self) -> (r: i8) {
        proof {
            lemma_limits();
        }
        -self
    }
}

impl ToSigned for u8 {
    type Signed = i8;

    proof fn lemma_signed() {
    }

    fn to_signed(self) -> (r: i8) {
        proof {
            lemma_limits();
        }
        self as i8
    }

    fn raw_sub(self, other: Self) -> (r: i8) {
        let wrapped = self.wrapping_sub(other);
        proof {
            lemma_limits();
            lemma_wrapped_difference(self, other, wrapped);
        }
        #[verifier::truncate]
        (wrapped as i8)
    }

    fn raw_neg(self) -> (r: i8) {
        let zero: u8 = 0;
        zero.raw_sub(self)
    }
}

impl ToUnsigned for i8 {
    type Unsigned = u8;

    proof fn lemma_unsigned() {
    }

    fn to_unsigned(self) -> (r: u8) {
        self as u8
    }

    fn from_unsigned(v: u8) -> (r: i8) {
        proof {
            lemma_limits();
        }
        v as i8
    }
}

} // verus!
