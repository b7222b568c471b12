//! The 16-bit raw containers, `i16` and `u16`.
use crate::bounds::{lemma_doubling, lemma_halving, lemma_trunc_div_machine};
use crate::raw::{Fp, ToSigned, ToUnsigned};
use vstd::arithmetic::power2::{lemma2_to64, pow2};
use vstd::prelude::*;

verus! {

/// The powers of two that bound `i16` and `u16`.
proof fn lemma_limits()
    ensures
        pow2((i16::BITS - 1) as nat) == i16::MAX + 1,
        pow2(u16::BITS as nat) == u16::MAX + 1,
        i16::MIN == -i16::MAX - 1,
{
    lemma2_to64();
}

/// One step of a shift of an `i16`, as the machine performs it.
proof fn lemma_signed_shift_step(x: i16, n: u32)
    ensures
        x >> 0u32 == x,
        x << 0u32 == x,
        0 < n < i16::BITS ==> x >> n == (x >> ((n - 1) as u32)) / 2,
        0 < n < i16::BITS && i16::MIN <= 2 * (x << ((n - 1) as u32)) <= i16::MAX
            ==> x << n == 2 * (x << ((n - 1) as u32)),
{
    if 0 < n < i16::BITS {
        lemma_signed_shr_bits(x, x >> ((n - 1) as u32), n);
        lemma_signed_shl_bits(x, x << ((n - 1) as u32), n);
    } else {
        lemma_signed_shr_bits(x, x, 1);
        lemma_signed_shl_bits(x, x, 1);
    }
}

/// How the machine shifts an `i16` to the right: by no bit, by one bit, and
/// by one bit more.
proof fn lemma_signed_shr_bits(x: i16, y: i16, n: u32)
    by (bit_vector)
    requires
        0 < n < i16::BITS,
    ensures
        x >> 0u32 == x,
        x >> n == (x >> ((n - 1) as u32)) >> 1u32,
        y >> 1u32 == y / 2,
{
}

/// How the machine shifts an `i16` to the left: by no bit, by one bit, and
/// by one bit more.
proof fn lemma_signed_shl_bits(x: i16, z: i16, n: u32)
    by (bit_vector)
    requires
        0 < n < i16::BITS,
    ensures
        x << 0u32 == x,
        x << n == (x << ((n - 1) as u32)) << 1u32,
        i16::MIN <= 2 * z <= i16::MAX ==> z << 1u32 == 2 * z,
{
}

/// One step of a shift of a `u16`, as the machine performs it.
proof fn lemma_unsigned_shift_step(x: u16, n: u32)
    ensures
        x >> 0u32 == x,
        x << 0u32 == x,
        0 < n < u16::BITS ==> x >> n == (x >> ((n - 1) as u32)) / 2,
        0 < n < u16::BITS && 2 * (x << ((n - 1) as u32)) <= u16::MAX
            ==> x << n == 2 * (x << ((n - 1) as u32)),
{
    if 0 < n < u16::BITS {
        lemma_unsigned_shr_bits(x, x >> ((n - 1) as u32), n);
        lemma_unsigned_shl_bits(x, x << ((n - 1) as u32), n);
    } else {
        lemma_unsigned_shr_bits(x, x, 1);
        lemma_unsigned_shl_bits(x, x, 1);
    }
}

/// How the machine shifts a `u16` to the right: by no bit, by one bit, and
/// by one bit more.
proof fn lemma_unsigned_shr_bits(x: u16, y: u16, n: u32)
    by (bit_vector)
    requires
        0 < n < u16::BITS,
    ensures
        x >> 0u32 == x,
        x >> n == (x >> ((n - 1) as u32)) >> 1u32,
        y >> 1u32 == y / 2,
{
}

/// How the machine shifts a `u16` to the left: by no bit, by one bit, and
/// by one bit more.
proof fn lemma_unsigned_shl_bits(x: u16, z: u16, n: u32)
    by (bit_vector)
    requires
        0 < n < u16::BITS,
    ensures
        x << 0u32 == x,
        x << n == (x << ((n - 1) as u32)) << 1u32,
        2 * z <= u16::MAX ==> z << 1u32 == 2 * z,
{
}

/// A right shift of an `i16` divides it by a power of two and rounds down.
proof fn lemma_signed_shr(x: i16, n: u32)
    requires
        n < i16::BITS,
    ensures
        (x >> n) as int == (x as int) / (pow2(n as nat) as int),
{
    let f = |k: nat| (x >> (k as u32)) as int;
    assert forall|k: nat| 0 < k <= n implies #[trigger] f(k) == f((k - 1) as nat) / 2 by {
        lemma_signed_shift_step(x, k as u32);
    }
    lemma_signed_shift_step(x, 0);
    lemma_halving(f, n as nat);
}

/// A left shift of an `i16` multiplies it by a power of two, where the product
/// fits.
proof fn lemma_signed_shl(x: i16, n: u32)
    requires
        n < i16::BITS,
        i16::MIN <= x * pow2(n as nat) <= i16::MAX,
    ensures
        (x << n) as int == x * pow2(n as nat),
{
    let f = |k: nat| (x << (k as u32)) as int;
    assert forall|k: nat|
        0 < k <= n && i16::MIN <= 2 * f((k - 1) as nat) <= i16::MAX
        implies #[trigger] f(k) == 2 * f((k - 1) as nat) by {
        lemma_signed_shift_step(x, k as u32);
    }
    lemma_signed_shift_step(x, 0);
    lemma_doubling(f, n as nat, i16::MIN as int, i16::MAX as int);
}

/// A right shift of a `u16` divides it by a power of two and rounds down.
proof fn lemma_unsigned_shr(x: u16, n: u32)
    requires
        n < u16::BITS,
    ensures
        (x >> n) as int == (x as int) / (pow2(n as nat) as int),
{
    let f = |k: nat| (x >> (k as u32)) as int;
    assert forall|k: nat| 0 < k <= n implies #[trigger] f(k) == f((k - 1) as nat) / 2 by {
        lemma_unsigned_shift_step(x, k as u32);
    }
    lemma_unsigned_shift_step(x, 0);
    lemma_halving(f, n as nat);
}

/// A left shift of a `u16` multiplies it by a power of two, where the product
/// fits.
proof fn lemma_unsigned_shl(x: u16, n: u32)
    requires
        n < u16::BITS,
        x * pow2(n as nat) <= u16::MAX,
    ensures
        (x << n) as int == x * pow2(n as nat),
{
    let f = |k: nat| (x << (k as u32)) as int;
    assert forall|k: nat|
        0 < k <= n && 0 <= 2 * f((k - 1) as nat) <= u16::MAX
        implies #[trigger] f(k) == 2 * f((k - 1) as nat) by {
        lemma_unsigned_shift_step(x, k as u32);
    }
    lemma_unsigned_shift_step(x, 0);
    lemma_doubling(f, n as nat, 0, u16::MAX as int);
}

/// A difference of two `u16` that fits `i16` is what the wrapped difference
/// reads as an `i16`.
proof fn lemma_wrapped_difference(x: u16, y: u16, w: u16)
    by (bit_vector)
    requires
        i16::MIN <= x - y <= i16::MAX,
        w == if x >= y {
            x - y
        } else {
            x - y + u16::MAX + 1
        },
    ensures
        w as i16 == x - y,
{
}

impl Fp for i16 {
    open spec fn width() -> nat {
        i16::BITS as nat
    }

    open spec fn signed() -> bool {
        true
    }

    open spec fn value(self) -> int {
        self as int
    }

    open spec fn of(v: int) -> Self {
        v as i16
    }

    proof fn lemma_value_of(v: int) {
        lemma_limits();
    }

    proof fn lemma_of_value(self) {
    }

    proof fn lemma_width() {
    }

    proof fn lemma_value_in_range(self) {
        lemma_limits();
    }

    fn bits() -> (b: u32) {
        i16::BITS
    }

    fn is_signed() -> (s: bool) {
        true
    }

    fn min_value() -> (m: Self) {
        proof {
            lemma_limits();
        }
        i16::MIN
    }

    fn max_value() -> (m: Self) {
        proof {
            lemma_limits();
        }
        i16::MAX
    }

    fn lt(self, other: Self) -> (b: bool) {
        self < other
    }

    fn raw_add(self, other: Self) -> (r: Self) {
        proof {
            lemma_limits();
        }
        self + other
    }

    fn raw_mul(self, other: Self) -> (r: Self) {
        proof {
            lemma_limits();
        }
        self * other
    }

    fn raw_div(self, other: Self) -> (r: Self) {
        proof {
            lemma_limits();
            lemma_trunc_div_machine(self as int, other as int);
        }
        self / other
    }

    fn shl(self, n: u32) -> (r: Self) {
        proof {
            lemma_limits();
            lemma_signed_shl(self, n);
        }
        self << n
    }

    fn shr(self, n: u32) -> (r: Self) {
        proof {
            lemma_signed_shr(self, n);
        }
        self >> n
    }

    fn to_i128(self) -> (r: i128) {
        self as i128
    }

    fn to_u128(self) -> (r: u128) {
        self as u128
    }

    fn from_i128(v: i128) -> (r: Self) {
        proof {
            lemma_limits();
        }
        v as i16
    }

    fn from_u128(v: u128) -> (r: Self) {
        proof {
            lemma_limits();
        }
        v as i16
    }
}

impl Fp for u16 {
    open spec fn width() -> nat {
        u16::BITS as nat
    }

    open spec fn signed() -> bool {
        false
    }

    open spec fn value(self) -> int {
        self as int
    }

    open spec fn of(v: int) -> Self {
        v as u16
    }

    proof fn lemma_value_of(v: int) {
        lemma_limits();
    }

    proof fn lemma_of_value(self) {
    }

    proof fn lemma_width() {
    }

    proof fn lemma_value_in_range(self) {
        lemma_limits();
    }

    fn bits() -> (b: u32) {
        u16::BITS
    }

    fn is_signed() -> (s: bool) {
        false
    }

    fn min_value() -> (m: Self) {
        u16::MIN
    }

    fn max_value() -> (m: Self) {
        proof {
            lemma_limits();
        }
        u16::MAX
    }

    fn lt(self, other: Self) -> (b: bool) {
        self < other
    }

    fn raw_add(self, other: Self) -> (r: Self) {
        proof {
            lemma_limits();
        }
        self + other
    }

    fn raw_mul(self, other: Self) -> (r: Self) {
        proof {
            lemma_limits();
        }
        self * other
    }

    fn raw_div(self, other: Self) -> (r: Self) {
        self / other
    }

    fn shl(self, n: u32) -> (r: Self) {
        proof {
            lemma_limits();
            lemma_unsigned_shl(self, n);
        }
        self << n
    }

    fn shr(self, n: u32) -> (r: Self) {
        proof {
            lemma_unsigned_shr(self, n);
        }
        self >> n
    }

    fn to_i128(self) -> (r: i128) {
        self as i128
    }

    fn to_u128(self) -> (r: u128) {
        self as u128
    }

    fn from_i128(v: i128) -> (r: Self) {
        proof {
            lemma_limits();
        }
        v as u16
    }

    fn from_u128(v: u128) -> (r: Self) {
        proof {
            lemma_limits();
        }
        v as u16
    }
}

impl ToSigned for i16 {
    type Signed = i16;

    proof fn lemma_signed() {
    }

    fn to_signed(self) -> (r: i16) {
        self
    }

    fn raw_sub(self, other: Self) -> (r: i16) {
        proof {
            lemma_limits();
        }
        self - other
    }

    fn raw_neg(self) -> (r: i16) {
        proof {
            lemma_limits();
        }
        -self
    }
}

impl ToSigned for u16 {
    type Signed = i16;

    proof fn lemma_signed() {
    }

    fn to_signed(self) -> (r: i16) {
        proof {
            lemma_limits();
        }
        self as i16
    }

    fn raw_sub(self, other: Self) -> (r: i16) {
        let wrapped = self.wrapping_sub(other);
        proof {
            lemma_limits();
            lemma_wrapped_difference(self, other, wrapped);
        }
        #[verifier::truncate]
        (wrapped as i16)
    }

    fn raw_neg(self) -> (r: i16) {
        let zero: u16 = 0;
        zero.raw_sub(self)
    }
}

impl ToUnsigned for i16 {
    type Unsigned = u16;

    proof fn lemma_unsigned() {
    }

    fn to_unsigned(self) -> (r: u16) {
        self as u16
    }

    fn from_unsigned(v: u16) -> (r: i16) {
        proof {
            lemma_limits();
        }
        v as i16
    }
}

} // verus!
