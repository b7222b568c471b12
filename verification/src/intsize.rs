//! The raw containers of pointer width, `isize` and `usize`.
//!
//! The machine's shifts and the wrapped difference are taken in 64 bits, which
//! hold every value of pointer width.
use crate::bounds::{lemma_range_widens, lemma_shr_closed, lemma_trunc_div_machine};
use crate::raw::{Fp, ToSigned, ToUnsigned};
use vstd::arithmetic::power2::{lemma2_to64, lemma2_to64_rest, pow2};
use vstd::prelude::*;

verus! {

/// The powers of two that bound `isize` and `usize`.
proof fn lemma_limits()
    ensures
        pow2((isize::BITS - 1) as nat) == isize::MAX + 1,
        pow2(usize::BITS as nat) == usize::MAX + 1,
        isize::MIN == -isize::MAX - 1,
        isize::BITS == usize::BITS,
        usize::BITS <= 64,
{
    lemma2_to64();
    lemma2_to64_rest();
}

impl Fp for isize {
    open spec fn width() -> nat {
        isize::BITS as nat
    }

    open spec fn signed() -> bool {
        true
    }

    open spec fn value(self) -> int {
        self as int
    }

    open spec fn of(v: int) -> Self {
        v as isize
    }

    proof fn lemma_value_of(v: int) {
        lemma_limits();
    }

    proof fn lemma_of_value(self) {
    }

    proof fn lemma_width() {
    }

    proof fn lemma_value_in_range(self) {
        lemma_limits();
    }

    fn bits() -> (b: u32) {
        isize::BITS
    }

    fn is_signed() -> (s: bool) {
        true
    }

    fn min_value() -> (m: Self) {
        proof {
            lemma_limits();
        }
        isize::MIN
    }

    fn max_value() -> (m: Self) {
        proof {
            lemma_limits();
        }
        isize::MAX
    }

    fn lt(self, other: Self) -> (b: bool) {
        self < other
    }

    fn raw_add(self, other: Self) -> (r: Self) {
        proof {
            lemma_limits();
        }
        self + other
    }

    fn raw_mul(self, other: Self) -> (r: Self) {
        proof {
            lemma_limits();
        }
        self * other
    }

    fn raw_div(self, other: Self) -> (r: Self) {
        proof {
            lemma_limits();
            lemma_trunc_div_machine(self as int, other as int);
        }
        self / other
    }

    fn shl(self, n: u32) -> (r: Self) {
        proof {
            lemma_limits();
            lemma_range_widens(true, isize::BITS as nat, 64, self * pow2(n as nat));
        }
        let wide = <i64 as Fp>::shl(self as i64, n);
        wide as isize
    }

    fn shr(self, n: u32) -> (r: Self) {
        proof {
            lemma_limits();
            let w = isize::BITS as nat;
            lemma_shr_closed(true, w, n as nat, self as int);
            lemma_range_widens(true, (w - n) as nat, w, (self as int) / (pow2(n as nat) as int));
        }
        let wide = <i64 as Fp>::shr(self as i64, n);
        wide as isize
    }

    fn to_i128(self) -> (r: i128) {
        self as i128
    }

    fn to_u128(self) -> (r: u128) {
        self as u128
    }

    fn from_i128(v: i128) -> (r: Self) {
        proof {
            lemma_limits();
        }
        v as isize
    }

    fn from_u128(v: u128) -> (r: Self) {
        proof {
            lemma_limits();
        }
        v as isize
    }
}

impl Fp for usize {
    open spec fn width() -> nat {
        usize::BITS as nat
    }

    open spec fn signed() -> bool {
        false
    }

    open spec fn value(self) -> int {
        self as int
    }

    open spec fn of(v: int) -> Self {
        v as usize
    }

    proof fn lemma_value_of(v: int) {
        lemma_limits();
    }

    proof fn lemma_of_value(self) {
    }

    proof fn lemma_width() {
    }

    proof fn lemma_value_in_range(self) {
        lemma_limits();
    }

    fn bits() -> (b: u32) {
        usize::BITS
    }

    fn is_signed() -> (s: bool) {
        false
    }

    fn min_value() -> (m: Self) {
        usize::MIN
    }

    fn max_value() -> (m: Self) {
        proof {
            lemma_limits();
        }
        usize::MAX
    }

    fn lt(self, other: Self) -> (b: bool) {
        self < other
    }

    fn raw_add(self, other: Self) -> (r: Self) {
        proof {
            lemma_limits();
        }
        self + other
    }

    fn raw_mul(self, other: Self) -> (r: Self) {
        proof {
            lemma_limits();
        }
        self * other
    }

    fn raw_div(self, other: Self) -> (r: Self) {
        self / other
    }

    fn shl(self, n: u32) -> (r: Self) {
        proof {
            lemma_limits();
            lemma_range_widens(false, usize::BITS as nat, 64, self * pow2(n as nat));
        }
        let wide = <u64 as Fp>::shl(self as u64, n);
        wide as usize
    }

    fn shr(self, n: u32) -> (r: Self) {
        proof {
            lemma_limits();
            let w = usize::BITS as nat;
            lemma_shr_closed(false, w, n as nat, self as int);
            lemma_range_widens(false, (w - n) as nat, w, (self as int) / (pow2(n as nat) as int));
        }
        let wide = <u64 as Fp>::shr(self as u64, n);
        wide as usize
    }

    fn to_i128(self) -> (r: i128) {
        self as i128
    }

    fn to_u128(self) -> (r: u128) {
        self as u128
    }

    fn from_i128(v: i128) -> (r: Self) {
        proof {
            lemma_limits();
        }
        v as usize
    }

    fn from_u128(v: u128) -> (r: Self) {
        proof {
            lemma_limits();
        }
        v as usize
    }
}

impl ToSigned for isize {
    type Signed = isize;

    proof fn lemma_signed() {
    }

    fn to_signed(self) -> (r: isize) {
        self
    }

    fn raw_sub(self, other: Self) -> (r: isize) {
        proof {
            lemma_limits();
        }
        self - other
    }

    fn raw_neg(self) -> (r: isize) {
        proof {
            lemma_limits();
        }
        -self
    }
}

impl ToSigned for usize {
    type Signed = isize;

    proof fn lemma_signed() {
    }

    fn to_signed(self) -> (r: isize) {
        proof {
            lemma_limits();
        }
        self as isize
    }

    fn raw_sub(self, other: Self) -> (r: isize) {
        proof {
            lemma_limits();
            lemma_range_widens(true, isize::BITS as nat, 64, self - other);
        }
        let wide = <u64 as ToSigned>::raw_sub(self as u64, other as u64);
        wide as isize
    }

    fn raw_neg(self) -> (r: isize) {
        let zero: usize = 0;
        zero.raw_sub(self)
    }
}

impl ToUnsigned for isize {
    type Unsigned = usize;

    proof fn lemma_unsigned() {
    }

    fn to_unsigned(self) -> (r: usize) {
        self as usize
    }

    fn from_unsigned(v: usize) -> (r: isize) {
        proof {
            lemma_limits();
        }
        v as isize
    }
}

} // verus!
