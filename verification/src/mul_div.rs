//! Multiplication and division: by a constant, by a number of the same
//! container, and across signedness.
use crate::bounds::{
    bit_length,
    div_const_bits,
    in_range,
    lemma_bit_length_le,
    lemma_div_closed,
    lemma_div_const_closed,
    lemma_fits_128,
    lemma_into_signed,
    lemma_neg_closed,
    lemma_mul_closed,
    lemma_mul_const_closed,
    lemma_range_widens,
    lemma_zero_in_range,
    mul_const_bits,
    product_bits,
    quotient_bits,
    trunc_div,
};
use crate::fp_impl::{Fixed, Number};
use crate::raw::{Fp, ToSigned, ToUnsigned};
use core::ops::{Div, Mul};
use vstd::arithmetic::div_mod::lemma_basic_div;
use vstd::arithmetic::power2::{lemma2_to64, lemma2_to64_rest, lemma_pow2_adds};
use vstd::prelude::*;
use vstd::std_specs::ops::{DivSpecImpl, MulSpecImpl};

verus! {

/// The number of bits that it takes to write `n`.
pub fn count_bits(n: u128) -> (k: u32)
    ensures
        k == bit_length(n as nat),
        k <= 128,
{
    proof {
        lemma2_to64();
        lemma2_to64_rest();
        lemma_pow2_adds(64, 64);
        lemma_bit_length_le(n as nat, 128);
    }
    let mut k: u32 = 0;
    let mut m: u128 = n;
    while m > 0
        invariant
            k + bit_length(m as nat) == bit_length(n as nat),
            bit_length(n as nat) <= 128,
        decreases m,
    {
        m = m / 2;
        k = k + 1;
    }
    k
}

impl<T: Fp> Fixed<T> {
    /// The bit-width of the product of a number of `bits` bits and the
    /// constant `val`.
    pub fn mul_const_bits(bits: u32, val: T) -> (r: u32)
        requires
            bits <= T::width(),
        ensures
            r == mul_const_bits(bits as nat, val.value()),
    {
        proof {
            T::lemma_width();
            val.lemma_value_in_range();
            lemma_fits_128(T::signed(), T::width(), val.value());
            lemma_zero_in_range(T::signed(), T::width());
        }
        let zero = T::from_u128(0);
        if val.lt(zero) {
            let below: i128 = -(val.to_i128() + 1);
            bits + count_bits(below as u128 + 1)
        } else if zero.lt(val) {
            bits + count_bits(val.to_u128() - 1)
        } else {
            0
        }
    }

    /// The product of a number and the constant `val`. It has the same shift,
    /// and `mul_const_bits` bits; its raw value is the number's, times `val`.
    pub fn mul_const(self, val: T) -> (r: Self)
        requires
            self.wf(),
            mul_const_bits(self@.bits, val.value()) <= T::width(),
        ensures
            r@ == (Number {
                raw: self@.raw * val.value(),
                bits: mul_const_bits(self@.bits, val.value()),
                shift: self@.shift,
            }),
            r.wf(),
    {
        proof {
            val.lemma_value_in_range();
            lemma_zero_in_range(T::signed(), T::width());
            lemma_mul_const_closed(T::signed(), self@.bits, self@.raw, val.value());
            lemma_range_widens(
                T::signed(),
                mul_const_bits(self@.bits, val.value()),
                T::width(),
                self@.raw * val.value(),
            );
        }
        Fixed::new_unchecked(
            self.raw().raw_mul(val),
            Self::mul_const_bits(self.bits(), val),
            self.shift(),
        )
    }

    /// The bit-width of the quotient of a number of `bits` bits by the
    /// constant `val`, which is not 0 and not too large for a number of that
    /// width to be divided by.
    pub fn div_const_bits(bits: u32, val: T) -> (r: u32)
        requires
            bits <= T::width(),
            val.value() != 0,
            div_const_bits(bits as nat, val.value()) >= 0,
        ensures
            r == div_const_bits(bits as nat, val.value()),
    {
        proof {
            T::lemma_width();
            val.lemma_value_in_range();
            lemma_fits_128(T::signed(), T::width(), val.value());
            lemma_zero_in_range(T::signed(), T::width());
        }
        let zero = T::from_u128(0);
        if val.lt(zero) {
            let below: i128 = -(val.to_i128() + 1);
            1 + bits - count_bits(below as u128)
        } else {
            1 + bits - count_bits(val.to_u128())
        }
    }

    /// The quotient of a number by the constant `val`, rounded toward zero.
    /// It has the same shift, and `div_const_bits` bits.
    pub fn div_const(self, val: T) -> (r: Self)
        requires
            self.wf(),
            val.value() != 0,
            0 <= div_const_bits(self@.bits, val.value()) <= T::width(),
        ensures
            r@ == (Number {
                raw: trunc_div(self@.raw, val.value()),
                bits: div_const_bits(self@.bits, val.value()) as nat,
                shift: self@.shift,
            }),
            r.wf(),
    {
        proof {
            val.lemma_value_in_range();
            lemma_zero_in_range(T::signed(), T::width());
            lemma_div_const_closed(T::signed(), self@.bits, self@.raw, val.value());
            lemma_range_widens(
                T::signed(),
                div_const_bits(self@.bits, val.value()) as nat,
                T::width(),
                trunc_div(self@.raw, val.value()),
            );
        }
        Fixed::new_unchecked(
            self.raw().raw_div(val),
            Self::div_const_bits(self.bits(), val),
            self.shift(),
        )
    }

    /// The product of two numbers of one container. Its bit-width is the sum
    /// of theirs, its shift the sum of theirs, its raw value the product of
    /// theirs.
    pub fn mul(self, other: Self) -> (r: Self)
        requires
            self.wf(),
            other.wf(),
            product_bits(self@.bits, other@.bits) <= T::width(),
            i32::MIN <= self@.shift + other@.shift <= i32::MAX,
        ensures
            r@ == (Number {
                raw: self@.raw * other@.raw,
                bits: product_bits(self@.bits, other@.bits),
                shift: self@.shift + other@.shift,
            }),
            r.wf(),
    {
        proof {
            T::lemma_width();
            lemma_mul_closed(
                T::signed(),
                self@.bits,
                T::signed(),
                other@.bits,
                self@.raw,
                other@.raw,
            );
            lemma_range_widens(
                T::signed(),
                product_bits(self@.bits, other@.bits),
                T::width(),
                self@.raw * other@.raw,
            );
        }
        Fixed::new_unchecked(
            self.raw().raw_mul(other.raw()),
            self.bits() + other.bits(),
            self.shift() + other.shift(),
        )
    }

    /// The quotient of two numbers of one container, rounded toward zero. Its
    /// shift is the difference of theirs. An unsigned quotient has the
    /// bit-width of the dividend; a signed one has one bit more, for the
    /// smallest number divided by -1.
    pub fn div(self, other: Self) -> (r: Self)
        requires
            self.wf(),
            other.wf(),
            other@.raw != 0,
            quotient_bits(self@.bits, T::signed()) <= T::width(),
            i32::MIN <= self@.shift - other@.shift <= i32::MAX,
        ensures
            r@ == (Number {
                raw: trunc_div(self@.raw, other@.raw),
                bits: quotient_bits(self@.bits, T::signed()),
                shift: self@.shift - other@.shift,
            }),
            r.wf(),
    {
        proof {
            T::lemma_width();
            lemma_div_closed(
                T::signed(),
                self@.bits,
                T::signed(),
                other@.bits,
                self@.raw,
                other@.raw,
            );
            lemma_range_widens(
                T::signed(),
                quotient_bits(self@.bits, T::signed()),
                T::width(),
                trunc_div(self@.raw, other@.raw),
            );
        }
        let bits = if T::is_signed() {
            self.bits() + 1
        } else {
            self.bits()
        };
        Fixed::new_unchecked(
            self.raw().raw_div(other.raw()),
            bits,
            self.shift() - other.shift(),
        )
    }
}

/// `a * b` is `a.mul(b)`.
impl<T: Fp> Mul for Fixed<T> {
    type Output = Fixed<T>;

    fn mul(self, other: Self) -> (r: Self)
        ensures
            r@ == (Number {
                raw: self@.raw * other@.raw,
                bits: product_bits(self@.bits, other@.bits),
                shift: self@.shift + other@.shift,
            }),
            r.wf(),
    {
        let r = Fixed::mul(self, other);
        proof {
            r.lemma_determined();
        }
        r
    }
}

/// What `a * b` demands, and the number that it gives.
impl<T: Fp> MulSpecImpl for Fixed<T> {
    open spec fn obeys_mul_spec() -> bool {
        true
    }

    open spec fn mul_req(self, other: Self) -> bool {
        &&& self.wf()
        &&& other.wf()
        &&& product_bits(self@.bits, other@.bits) <= T::width()
        &&& i32::MIN <= self@.shift + other@.shift <= i32::MAX
    }

    open spec fn mul_spec(self, other: Self) -> Self {
        Fixed::make(
            Number {
                raw: self@.raw * other@.raw,
                bits: product_bits(self@.bits, other@.bits),
                shift: self@.shift + other@.shift,
            },
        )
    }
}

/// `a / b` is `a.div(b)`.
impl<T: Fp> Div for Fixed<T> {
    type Output = Fixed<T>;

    fn div(self, other: Self) -> (r: Self)
        ensures
            r@ == (Number {
                raw: trunc_div(self@.raw, other@.raw),
                bits: quotient_bits(self@.bits, T::signed()),
                shift: self@.shift - other@.shift,
            }),
            r.wf(),
    {
        let r = Fixed::div(self, other);
        proof {
            r.lemma_determined();
        }
        r
    }
}

/// What `a / b` demands, and the number that it gives.
impl<T: Fp> DivSpecImpl for Fixed<T> {
    open spec fn obeys_div_spec() -> bool {
        true
    }

    open spec fn div_req(self, other: Self) -> bool {
        &&& self.wf()
        &&& other.wf()
        &&& other@.raw != 0
        &&& quotient_bits(self@.bits, T::signed()) <= T::width()
        &&& i32::MIN <= self@.shift - other@.shift <= i32::MAX
    }

    open spec fn div_spec(self, other: Self) -> Self {
        Fixed::make(
            Number {
                raw: trunc_div(self@.raw, other@.raw),
                bits: quotient_bits(self@.bits, T::signed()),
                shift: self@.shift - other@.shift,
            },
        )
    }
}

impl<T: ToSigned> Fixed<T> {
    /// The product of a number and a signed number of the same width. It is
    /// signed; its bit-width is the sum of theirs, its shift the sum of theirs,
    /// its raw value the product of theirs.
    pub fn mul_signed(self, other: Fixed<T::Signed>) -> (r: Fixed<T::Signed>)
        requires
            self.wf(),
            other.wf(),
            product_bits(self@.bits, other@.bits) <= T::width(),
            i32::MIN <= self@.shift + other@.shift <= i32::MAX,
        ensures
            r@ == (Number {
                raw: self@.raw * other@.raw,
                bits: product_bits(self@.bits, other@.bits),
                shift: self@.shift + other@.shift,
            }),
            r.wf(),
    {
        proof {
            T::lemma_width();
            T::lemma_signed();
            lemma_mul_closed(T::signed(), self@.bits, true, other@.bits, self@.raw, other@.raw);
            lemma_range_widens(
                true,
                product_bits(self@.bits, other@.bits),
                T::width(),
                self@.raw * other@.raw,
            );
            lemma_zero_in_range(true, other@.bits);
            if other@.bits > 0 {
                lemma_signed_operand::<T>(self@.bits, self@.raw);
            } else {
                assert(self@.raw * other@.raw == 0) by (nonlinear_arith)
                    requires
                        other@.raw == 0,
                ;
            }
        }
        let raw = if other.bits() == 0 {
            other.raw()
        } else {
            self.raw().to_signed().raw_mul(other.raw())
        };
        Fixed::new_unchecked(raw, self.bits() + other.bits(), self.shift() + other.shift())
    }

    /// The quotient of a number by a signed number of the same width, rounded
    /// toward zero. It is signed; it has one bit more than the dividend, and
    /// its shift is the difference of theirs.
    pub fn div_signed(self, other: Fixed<T::Signed>) -> (r: Fixed<T::Signed>)
        requires
            self.wf(),
            other.wf(),
            other@.raw != 0,
            quotient_bits(self@.bits, true) <= T::width(),
            i32::MIN <= self@.shift - other@.shift <= i32::MAX,
        ensures
            r@ == (Number {
                raw: trunc_div(self@.raw, other@.raw),
                bits: quotient_bits(self@.bits, true),
                shift: self@.shift - other@.shift,
            }),
            r.wf(),
    {
        proof {
            T::lemma_width();
            T::lemma_signed();
            lemma_div_closed(T::signed(), self@.bits, true, other@.bits, self@.raw, other@.raw);
            lemma_range_widens(
                true,
                quotient_bits(self@.bits, true),
                T::width(),
                trunc_div(self@.raw, other@.raw),
            );
            lemma_signed_operand::<T>(self@.bits, self@.raw);
        }
        Fixed::new_unchecked(
            self.raw().to_signed().raw_div(other.raw()),
            self.bits() + 1,
            self.shift() - other.shift(),
        )
    }
}

impl<T: ToUnsigned> Fixed<T> {
    /// The product of a signed number and an unsigned number of the same
    /// width. It is signed; its bit-width is the sum of theirs, its shift the
    /// sum of theirs, its raw value the product of theirs.
    pub fn mul_unsigned(self, other: Fixed<T::Unsigned>) -> (r: Self)
        requires
            self.wf(),
            other.wf(),
            product_bits(self@.bits, other@.bits) <= T::width(),
            i32::MIN <= self@.shift + other@.shift <= i32::MAX,
        ensures
            r@ == (Number {
                raw: self@.raw * other@.raw,
                bits: product_bits(self@.bits, other@.bits),
                shift: self@.shift + other@.shift,
            }),
            r.wf(),
    {
        proof {
            T::lemma_width();
            T::lemma_unsigned();
            lemma_mul_closed(true, self@.bits, false, other@.bits, self@.raw, other@.raw);
            lemma_range_widens(
                true,
                product_bits(self@.bits, other@.bits),
                T::width(),
                self@.raw * other@.raw,
            );
            lemma_zero_in_range(true, self@.bits);
            if self@.bits > 0 {
                lemma_into_signed(other@.bits, other@.raw);
                lemma_range_widens(true, other@.bits + 1, T::width(), other@.raw);
            } else {
                assert(self@.raw * other@.raw == 0) by (nonlinear_arith)
                    requires
                        self@.raw == 0,
                ;
            }
        }
        let raw = if self.bits() == 0 {
            self.raw()
        } else {
            self.raw().raw_mul(T::from_unsigned(other.raw()))
        };
        Fixed::new_unchecked(raw, self.bits() + other.bits(), self.shift() + other.shift())
    }

    /// The quotient of a signed number by an unsigned number of the same
    /// width, rounded toward zero. It is signed; it has one bit more than the
    /// dividend, and its shift is the difference of theirs.
    pub fn div_unsigned(self, other: Fixed<T::Unsigned>) -> (r: Self)
        requires
            self.wf(),
            other.wf(),
            other@.raw != 0,
            quotient_bits(self@.bits, true) <= T::width(),
            i32::MIN <= self@.shift - other@.shift <= i32::MAX,
        ensures
            r@ == (Number {
                raw: trunc_div(self@.raw, other@.raw),
                bits: quotient_bits(self@.bits, true),
                shift: self@.shift - other@.shift,
            }),
            r.wf(),
    {
        proof {
            T::lemma_width();
            T::lemma_unsigned();
            lemma_div_closed(true, self@.bits, false, other@.bits, self@.raw, other@.raw);
            lemma_range_widens(
                true,
                quotient_bits(self@.bits, true),
                T::width(),
                trunc_div(self@.raw, other@.raw),
            );
            lemma_zero_in_range(true, T::width());
            lemma_zero_in_range(false, other@.bits);
            lemma_range_widens(true, self@.bits, T::width(), self@.raw);
        }
        let limit = T::max_value().to_unsigned();
        let raw = if limit.lt(other.raw()) {
            proof {
                // The divisor is above every magnitude of the dividend.
                let a = if self@.raw >= 0 { self@.raw } else { -self@.raw };
                lemma_neg_closed(true, self@.bits, self@.raw);
                lemma_range_widens(true, self@.bits + 1, T::width(), -self@.raw);
                lemma_basic_div(a, other@.raw);
            }
            T::from_u128(0)
        } else {
            self.raw().raw_div(T::from_unsigned(other.raw()))
        };
        Fixed::new_unchecked(raw, self.bits() + 1, self.shift() - other.shift())
    }
}

/// An operand of a product or a quotient that is signed and at least one bit
/// wider fits the signed container.
proof fn lemma_signed_operand<T: ToSigned>(bits: nat, x: int)
    requires
        in_range(T::signed(), bits, x),
        bits + 1 <= T::width(),
    ensures
        in_range(true, T::Signed::width(), x),
{
    T::lemma_signed();
    if T::signed() {
        lemma_range_widens(true, bits, T::width(), x);
    } else {
        lemma_into_signed(bits, x);
        lemma_range_widens(true, bits + 1, T::width(), x);
    }
}

} // verus!
