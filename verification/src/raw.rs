//! The raw containers: what a primitive integer type has to offer so that
//! fixed-point numbers can be stored in it.
use crate::bounds::{in_range, max_raw, min_raw, trunc_div};
use vstd::arithmetic::power2::pow2;
use vstd::prelude::*;

verus! {

/// A primitive integer type in which fixed-point numbers are stored.
///
/// Every such integer is itself a fixed-point number: one whose bits are all
/// significant and whose shift is 0. The operations below are the machine's
/// own; each demands that the exact result fits the type, and then returns it.
pub trait Fp: Copy + Sized {
    /// The number of bits of the type.
    spec fn width() -> nat;

    /// Whether the type is signed.
    spec fn signed() -> bool;

    /// The integer that `self` stands for.
    spec fn value(self) -> int;

    /// The value of the type that stands for the integer `v`, where there is
    /// one.
    spec fn of(v: int) -> Self;

    /// Every integer between the bounds of the type has a value that stands
    /// for it.
    proof fn lemma_value_of(v: int)
        requires
            in_range(Self::signed(), Self::width(), v),
        ensures
            Self::of(v).value() == v,
    ;

    /// A value is the one that stands for its integer: no two values stand
    /// for the same.
    proof fn lemma_of_value(self)
        ensures
            Self::of(self.value()) == self,
    ;

    /// The type has at least one bit and at most 128.
    proof fn lemma_width()
        ensures
            0 < Self::width() <= 128,
    ;

    /// The values of the type are raw values of the format that uses all of
    /// its bits.
    proof fn lemma_value_in_range(self)
        ensures
            in_range(Self::signed(), Self::width(), self.value()),
    ;

    /// The number of bits of the type.
    fn bits() -> (b: u32)
        ensures
            b == Self::width(),
    ;

    /// Whether the type is signed.
    fn is_signed() -> (s: bool)
        ensures
            s == Self::signed(),
    ;

    /// The smallest value of the type.
    fn min_value() -> (m: Self)
        ensures
            m.value() == min_raw(Self::signed(), Self::width()),
    ;

    /// The largest value of the type.
    fn max_value() -> (m: Self)
        ensures
            m.value() == max_raw(Self::signed(), Self::width()),
    ;

    /// Whether `self` is less than `other`.
    fn lt(self, other: Self) -> (b: bool)
        ensures
            b == (self.value() < other.value()),
    ;

    /// The sum of two values.
    fn raw_add(self, other: Self) -> (r: Self)
        requires
            in_range(Self::signed(), Self::width(), self.value() + other.value()),
        ensures
            r.value() == self.value() + other.value(),
    ;

    /// The product of two values.
    fn raw_mul(self, other: Self) -> (r: Self)
        requires
            in_range(Self::signed(), Self::width(), self.value() * other.value()),
        ensures
            r.value() == self.value() * other.value(),
    ;

    /// The quotient of two values, rounded toward zero.
    fn raw_div(self, other: Self) -> (r: Self)
        requires
            other.value() != 0,
            in_range(Self::signed(), Self::width(), trunc_div(self.value(), other.value())),
        ensures
            r.value() == trunc_div(self.value(), other.value()),
    ;

    /// `self` shifted left by `n` bits.
    fn shl(self, n: u32) -> (r: Self)
        requires
            n < Self::width(),
            in_range(Self::signed(), Self::width(), self.value() * pow2(n as nat)),
        ensures
            r.value() == self.value() * pow2(n as nat),
    ;

    /// `self` shifted right by `n` bits: divided by `2^n` and rounded down.
    fn shr(self, n: u32) -> (r: Self)
        requires
            n < Self::width(),
        ensures
            r.value() == self.value() / (pow2(n as nat) as int),
    ;

    /// The same value as an `i128`.
    fn to_i128(self) -> (r: i128)
        requires
            self.value() <= i128::MAX,
        ensures
            r == self.value(),
    ;

    /// The same value as a `u128`.
    fn to_u128(self) -> (r: u128)
        requires
            self.value() >= 0,
        ensures
            r == self.value(),
    ;

    /// The value of an `i128` that fits the type.
    fn from_i128(v: i128) -> (r: Self)
        requires
            in_range(Self::signed(), Self::width(), v as int),
        ensures
            r.value() == v,
    ;

    /// The value of a `u128` that fits the type.
    fn from_u128(v: u128) -> (r: Self)
        requires
            in_range(Self::signed(), Self::width(), v as int),
        ensures
            r.value() == v,
    ;
}

/// Whether `v` is a value of the raw container `T`.
pub open spec fn fits<T: Fp>(v: int) -> bool {
    in_range(T::signed(), T::width(), v)
}

/// A raw container together with the signed container of the same width, in
/// which its differences and negatives are stored.
pub trait ToSigned: Fp {
    /// The signed integer type of the same width.
    type Signed: Fp;

    /// `Signed` is signed and as wide as `Self`.
    proof fn lemma_signed()
        ensures
            Self::Signed::signed(),
            Self::Signed::width() == Self::width(),
    ;

    /// The same value in the signed type.
    fn to_signed(self) -> (r: Self::Signed)
        requires
            fits::<Self::Signed>(self.value()),
        ensures
            r.value() == self.value(),
    ;

    /// The difference of two values, in the signed type.
    fn raw_sub(self, other: Self) -> (r: Self::Signed)
        requires
            fits::<Self::Signed>(self.value() - other.value()),
        ensures
            r.value() == self.value() - other.value(),
    ;

    /// The negative of a value, in the signed type.
    fn raw_neg(self) -> (r: Self::Signed)
        requires
            fits::<Self::Signed>(-self.value()),
        ensures
            r.value() == -self.value(),
    ;
}

/// A signed raw container together with the unsigned container of the same
/// width.
pub trait ToUnsigned: Fp {
    /// The unsigned integer type of the same width.
    type Unsigned: Fp;

    /// `Self` is signed, and `Unsigned` is unsigned and as wide as `Self`.
    proof fn lemma_unsigned()
        ensures
            Self::signed(),
            !Self::Unsigned::signed(),
            Self::Unsigned::width() == Self::width(),
    ;

    /// The same value in the unsigned type.
    fn to_unsigned(self) -> (r: Self::Unsigned)
        requires
            self.value() >= 0,
        ensures
            r.value() == self.value(),
    ;

    /// The value of the unsigned type in the signed one.
    fn from_unsigned(v: Self::Unsigned) -> (r: Self)
        requires
            fits::<Self>(v.value()),
        ensures
            r.value() == v.value(),
    ;
}

} // verus!
