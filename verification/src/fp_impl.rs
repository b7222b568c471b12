//! The fixed-point number: a raw integer that carries its bit-width and its
//! shift, with the range-checked ways to make one and to change its format.
use crate::bounds::{
    clamp,
    in_range,
    lemma_bounds_by_shift,
    lemma_fits_128,
    lemma_into_signed,
    lemma_into_unsigned,
    lemma_range_widens,
    lemma_shl_closed,
    lemma_shr_closed,
    lemma_zero_in_range,
    magnitude_below,
    max_raw,
    min_raw,
};
use crate::raw::{Fp, ToSigned, ToUnsigned};
use crate::RangeError;
use vstd::arithmetic::power2::pow2;
use vstd::prelude::*;
use vstd::std_specs::convert::FromSpecImpl;

verus! {

/// What a fixed-point number is, mathematically: the raw integer, the number
/// of its low-order bits that may vary, and the shift. The number it stands for
/// is `raw / 2^shift`.
pub struct Number {
    /// The raw value.
    pub raw: int,
    /// The bit-width.
    pub bits: nat,
    /// The shift.
    pub shift: int,
}

impl Number {
    /// Whether two descriptions stand for the same logical value, which is
    /// `raw / 2^shift`: the raw value of the one with the smaller shift, times
    /// two to the difference of the shifts, is the raw value of the other.
    pub open spec fn same_value(self, other: Number) -> bool {
        if self.shift <= other.shift {
            self.raw * pow2((other.shift - self.shift) as nat) == other.raw
        } else {
            self.raw == other.raw * pow2((self.shift - other.shift) as nat)
        }
    }
}

/// A fixed-point number stored in the raw container `T`.
///
/// Numbers of one format are ordered as their raw values are, which is the
/// order of their logical values.
#[derive(Clone, Copy, Debug, PartialEq, Eq, PartialOrd, Ord)]
pub struct Fixed<T: Fp> {
    raw: T,
    bits: u32,
    shift: i32,
}

/// A fixed-point number stored in an `i8`.
pub type I8 = Fixed<i8>;

/// A fixed-point number stored in a `u8`.
pub type U8 = Fixed<u8>;

/// A fixed-point number stored in an `i16`.
pub type I16 = Fixed<i16>;

/// A fixed-point number stored in a `u16`.
pub type U16 = Fixed<u16>;

/// A fixed-point number stored in an `i32`.
pub type I32 = Fixed<i32>;

/// A fixed-point number stored in a `u32`.
pub type U32 = Fixed<u32>;

/// A fixed-point number stored in an `i64`.
pub type I64 = Fixed<i64>;

/// A fixed-point number stored in a `u64`.
pub type U64 = Fixed<u64>;

/// A fixed-point number stored in an `i128`.
pub type I128 = Fixed<i128>;

/// A fixed-point number stored in a `u128`.
pub type U128 = Fixed<u128>;

/// A fixed-point number stored in an `isize`.
pub type Isize = Fixed<isize>;

/// A fixed-point number stored in a `usize`.
pub type Usize = Fixed<usize>;

impl<T: Fp> View for Fixed<T> {
    type V = Number;

    closed spec fn view(&self) -> Number {
        Number { raw: self.raw.value(), bits: self.bits as nat, shift: self.shift as int }
    }
}

impl<T: Fp> Fixed<T> {
    /// The invariant of every fixed-point number: its bit-width is at most the
    /// container's, and its raw value lies between the bounds of its format.
    /// So the bits above the low `bits` ones are all zero in an unsigned
    /// number, all equal to the sign in a signed one, and a number of no bits
    /// is zero.
    pub open spec fn wf(self) -> bool {
        &&& self@.bits <= T::width()
        &&& in_range(T::signed(), self@.bits, self@.raw)
    }

    /// The number, stored in `T`, that `n` describes.
    pub closed spec fn make(n: Number) -> Self {
        Fixed { raw: T::of(n.raw), bits: n.bits as u32, shift: n.shift as i32 }
    }

    /// What describes a number of the container `T` makes that number.
    pub proof fn lemma_make(n: Number)
        requires
            n.bits <= T::width(),
            in_range(T::signed(), n.bits, n.raw),
            i32::MIN <= n.shift <= i32::MAX,
        ensures
            Self::make(n)@ == n,
            Self::make(n).wf(),
    {
        T::lemma_width();
        lemma_range_widens(T::signed(), n.bits, T::width(), n.raw);
        T::lemma_value_of(n.raw);
    }

    /// A number is the one that its description makes: no two numbers in one
    /// container have the same raw value, bit-width and shift.
    pub proof fn lemma_determined(self)
        ensures
            self == Self::make(self@),
    {
        self.raw.lemma_of_value();
    }

    /// Whether the type is signed.
    pub fn signed() -> (s: bool)
        ensures
            s == T::signed(),
    {
        T::is_signed()
    }

    /// The smallest number of `bits` bits.
    pub fn min(bits: u32, shift: i32) -> (r: Self)
        requires
            bits <= T::width(),
        ensures
            r@ == (Number { raw: min_raw(T::signed(), bits as nat), bits: bits as nat, shift: shift as int }),
            r.wf(),
    {
        proof {
            lemma_zero_in_range(T::signed(), T::width());
            lemma_zero_in_range(T::signed(), bits as nat);
            if bits > 0 {
                lemma_bounds_by_shift(T::signed(), T::width(), bits as nat);
            }
        }
        let raw = if bits == 0 {
            T::from_u128(0)
        } else {
            T::min_value().shr(T::bits() - bits)
        };
        Fixed { raw, bits, shift }
    }

    /// The largest number of `bits` bits.
    pub fn max(bits: u32, shift: i32) -> (r: Self)
        requires
            bits <= T::width(),
        ensures
            r@ == (Number { raw: max_raw(T::signed(), bits as nat), bits: bits as nat, shift: shift as int }),
            r.wf(),
    {
        proof {
            lemma_zero_in_range(T::signed(), T::width());
            lemma_zero_in_range(T::signed(), bits as nat);
            if bits > 0 {
                lemma_bounds_by_shift(T::signed(), T::width(), bits as nat);
            }
        }
        let raw = if bits == 0 {
            T::from_u128(0)
        } else {
            T::max_value().shr(T::bits() - bits)
        };
        Fixed { raw, bits, shift }
    }

    /// Takes `val` as the raw value of a number of `bits` bits, without a
    /// check: the caller has shown that it lies between the bounds.
    pub fn new_unchecked(val: T, bits: u32, shift: i32) -> (r: Self)
        requires
            bits <= T::width(),
            in_range(T::signed(), bits as nat, val.value()),
        ensures
            r@ == (Number { raw: val.value(), bits: bits as nat, shift: shift as int }),
            r.wf(),
    {
        Fixed { raw: val, bits, shift }
    }

    /// Takes `val` as the raw value of a number of `bits` bits, or says on
    /// which side of the format's bounds it lies.
    pub fn new(val: T, bits: u32, shift: i32) -> (r: Result<Self, RangeError>)
        requires
            bits <= T::width(),
        ensures
            match r {
                Ok(x) => in_range(T::signed(), bits as nat, val.value()) && x.wf() && x@ == (Number {
                    raw: val.value(),
                    bits: bits as nat,
                    shift: shift as int,
                }),
                Err(RangeError::TooSmall) => val.value() < min_raw(T::signed(), bits as nat),
                Err(RangeError::TooLarge) => val.value() > max_raw(T::signed(), bits as nat),
            },
    {
        if val.lt(Self::min(bits, shift).raw) {
            Err(RangeError::TooSmall)
        } else if Self::max(bits, shift).raw.lt(val) {
            Err(RangeError::TooLarge)
        } else {
            Ok(Self::new_unchecked(val, bits, shift))
        }
    }

    /// Takes the integer `val` as the raw value of a number of `bits` bits, or
    /// says on which side of the format's bounds it lies. It is `new` for a raw
    /// value that is not yet in the container: one that was computed in 128
    /// bits, or read from elsewhere.
    pub fn from_i128(val: i128, bits: u32, shift: i32) -> (r: Result<Self, RangeError>)
        requires
            bits <= T::width(),
        ensures
            match r {
                Ok(x) => in_range(T::signed(), bits as nat, val as int) && x.wf() && x@ == (Number {
                    raw: val as int,
                    bits: bits as nat,
                    shift: shift as int,
                }),
                Err(RangeError::TooSmall) => val < min_raw(T::signed(), bits as nat),
                Err(RangeError::TooLarge) => val > max_raw(T::signed(), bits as nat),
            },
    {
        proof {
            lemma_zero_in_range(T::signed(), bits as nat);
        }
        if T::is_signed() {
            Self::from_wide_signed(val, bits, shift)
        } else if val < 0 {
            Err(RangeError::TooSmall)
        } else {
            Self::from_wide_unsigned(val as u128, bits, shift)
        }
    }

    /// As `from_i128`, for an integer that is not negative.
    pub fn from_u128(val: u128, bits: u32, shift: i32) -> (r: Result<Self, RangeError>)
        requires
            bits <= T::width(),
        ensures
            match r {
                Ok(x) => in_range(T::signed(), bits as nat, val as int) && x.wf() && x@ == (Number {
                    raw: val as int,
                    bits: bits as nat,
                    shift: shift as int,
                }),
                Err(RangeError::TooSmall) => val < min_raw(T::signed(), bits as nat),
                Err(RangeError::TooLarge) => val > max_raw(T::signed(), bits as nat),
            },
    {
        proof {
            T::lemma_width();
            lemma_zero_in_range(T::signed(), bits as nat);
            if T::signed() && val > i128::MAX {
                lemma_range_widens(true, bits as nat, T::width(), max_raw(true, bits as nat));
                lemma_fits_128(true, T::width(), max_raw(true, bits as nat));
            }
        }
        if !T::is_signed() {
            Self::from_wide_unsigned(val, bits, shift)
        } else if val > i128::MAX as u128 {
            Err(RangeError::TooLarge)
        } else {
            Self::from_wide_signed(val as i128, bits, shift)
        }
    }

    /// `from_i128` for a signed container.
    fn from_wide_signed(val: i128, bits: u32, shift: i32) -> (r: Result<Self, RangeError>)
        requires
            T::signed(),
            bits <= T::width(),
        ensures
            match r {
                Ok(x) => in_range(true, bits as nat, val as int) && x.wf() && x@ == (Number {
                    raw: val as int,
                    bits: bits as nat,
                    shift: shift as int,
                }),
                Err(RangeError::TooSmall) => val < min_raw(true, bits as nat),
                Err(RangeError::TooLarge) => val > max_raw(true, bits as nat),
            },
    {
        let lo = Self::min(bits, shift);
        let hi = Self::max(bits, shift);
        proof {
            T::lemma_width();
            lemma_range_widens(true, bits as nat, T::width(), lo@.raw);
            lemma_range_widens(true, bits as nat, T::width(), hi@.raw);
            lemma_fits_128(true, T::width(), lo@.raw);
            lemma_fits_128(true, T::width(), hi@.raw);
            if lo@.raw <= val <= hi@.raw {
                lemma_range_widens(true, bits as nat, T::width(), val as int);
            }
        }
        if val < lo.raw.to_i128() {
            Err(RangeError::TooSmall)
        } else if val > hi.raw.to_i128() {
            Err(RangeError::TooLarge)
        } else {
            Ok(Self::new_unchecked(T::from_i128(val), bits, shift))
        }
    }

    /// `from_u128` for an unsigned container.
    fn from_wide_unsigned(val: u128, bits: u32, shift: i32) -> (r: Result<Self, RangeError>)
        requires
            !T::signed(),
            bits <= T::width(),
        ensures
            match r {
                Ok(x) => in_range(false, bits as nat, val as int) && x.wf() && x@ == (Number {
                    raw: val as int,
                    bits: bits as nat,
                    shift: shift as int,
                }),
                Err(RangeError::TooSmall) => false,
                Err(RangeError::TooLarge) => val > max_raw(false, bits as nat),
            },
    {
        let hi = Self::max(bits, shift);
        proof {
            T::lemma_width();
            lemma_zero_in_range(false, bits as nat);
            lemma_range_widens(false, bits as nat, T::width(), hi@.raw);
            lemma_fits_128(false, T::width(), hi@.raw);
            if val <= hi@.raw {
                lemma_range_widens(false, bits as nat, T::width(), val as int);
            }
        }
        if val > hi.raw.to_u128() {
            Err(RangeError::TooLarge)
        } else {
            Ok(Self::new_unchecked(T::from_u128(val), bits, shift))
        }
    }

    /// The raw value.
    pub fn raw(self) -> (r: T)
        ensures
            r.value() == self@.raw,
    {
        self.raw
    }

    /// The number of low-order bits of the raw value that may vary.
    pub fn bits(self) -> (b: u32)
        ensures
            b == self@.bits,
    {
        self.bits
    }

    /// The shift: the number stands for its raw value divided by `2^shift`.
    pub fn shift(self) -> (s: i32)
        ensures
            s == self@.shift,
    {
        self.shift
    }

    /// Whether the logical value of every number of this one's format lies
    /// below `2^max_exp` in magnitude: the test to make before the number is
    /// turned into a binary floating-point value whose largest exponent is
    /// `max_exp`, which would otherwise be infinite.
    pub fn magnitude_below(self, max_exp: i32) -> (b: bool)
        ensures
            b == magnitude_below(T::signed(), self@.bits, self@.shift, max_exp as int),
    {
        let sign: i64 = if T::is_signed() {
            1
        } else {
            0
        };
        self.bits as i64 - self.shift as i64 - sign <= max_exp as i64
    }

    /// The integer `val` as a fixed-point number: all bits of the container
    /// are significant, and the shift is 0.
    pub fn from_raw(val: T) -> (r: Self)
        ensures
            r@ == (Number { raw: val.value(), bits: T::width(), shift: 0 }),
            r.wf(),
    {
        proof {
            T::lemma_width();
            val.lemma_value_in_range();
        }
        Fixed { raw: val, bits: T::bits(), shift: 0 }
    }

    /// The number of `bits` bits, stored in `T`, that has the raw value and the
    /// shift of `val`. The two containers have the same signedness, and `bits`
    /// is at least the bit-width of `val`: so the value always fits, and is
    /// never rescaled.
    pub fn from_fp<U: Fp>(val: Fixed<U>, bits: u32) -> (r: Self)
        requires
            val.wf(),
            U::signed() == T::signed(),
            val@.bits <= bits <= T::width(),
        ensures
            r@ == (Number { raw: val@.raw, bits: bits as nat, shift: val@.shift }),
            r.wf(),
    {
        proof {
            T::lemma_width();
            lemma_range_widens(T::signed(), val@.bits, bits as nat, val@.raw);
            lemma_range_widens(T::signed(), bits as nat, T::width(), val@.raw);
            lemma_fits_128(T::signed(), T::width(), val@.raw);
        }
        let raw = if T::is_signed() {
            T::from_i128(val.raw.to_i128())
        } else {
            T::from_u128(val.raw.to_u128())
        };
        Fixed { raw, bits, shift: val.shift }
    }

    /// The number of `bits` bits, stored in `U`, that has the raw value and the
    /// shift of `self`: `from_fp` seen from the source.
    pub fn into_fp<U: Fp>(self, bits: u32) -> (r: Fixed<U>)
        requires
            self.wf(),
            U::signed() == T::signed(),
            self@.bits <= bits <= U::width(),
        ensures
            r@ == (Number { raw: self@.raw, bits: bits as nat, shift: self@.shift }),
            r.wf(),
    {
        Fixed::<U>::from_fp(self, bits)
    }

    /// The same number with `n` more bits: neither the raw nor the logical
    /// value changes.
    pub fn add_bits(self, n: u32) -> (r: Self)
        requires
            self.wf(),
            self@.bits + (n as nat) <= T::width(),
        ensures
            r@ == (Number { raw: self@.raw, bits: self@.bits + (n as nat), shift: self@.shift }),
            r.wf(),
    {
        proof {
            T::lemma_width();
            lemma_range_widens(T::signed(), self@.bits, self@.bits + (n as nat), self@.raw);
        }
        Fixed { raw: self.raw, bits: self.bits + n, shift: self.shift }
    }

    /// The same number with `n` bits, where its raw value is one of `n` bits;
    /// otherwise the side on which it lies.
    pub fn set_bits(self, n: u32) -> (r: Result<Self, RangeError>)
        requires
            n <= T::width(),
        ensures
            match r {
                Ok(x) => in_range(T::signed(), n as nat, self@.raw) && x.wf() && x@ == (Number {
                    raw: self@.raw,
                    bits: n as nat,
                    shift: self@.shift,
                }),
                Err(RangeError::TooSmall) => self@.raw < min_raw(T::signed(), n as nat),
                Err(RangeError::TooLarge) => self@.raw > max_raw(T::signed(), n as nat),
            },
    {
        Self::new(self.raw, n, self.shift)
    }

    /// The same number with `n` bits, without a check: the caller has shown
    /// that its raw value is one of `n` bits.
    pub fn set_bits_unchecked(self, n: u32) -> (r: Self)
        requires
            n <= T::width(),
            in_range(T::signed(), n as nat, self@.raw),
        ensures
            r@ == (Number { raw: self@.raw, bits: n as nat, shift: self@.shift }),
            r.wf(),
    {
        Self::new_unchecked(self.raw, n, self.shift)
    }

    /// The number of `n` bits that lies nearest to `self`: `self` where its raw
    /// value is one of `n` bits, else the smallest or the largest such number.
    pub fn saturate(self, n: u32) -> (r: Self)
        requires
            n <= T::width(),
        ensures
            r@ == (Number {
                raw: clamp(self@.raw, min_raw(T::signed(), n as nat), max_raw(T::signed(), n as nat)),
                bits: n as nat,
                shift: self@.shift,
            }),
            r.wf(),
    {
        match Self::new(self.raw, n, self.shift) {
            Err(RangeError::TooSmall) => Self::min(n, self.shift),
            Err(RangeError::TooLarge) => Self::max(n, self.shift),
            Ok(val) => val,
        }
    }

    /// The number multiplied by `2^n`: the raw value stays, the shift goes
    /// down by `n` (up, where `n` is negative).
    pub fn logical_shl(self, n: i32) -> (r: Self)
        requires
            self.wf(),
            i32::MIN <= self@.shift - n <= i32::MAX,
        ensures
            r@ == (Number { raw: self@.raw, bits: self@.bits, shift: self@.shift - n }),
            r.wf(),
    {
        Fixed { raw: self.raw, bits: self.bits, shift: self.shift - n }
    }

    /// The number divided by `2^n`: the raw value stays, the shift goes up by
    /// `n` (down, where `n` is negative).
    pub fn logical_shr(self, n: i32) -> (r: Self)
        requires
            self.wf(),
            i32::MIN <= self@.shift + n <= i32::MAX,
        ensures
            r@ == (Number { raw: self@.raw, bits: self@.bits, shift: self@.shift + n }),
            r.wf(),
    {
        Fixed { raw: self.raw, bits: self.bits, shift: self.shift + n }
    }

    /// The same logical value with the raw value shifted left by `n` bits: the
    /// bit-width and the shift both go up by `n`.
    pub fn raw_shl(self, n: u32) -> (r: Self)
        requires
            self.wf(),
            self@.bits + (n as nat) <= T::width(),
            self@.shift + n <= i32::MAX,
        ensures
            r@ == (Number {
                raw: self@.raw * pow2(n as nat),
                bits: self@.bits + (n as nat),
                shift: self@.shift + n,
            }),
            self@.same_value(r@),
            r.wf(),
    {
        proof {
            T::lemma_width();
            lemma_shl_closed(T::signed(), self@.bits, n as nat, self@.raw);
            lemma_range_widens(
                T::signed(),
                self@.bits + (n as nat),
                T::width(),
                self@.raw * pow2(n as nat),
            );
            lemma_zero_in_range(T::signed(), self@.bits);
            if self@.bits == 0 {
                assert(self@.raw * pow2(n as nat) == 0) by (nonlinear_arith)
                    requires
                        self@.raw == 0,
                ;
            }
        }
        let raw = if self.bits == 0 {
            self.raw
        } else {
            self.raw.shl(n)
        };
        Fixed { raw, bits: self.bits + n, shift: self.shift + (n as i32) }
    }

    /// The raw value shifted right by `n` bits, which drops its `n` low bits:
    /// the bit-width and the shift both go down by `n`. Where that leaves no
    /// bit, the number must not be negative, since a negative raw value never
    /// shifts to 0.
    pub fn raw_shr(self, n: u32) -> (r: Self)
        requires
            self.wf(),
            n <= self@.bits,
            n < self@.bits || self@.raw >= 0,
            self@.shift - n >= i32::MIN,
        ensures
            r@ == (Number {
                raw: self@.raw / (pow2(n as nat) as int),
                bits: (self@.bits - n) as nat,
                shift: self@.shift - n,
            }),
            r.wf(),
    {
        proof {
            T::lemma_width();
            lemma_shr_closed(T::signed(), self@.bits, n as nat, self@.raw);
            lemma_zero_in_range(T::signed(), T::width());
            lemma_zero_in_range(T::signed(), (self@.bits - n) as nat);
        }
        let raw = if n == self.bits {
            T::from_u128(0)
        } else {
            self.raw.shr(n)
        };
        Fixed { raw, bits: self.bits - n, shift: self.shift - (n as i32) }
    }
}

/// `Fixed::from(val)` is `Fixed::from_raw(val)`.
impl<T: Fp> From<T> for Fixed<T> {
    fn from(val: T) -> (r: Self)
        ensures
            r@ == (Number { raw: val.value(), bits: T::width(), shift: 0 }),
            r.wf(),
    {
        let r = Fixed::from_raw(val);
        proof {
            r.lemma_determined();
        }
        r
    }
}

impl<T: Fp> FromSpecImpl<T> for Fixed<T> {
    open spec fn obeys_from_spec() -> bool {
        true
    }

    open spec fn from_spec(val: T) -> Self {
        Fixed::make(Number { raw: val.value(), bits: T::width(), shift: 0 })
    }
}

impl<T: ToSigned> Fixed<T> {
    /// The same number in the signed container, with one bit more for the
    /// sign.
    pub fn into_signed(self) -> (r: Fixed<T::Signed>)
        requires
            self.wf(),
            self@.bits + 1 <= T::width(),
        ensures
            r@ == (Number { raw: self@.raw, bits: self@.bits + 1, shift: self@.shift }),
            r.wf(),
    {
        proof {
            T::lemma_width();
            T::lemma_signed();
            if T::signed() {
                lemma_range_widens(true, self@.bits, self@.bits + 1, self@.raw);
            } else {
                lemma_into_signed(self@.bits, self@.raw);
            }
            lemma_range_widens(true, self@.bits + 1, T::width(), self@.raw);
        }
        Fixed { raw: self.raw.to_signed(), bits: self.bits + 1, shift: self.shift }
    }
}

impl<T: ToUnsigned> Fixed<T> {
    /// The same number in the unsigned container, with one bit less, without a
    /// check: the caller has shown that it is not negative.
    pub fn into_unsigned_unchecked(self) -> (r: Fixed<T::Unsigned>)
        requires
            self.wf(),
            self@.bits >= 1,
            self@.raw >= 0,
        ensures
            r@ == (Number { raw: self@.raw, bits: (self@.bits - 1) as nat, shift: self@.shift }),
            r.wf(),
    {
        proof {
            T::lemma_unsigned();
            lemma_into_unsigned(self@.bits, self@.raw);
        }
        Fixed { raw: self.raw.to_unsigned(), bits: self.bits - 1, shift: self.shift }
    }

    /// The same number in the unsigned container, with one bit less; none
    /// where the number is negative.
    pub fn into_unsigned(self) -> (r: Option<Fixed<T::Unsigned>>)
        requires
            self.wf(),
            self@.bits >= 1,
        ensures
            match r {
                Some(x) => self@.raw >= 0 && x.wf() && x@ == (Number {
                    raw: self@.raw,
                    bits: (self@.bits - 1) as nat,
                    shift: self@.shift,
                }),
                None => self@.raw < 0,
            },
    {
        proof {
            lemma_zero_in_range(T::signed(), T::width());
        }
        if self.raw.lt(T::from_u128(0)) {
            None
        } else {
            Some(self.into_unsigned_unchecked())
        }
    }
}

} // verus!
