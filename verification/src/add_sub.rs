//! Addition, subtraction and negation.
use crate::bounds::{
    lemma_add_closed,
    lemma_neg_closed,
    lemma_range_widens,
    lemma_sub_closed,
    sum_bits,
    wider,
};
use crate::fp_impl::{Fixed, Number};
use crate::raw::{Fp, ToSigned};
use core::ops::{Add, Neg, Sub};
use vstd::prelude::*;
use vstd::std_specs::ops::{AddSpecImpl, NegSpecImpl, SubSpecImpl};

verus! {

/// The larger of two bit-widths.
pub fn max(a: u32, b: u32) -> (m: u32)
    ensures
        m == wider(a as nat, b as nat),
{
    if a > b {
        a
    } else {
        b
    }
}

impl<T: Fp> Fixed<T> {
    /// The sum of two numbers of the same shift. It has that shift, and one
    /// bit more than the wider of the two; its raw value is the sum of theirs.
    pub fn add(self, other: Self) -> (r: Self)
        requires
            self.wf(),
            other.wf(),
            self@.shift == other@.shift,
            sum_bits(self@.bits, other@.bits) <= T::width(),
        ensures
            r@ == (Number {
                raw: self@.raw + other@.raw,
                bits: sum_bits(self@.bits, other@.bits),
                shift: self@.shift,
            }),
            r.wf(),
    {
        proof {
            T::lemma_width();
            let bits = sum_bits(self@.bits, other@.bits);
            lemma_add_closed(T::signed(), self@.bits, other@.bits, self@.raw, other@.raw);
            lemma_range_widens(T::signed(), bits, T::width(), self@.raw + other@.raw);
        }
        Fixed::new_unchecked(
            self.raw().raw_add(other.raw()),
            max(self.bits(), other.bits()) + 1,
            self.shift(),
        )
    }
}

impl<T: ToSigned> Fixed<T> {
    /// The difference of two numbers of the same shift. It is signed, whatever
    /// the operands are; it has their shift, and one bit more than the wider of
    /// the two; its raw value is the difference of theirs.
    pub fn sub(self, other: Self) -> (r: Fixed<T::Signed>)
        requires
            self.wf(),
            other.wf(),
            self@.shift == other@.shift,
            sum_bits(self@.bits, other@.bits) <= T::width(),
        ensures
            r@ == (Number {
                raw: self@.raw - other@.raw,
                bits: sum_bits(self@.bits, other@.bits),
                shift: self@.shift,
            }),
            r.wf(),
    {
        proof {
            T::lemma_width();
            T::lemma_signed();
            let bits = sum_bits(self@.bits, other@.bits);
            lemma_sub_closed(T::signed(), self@.bits, other@.bits, self@.raw, other@.raw);
            lemma_range_widens(true, bits, T::width(), self@.raw - other@.raw);
        }
        Fixed::new_unchecked(
            self.raw().raw_sub(other.raw()),
            max(self.bits(), other.bits()) + 1,
            self.shift(),
        )
    }

    /// The negative of a number. It is signed, whatever the operand is; it has
    /// the same shift and one bit more: an unsigned number gains a sign bit,
    /// and the negative of the smallest signed number is one above the largest.
    pub fn neg(self) -> (r: Fixed<T::Signed>)
        requires
            self.wf(),
            self@.bits + 1 <= T::width(),
        ensures
            r@ == (Number { raw: -self@.raw, bits: self@.bits + 1, shift: self@.shift }),
            r.wf(),
    {
        proof {
            T::lemma_width();
            T::lemma_signed();
            lemma_neg_closed(T::signed(), self@.bits, self@.raw);
            lemma_range_widens(true, self@.bits + 1, T::width(), -self@.raw);
        }
        Fixed::new_unchecked(self.raw().raw_neg(), self.bits() + 1, self.shift())
    }
}

/// `a + b` is `a.add(b)`.
impl<T: Fp> Add for Fixed<T> {
    type Output = Fixed<T>;

    fn add(self, other: Self) -> (r: Self)
        ensures
            r@ == (Number {
                raw: self@.raw + other@.raw,
                bits: sum_bits(self@.bits, other@.bits),
                shift: self@.shift,
            }),
            r.wf(),
    {
        let r = Fixed::add(self, other);
        proof {
            r.lemma_determined();
        }
        r
    }
}

/// What `a + b` demands, and the number that it gives.
impl<T: Fp> AddSpecImpl for Fixed<T> {
    open spec fn obeys_add_spec() -> bool {
        true
    }

    open spec fn add_req(self, other: Self) -> bool {
        &&& self.wf()
        &&& other.wf()
        &&& self@.shift == other@.shift
        &&& sum_bits(self@.bits, other@.bits) <= T::width()
    }

    open spec fn add_spec(self, other: Self) -> Self {
        Fixed::make(
            Number {
                raw: self@.raw + other@.raw,
                bits: sum_bits(self@.bits, other@.bits),
                shift: self@.shift,
            },
        )
    }
}

/// `a - b` is `a.sub(b)`.
impl<T: ToSigned> Sub for Fixed<T> {
    type Output = Fixed<T::Signed>;

    fn sub(self, other: Self) -> (r: Fixed<T::Signed>)
        ensures
            r@ == (Number {
                raw: self@.raw - other@.raw,
                bits: sum_bits(self@.bits, other@.bits),
                shift: self@.shift,
            }),
            r.wf(),
    {
        let r = Fixed::sub(self, other);
        proof {
            r.lemma_determined();
        }
        r
    }
}

/// What `a - b` demands, and the number that it gives.
impl<T: ToSigned> SubSpecImpl for Fixed<T> {
    open spec fn obeys_sub_spec() -> bool {
        true
    }

    open spec fn sub_req(self, other: Self) -> bool {
        &&& self.wf()
        &&& other.wf()
        &&& self@.shift == other@.shift
        &&& sum_bits(self@.bits, other@.bits) <= T::width()
    }

    open spec fn sub_spec(self, other: Self) -> Fixed<T::Signed> {
        Fixed::make(
            Number {
                raw: self@.raw - other@.raw,
                bits: sum_bits(self@.bits, other@.bits),
                shift: self@.shift,
            },
        )
    }
}

/// `-a` is `a.neg()`.
impl<T: ToSigned> Neg for Fixed<T> {
    type Output = Fixed<T::Signed>;

    fn neg(self) -> (r: Fixed<T::Signed>)
        ensures
            r@ == (Number { raw: -self@.raw, bits: self@.bits + 1, shift: self@.shift }),
            r.wf(),
    {
        let r = Fixed::neg(self);
        proof {
            r.lemma_determined();
        }
        r
    }
}

/// What `-a` demands, and the number that it gives.
impl<T: ToSigned> NegSpecImpl for Fixed<T> {
    open spec fn obeys_neg_spec() -> bool {
        true
    }

    open spec fn neg_req(self) -> bool {
        &&& self.wf()
        &&& self@.bits + 1 <= T::width()
    }

    open spec fn neg_spec(self) -> Fixed<T::Signed> {
        Fixed::make(Number { raw: -self@.raw, bits: self@.bits + 1, shift: self@.shift })
    }
}

} // verus!
