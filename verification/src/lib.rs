//! Fixed-point arithmetic whose overflow safety and shift consistency are
//! proved before the program runs.
//!
//! A fixed-point number is a raw integer together with a bit-width `bits` (how
//! many low-order bits of the raw value may vary) and a `shift` (the logical
//! value is the raw value divided by `2^shift`). Every operation derives the
//! bit-width and shift of its result from those of its operands, and its
//! contract shows that the result fits the raw integer type.
use vstd::prelude::*;

pub mod add_sub;
pub mod bounds;
pub mod fp_impl;
pub mod mul_div;
pub mod raw;
mod int128;
mod int16;
mod int32;
mod int64;
mod int8;
mod intsize;

pub use add_sub::max;
pub use fp_impl::{Fixed, Number, I128, I16, I32, I64, I8, Isize, U128, U16, U32, U64, U8, Usize};
pub use raw::{Fp, ToSigned, ToUnsigned};

verus! {

/// Why a raw value cannot be a number of the requested format.
#[derive(Debug, Clone, Copy, PartialEq, Eq, Structural)]
pub enum RangeError {
    /// The value lies below the smallest representable one.
    TooSmall,
    /// The value lies above the largest representable one.
    TooLarge,
}

} // verus!
