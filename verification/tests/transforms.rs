use fp::{Fixed, Fp, RangeError, I128, I16, I32, I64, I8, Isize, U128, U16, U32, U64, U8, Usize};

#[test]
fn new_accepts_exactly_the_range() {
    assert_eq!(I32::new(-128, 8, 7).unwrap().raw(), -128);
    assert_eq!(I32::new(127, 8, 7).unwrap().raw(), 127);
    assert!(matches!(I32::new(-129, 8, 7), Err(RangeError::TooSmall)));
    assert!(matches!(I32::new(128, 8, 7), Err(RangeError::TooLarge)));
    assert_eq!(U64::new(255, 8, 4).unwrap().raw(), 255);
    assert!(matches!(U64::new(256, 8, 4), Err(RangeError::TooLarge)));
    assert_eq!(U8::new(0, 0, 0).unwrap().raw(), 0);
    assert!(matches!(U8::new(1, 0, 0), Err(RangeError::TooLarge)));
    assert_eq!(I8::new(0, 0, 0).unwrap().raw(), 0);
    assert!(matches!(I8::new(-1, 0, 0), Err(RangeError::TooSmall)));
    assert!(matches!(I8::new(1, 0, 0), Err(RangeError::TooLarge)));
    assert_eq!(I8::new(-1, 1, 0).unwrap().raw(), -1);
    assert!(matches!(I8::new(1, 1, 0), Err(RangeError::TooLarge)));
    assert_eq!(I128::new(i128::MIN, 128, 0).unwrap().raw(), i128::MIN);
    assert_eq!(U128::new(u128::MAX, 128, 0).unwrap().raw(), u128::MAX);
    assert!(matches!(U128::new(u128::MAX, 127, 0), Err(RangeError::TooLarge)));
}

#[test]
fn new_keeps_format() {
    let x = I16::new(-5, 4, -9).unwrap();
    assert_eq!((x.raw(), x.bits(), x.shift()), (-5, 4, -9));
    let y = I16::new_unchecked(-5, 4, -9);
    assert_eq!(x, y);
}

#[test]
fn bounds_of_every_container() {
    assert_eq!((I8::min(8, 0).raw(), I8::max(8, 0).raw()), (i8::MIN, i8::MAX));
    assert_eq!((U8::min(8, 0).raw(), U8::max(8, 0).raw()), (0, u8::MAX));
    assert_eq!((I16::min(3, 0).raw(), I16::max(3, 0).raw()), (-4, 3));
    assert_eq!((U16::min(3, 0).raw(), U16::max(3, 0).raw()), (0, 7));
    assert_eq!((I32::min(1, 0).raw(), I32::max(1, 0).raw()), (-1, 0));
    assert_eq!((U32::min(1, 0).raw(), U32::max(1, 0).raw()), (0, 1));
    assert_eq!((I64::min(64, 0).raw(), I64::max(64, 0).raw()), (i64::MIN, i64::MAX));
    assert_eq!((U64::min(33, 0).raw(), U64::max(33, 0).raw()), (0, 0x1_ffff_ffff));
    assert_eq!((I128::min(128, 0).raw(), I128::max(128, 0).raw()), (i128::MIN, i128::MAX));
    assert_eq!((I128::min(100, 0).raw(), I128::max(100, 0).raw()), (-(1 << 99), (1 << 99) - 1));
    assert_eq!((U128::min(128, 0).raw(), U128::max(128, 0).raw()), (0, u128::MAX));
    assert_eq!((U128::min(65, 0).raw(), U128::max(65, 0).raw()), (0, (1 << 65) - 1));
    assert_eq!(
        (Isize::min(isize::BITS, 0).raw(), Isize::max(isize::BITS, 0).raw()),
        (isize::MIN, isize::MAX)
    );
    assert_eq!((Isize::min(9, 0).raw(), Isize::max(9, 0).raw()), (-256, 255));
    assert_eq!(
        (Usize::min(usize::BITS, 0).raw(), Usize::max(usize::BITS, 0).raw()),
        (0, usize::MAX)
    );
    assert_eq!((Usize::min(9, 0).raw(), Usize::max(9, 0).raw()), (0, 511));
    assert_eq!((I64::min(0, 0).bits(), I64::min(0, 3).shift()), (0, 3));
}

#[test]
fn containers_report_width_and_signedness() {
    assert_eq!((<i8 as Fp>::bits(), <i8 as Fp>::is_signed()), (8, true));
    assert_eq!((<u8 as Fp>::bits(), <u8 as Fp>::is_signed()), (8, false));
    assert_eq!((<i16 as Fp>::bits(), <u16 as Fp>::bits()), (16, 16));
    assert_eq!((<i32 as Fp>::bits(), <u32 as Fp>::bits()), (32, 32));
    assert_eq!((<i64 as Fp>::bits(), <u64 as Fp>::bits()), (64, 64));
    assert_eq!((<i128 as Fp>::bits(), <u128 as Fp>::bits()), (128, 128));
    assert_eq!((<isize as Fp>::bits(), <usize as Fp>::bits()), (isize::BITS, usize::BITS));
    assert!(<isize as Fp>::is_signed() && !<usize as Fp>::is_signed());
    assert!(I128::signed() && !U128::signed());
    assert_eq!(<i16 as Fp>::min_value(), i16::MIN);
    assert_eq!(<u64 as Fp>::max_value(), u64::MAX);
}

#[test]
fn add_bits_widens_without_change() {
    let x = U16::new(9, 4, 1).unwrap().add_bits(12);
    assert_eq!((x.raw(), x.bits(), x.shift()), (9, 16, 1));
    let y = I8::min(8, 0).add_bits(0);
    assert_eq!((y.raw(), y.bits()), (-128, 8));
}

#[test]
fn set_bits_checks_the_new_range() {
    let x = Fixed::from_raw(12i32).set_bits(5).unwrap();
    assert_eq!((x.raw(), x.bits(), x.shift()), (12, 5, 0));
    let y = Fixed::from_raw(-1i32).set_bits(1).unwrap();
    assert_eq!((y.raw(), y.bits()), (-1, 1));
    assert!(matches!(Fixed::from_raw(16i32).set_bits(5), Err(RangeError::TooLarge)));
    assert!(matches!(Fixed::from_raw(-17i32).set_bits(5), Err(RangeError::TooSmall)));
    let z = Fixed::from_raw(15u8).set_bits_unchecked(4);
    assert_eq!((z.raw(), z.bits(), z.shift()), (15, 4, 0));
    let w = Fixed::from_raw(100i32).logical_shr(5).set_bits(10).unwrap();
    assert_eq!(w, I32::new(100, 10, 5).unwrap());
}

#[test]
fn saturate_clamps_to_the_bounds() {
    let big = I32::new(1000, 16, 2).unwrap();
    let s = big.saturate(8);
    assert_eq!((s.raw(), s.bits(), s.shift()), (127, 8, 2));
    let small = I32::new(-1000, 16, 2).unwrap();
    let t = small.saturate(8);
    assert_eq!((t.raw(), t.bits(), t.shift()), (-128, 8, 2));
    let inside = I32::new(-100, 16, 2).unwrap();
    assert_eq!(inside.saturate(8).raw(), -100);
    assert_eq!(big.saturate(0).raw(), 0);
    assert_eq!(big.saturate(32).raw(), 1000);
    let u = U8::new(200, 8, 0).unwrap().saturate(3);
    assert_eq!((u.raw(), u.bits()), (7, 3));
}

#[test]
fn logical_shifts_move_the_shift_only() {
    let x = I32::new(19, 10, 3).unwrap();
    let l = x.logical_shl(5);
    assert_eq!((l.raw(), l.bits(), l.shift()), (19, 10, -2));
    let r = x.logical_shr(5);
    assert_eq!((r.raw(), r.bits(), r.shift()), (19, 10, 8));
    assert_eq!(x.logical_shl(-4), x.logical_shr(4));
    assert_eq!(x.logical_shl(0), x);
}

#[test]
fn raw_shl_shifts_the_raw_value() {
    let x = I32::new(-3, 3, 1).unwrap().raw_shl(4);
    assert_eq!((x.raw(), x.bits(), x.shift()), (-48, 7, 5));
    let y = U8::new(7, 3, 0).unwrap().raw_shl(5);
    assert_eq!((y.raw(), y.bits(), y.shift()), (224, 8, 5));
    let z = I8::min(0, 0).raw_shl(8);
    assert_eq!((z.raw(), z.bits(), z.shift()), (0, 8, 8));
    assert_eq!(I16::min(4, 0).raw_shl(12).raw(), i16::MIN);
    assert_eq!(U16::max(4, 0).raw_shl(12).raw(), 0xf000);
    assert_eq!(U32::max(1, 0).raw_shl(31).raw(), 0x8000_0000);
    assert_eq!(I64::min(1, 0).raw_shl(63).raw(), i64::MIN);
    assert_eq!(U64::max(60, 0).raw_shl(4).raw(), u64::MAX - 15);
    assert_eq!(I128::min(2, 0).raw_shl(126).raw(), i128::MIN);
    assert_eq!(I128::max(2, 0).raw_shl(126).raw(), 1 << 126);
    assert_eq!(U128::max(3, 0).raw_shl(125).raw(), 7 << 125);
    assert_eq!(Isize::new(-5, 4, 0).unwrap().raw_shl(20).raw(), -5 << 20);
    assert_eq!(Usize::new(5, 3, 0).unwrap().raw_shl(29).raw(), 5 << 29);
    assert_eq!(I32::new(5, 4, 0).unwrap().raw_shl(0).raw(), 5);
}

#[test]
fn raw_shr_drops_the_low_bits() {
    let x = I32::new(-49, 7, 5).unwrap().raw_shr(4);
    assert_eq!((x.raw(), x.bits(), x.shift()), (-4, 3, 1));
    let y = U8::new(239, 8, 5).unwrap().raw_shr(5);
    assert_eq!((y.raw(), y.bits(), y.shift()), (7, 3, 0));
    let z = U8::max(8, 0).raw_shr(8);
    assert_eq!((z.raw(), z.bits(), z.shift()), (0, 0, -8));
    let p = I8::max(8, 0).raw_shr(8);
    assert_eq!((p.raw(), p.bits()), (0, 0));
    assert_eq!(I16::min(16, 0).raw_shr(15).raw(), -1);
    assert_eq!(U16::max(16, 0).raw_shr(15).raw(), 1);
    assert_eq!(I64::min(64, 0).raw_shr(60).raw(), -8);
    assert_eq!(U64::max(64, 0).raw_shr(60).raw(), 15);
    assert_eq!(I128::min(128, 0).raw_shr(127).raw(), -1);
    assert_eq!(I128::new(-1, 128, 0).unwrap().raw_shr(100).raw(), -1);
    assert_eq!(U128::max(128, 0).raw_shr(127).raw(), 1);
    assert_eq!(Isize::new(-1025, 12, 0).unwrap().raw_shr(10).raw(), -2);
    assert_eq!(Usize::new(1025, 12, 0).unwrap().raw_shr(10).raw(), 1);
    assert_eq!(I32::new(5, 4, 0).unwrap().raw_shr(0).raw(), 5);
}

#[test]
fn into_signed_adds_the_sign_bit() {
    let u = U8::max(7, 3);
    let s: I8 = u.into_signed();
    assert_eq!((s.raw(), s.bits(), s.shift()), (127, 8, 3));
    let v: I128 = U128::max(127, 0).into_signed();
    assert_eq!((v.raw(), v.bits()), (i128::MAX, 128));
    let w: Isize = Usize::new(77, 7, 0).unwrap().into_signed();
    assert_eq!((w.raw(), w.bits()), (77, 8));
}

#[test]
fn into_unsigned_drops_the_sign_bit() {
    let s = I8::new(100, 8, 3).unwrap();
    let u: U8 = s.into_unsigned().unwrap();
    assert_eq!((u.raw(), u.bits(), u.shift()), (100, 7, 3));
    assert!(I8::new(-1, 8, 3).unwrap().into_unsigned().is_none());
    assert!(I8::min(8, 0).into_unsigned().is_none());
    let z: U8 = I8::new(0, 1, 0).unwrap().into_unsigned().unwrap();
    assert_eq!((z.raw(), z.bits()), (0, 0));
    let v: U64 = I64::max(64, 0).into_unsigned_unchecked();
    assert_eq!((v.raw(), v.bits()), (i64::MAX as u64, 63));
    let back: I64 = v.into_signed();
    assert_eq!(back, I64::max(64, 0));
    let w: Usize = Isize::new(5, 4, 0).unwrap().into_unsigned().unwrap();
    assert_eq!((w.raw(), w.bits()), (5, 3));
}

#[test]
fn magnitude_below_is_the_exponent_test() {
    let x = I32::new(0, 10, 5).unwrap();
    assert!(x.magnitude_below(128));
    assert!(x.magnitude_below(4));
    assert!(!x.magnitude_below(3));
    let u = U32::new(0, 10, 5).unwrap();
    assert!(u.magnitude_below(5));
    assert!(!u.magnitude_below(4));
    let far = I128::new(0, 128, -1).unwrap();
    assert!(far.magnitude_below(128));
    assert!(!U128::new(0, 128, -1).unwrap().magnitude_below(128));
    assert!(U128::new(0, 128, -1).unwrap().magnitude_below(1024));
    assert!(!I32::new(0, 1, i32::MIN).unwrap().magnitude_below(i32::MAX));
    assert!(I32::new(0, 0, i32::MAX).unwrap().magnitude_below(i32::MIN + 1));
}

#[test]
fn wide_integers_are_range_checked() {
    let x = I8::from_i128(-128, 8, 2).unwrap();
    assert_eq!((x.raw(), x.bits(), x.shift()), (-128, 8, 2));
    assert!(matches!(I8::from_i128(-129, 8, 2), Err(RangeError::TooSmall)));
    assert!(matches!(I8::from_i128(128, 8, 2), Err(RangeError::TooLarge)));
    assert!(matches!(I8::from_i128(i128::MIN, 8, 2), Err(RangeError::TooSmall)));
    assert!(matches!(I8::from_u128(u128::MAX, 8, 2), Err(RangeError::TooLarge)));
    assert_eq!(I8::from_u128(127, 8, 0).unwrap().raw(), 127);
    assert!(matches!(I8::from_u128(8, 4, 0), Err(RangeError::TooLarge)));
    assert_eq!(I8::from_i128(-8, 4, 0).unwrap().raw(), -8);
    assert_eq!(U16::from_i128(65535, 16, 0).unwrap().raw(), 65535);
    assert!(matches!(U16::from_i128(-1, 16, 0), Err(RangeError::TooSmall)));
    assert!(matches!(U16::from_i128(65536, 16, 0), Err(RangeError::TooLarge)));
    assert!(matches!(U16::from_u128(16, 4, 0), Err(RangeError::TooLarge)));
    assert_eq!(U128::from_u128(u128::MAX, 128, 0).unwrap().raw(), u128::MAX);
    assert_eq!(U128::from_i128(i128::MAX, 127, 0).unwrap().raw(), i128::MAX as u128);
    assert_eq!(I128::from_i128(i128::MIN, 128, 0).unwrap().raw(), i128::MIN);
    assert!(matches!(I128::from_u128(1 << 127, 128, 0), Err(RangeError::TooLarge)));
    assert_eq!(Usize::from_u128(0, 0, 0).unwrap().raw(), 0);
    assert!(matches!(Isize::from_i128(1, 0, 0), Err(RangeError::TooLarge)));
}
