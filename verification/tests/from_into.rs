use fp::{Fixed, I16, I32, I8, U16, U32, U64};

#[test]
fn good_conversions() {
    let x: I16 = I32::new(5, 6, 0).unwrap().into_fp(7);
    assert_eq!((x.raw(), x.bits(), x.shift()), (5, 7, 0));
    let x: I32 = Fixed::from_raw(125i8).into_fp(8);
    assert_eq!((x.raw(), x.bits(), x.shift()), (125, 8, 0));
    let x: u16 = U32::new(5, 16, 0).unwrap().into_fp::<u16>(16).raw();
    assert_eq!(x, 5);
}

#[test]
fn conversion_round_trip() {
    let a = I32::new(5, 6, 0).unwrap();
    let wide: I16 = a.into_fp(7);
    let back: I32 = wide.set_bits(6).unwrap().into_fp(6);
    assert_eq!(back, a);
    assert_eq!(back.raw(), 5);
    let wider = a.add_bits(20);
    assert_eq!((wider.raw(), wider.bits()), (5, 26));
    assert_eq!(wider.set_bits(6).unwrap(), a);
}

#[test]
fn integer_is_a_number_of_all_bits_and_shift_zero() {
    let x = Fixed::from_raw(125i8);
    assert_eq!((x.raw(), x.bits(), x.shift()), (125, 8, 0));
    let y = Fixed::from_raw(u64::MAX);
    assert_eq!((y.raw(), y.bits(), y.shift()), (u64::MAX, 64, 0));
    let z = Fixed::from_raw(-7isize);
    assert_eq!((z.raw(), z.bits(), z.shift()), (-7, isize::BITS, 0));
}

#[test]
fn from_fp_keeps_raw_value_and_shift() {
    let a = I8::new(-3, 3, 5).unwrap();
    let b = I32::from_fp(a, 3);
    assert_eq!((b.raw(), b.bits(), b.shift()), (-3, 3, 5));
    let c = fp::I128::from_fp(a, 100);
    assert_eq!((c.raw(), c.bits(), c.shift()), (-3, 100, 5));
    let u = U64::max(64, -2);
    let v = fp::U128::from_fp(u, 64);
    assert_eq!((v.raw(), v.bits(), v.shift()), (u64::MAX as u128, 64, -2));
    let w = U16::from_fp(U32::new(65535, 16, 0).unwrap(), 16);
    assert_eq!(w.raw(), 65535);
    let s = fp::Usize::from_fp(fp::U8::new(200, 8, 1).unwrap(), 9);
    assert_eq!((s.raw(), s.bits(), s.shift()), (200, 9, 1));
    let t = fp::Isize::from_fp(I16::min(16, 0), 16);
    assert_eq!(t.raw(), -32768);
}

#[test]
fn from_is_from_raw() {
    let x: I8 = Fixed::from(-3i8);
    assert_eq!(x, Fixed::from_raw(-3i8));
    let y: U32 = 77u32.into();
    assert_eq!((y.raw(), y.bits(), y.shift()), (77, 32, 0));
}
