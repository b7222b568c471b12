use fp::{max, Fixed, Fp, RangeError, ToSigned, I16, I32, I8, U128, U32, U8};

fn validate<T>(bits: u32, shift: i32)
where
    T: ToSigned + PartialOrd,
    T::Signed: PartialOrd,
{
    let b_min = Fixed::<T>::min(bits + 1, shift);
    let b_max = Fixed::<T>::max(bits + 1, shift);
    let c_min = Fixed::<T::Signed>::min(bits + 1, shift);
    let c_max = Fixed::<T::Signed>::max(bits + 1, shift);
    for a0 in [Fixed::<T>::min(bits, shift), Fixed::<T>::max(bits, shift)] {
        for a1 in [Fixed::<T>::min(bits, shift), Fixed::<T>::max(bits, shift)] {
            assert!(a0 + a1 >= b_min);
            assert!(a0 + a1 <= b_max);
            assert!(a0.raw().to_i128() + a1.raw().to_i128() == (a0 + a1).raw().to_i128());
            assert!(a0 - a1 >= c_min);
            assert!(a0 - a1 <= c_max);
            assert!(a0.raw().to_i128() - a1.raw().to_i128() == (a0 - a1).raw().to_i128())
        }
        assert!(-a0 >= c_min);
        assert!(-a0 <= c_max);
        assert!((-a0).raw().to_i128() == -(a0.raw().to_i128()));
    }
}

#[test]
fn add_sub_limits() {
    validate::<i8>(7, -3);
    validate::<i32>(4, 0);
    validate::<usize>(12, 0);
    validate::<u128>(127, 41);
}

#[test]
fn add_sub_limits_every_container() {
    validate::<i8>(0, 0);
    validate::<u8>(7, 2);
    validate::<i16>(15, 0);
    validate::<u16>(15, -1);
    validate::<u32>(31, 0);
    validate::<i64>(63, 9);
    validate::<u64>(63, 0);
    validate::<i128>(127, 0);
    validate::<isize>(31, 0);
    validate::<usize>(31, 0);
}

#[test]
fn max_of_bit_widths() {
    assert_eq!(max(3, 7), 7);
    assert_eq!(max(7, 3), 7);
    assert_eq!(max(5, 5), 5);
    assert_eq!(max(0, u32::MAX), u32::MAX);
}

#[test]
fn add_takes_one_bit_more_than_the_wider() {
    let a = I32::new(12, 5, 0).unwrap();
    let b = I32::new(-1, 1, 0).unwrap();
    let c = a + b;
    assert_eq!(c.raw(), 11);
    assert_eq!(c.bits(), 6);
    assert_eq!(c.shift(), 0);
    let d = a + (b + b);
    assert_eq!((d.raw(), d.bits()), (10, 6));
    let e = (a + b) + b;
    assert_eq!((e.raw(), e.bits()), (10, 7));
    assert_eq!(a.add(b), c);
}

#[test]
fn sub_of_unsigned_is_signed() {
    let a = U8::new(3, 7, 4).unwrap();
    let b = U8::new(100, 7, 4).unwrap();
    let d: I8 = a - b;
    assert_eq!(d.raw(), -97);
    assert_eq!(d.bits(), 8);
    assert_eq!(d.shift(), 4);
    let e: I8 = b - a;
    assert_eq!(e.raw(), 97);
    let lo: I8 = U8::min(7, 0) - U8::max(7, 0);
    assert_eq!(lo.raw(), -127);
    assert_eq!(a.sub(b), d);
}

#[test]
fn sub_of_wide_unsigned_wraps_to_the_exact_difference() {
    let a = U128::new(1, 127, 0).unwrap();
    let b = U128::max(127, 0);
    let d = a - b;
    assert_eq!(d.raw(), 2 - (1i128 << 126) - (1i128 << 126));
    assert_eq!(d.bits(), 128);
    let x = U32::new(5, 31, 0).unwrap();
    let y = U32::new(0x7fff_ffff, 31, 0).unwrap();
    assert_eq!((x - y).raw(), 5 - 0x7fff_ffff);
    assert_eq!((y - x).raw(), 0x7fff_ffff - 5);
}

#[test]
fn neg_takes_one_bit_more() {
    let a = I16::min(15, 3);
    let n = -a;
    assert_eq!(n.raw(), 16384);
    assert_eq!(n.bits(), 16);
    assert_eq!(n.shift(), 3);
    let u = U8::max(7, 0);
    let m: I8 = -u;
    assert_eq!(m.raw(), -127);
    assert_eq!(m.bits(), 8);
    assert_eq!(u.neg(), m);
    let z: I8 = -U8::min(7, 0);
    assert_eq!(z.raw(), 0);
}

#[test]
fn sum_is_rejected_by_the_narrower_format() {
    let a = I32::max(4, 0);
    let s = a + a;
    assert_eq!(s.raw(), 14);
    assert!(matches!(s.set_bits(4), Err(RangeError::TooLarge)));
    assert_eq!(s.set_bits(5).unwrap().raw(), 14);
}
