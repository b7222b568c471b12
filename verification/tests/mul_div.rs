use fp::mul_div::count_bits;
use fp::{I128, I16, I32, I64, I8, U128, U32, U64, U8};

#[test]
fn mul_limits() {
    let c_min = I32::min(9, 0);
    let c_max = I32::max(9, 0);
    for a in [I32::min(4, 0), I32::max(4, 0)] {
        for b in [I32::min(5, 0), I32::max(5, 0)] {
            assert!(a * b >= c_min);
            assert!(a * b <= c_max);
        }
    }
    for a in [I32::min(4, 0), I32::max(4, 0)] {
        for b in [U32::min(5, 0), U32::max(5, 0)] {
            assert!(a.mul_unsigned(b) >= c_min);
            assert!(a.mul_unsigned(b) <= c_max);
        }
    }
    for a in [U32::min(4, 0), U32::max(4, 0)] {
        for b in [I32::min(5, 0), I32::max(5, 0)] {
            assert!(a.mul_signed(b) >= c_min);
            assert!(a.mul_signed(b) <= c_max);
        }
    }
    let u_min = U32::min(9, 0);
    let u_max = U32::max(9, 0);
    for a in [U32::min(4, 0), U32::max(4, 0)] {
        for b in [U32::min(5, 0), U32::max(5, 0)] {
            assert!(a * b >= u_min);
            assert!(a * b <= u_max);
        }
    }
}

#[test]
fn mul_const() {
    let a = I32::new(4, 4, 0).unwrap();
    let b: I32 = a.mul_const(4);
    assert!(b.bits() == 6);
    assert!(b.raw() == 4 * 4);
    let c: I32 = a.mul_const(5);
    assert!(c.bits() == 7);
    assert!(c.raw() == 4 * 5);
}

#[test]
fn count_bits_is_the_bit_length() {
    assert_eq!(count_bits(0), 0);
    assert_eq!(count_bits(1), 1);
    assert_eq!(count_bits(2), 2);
    assert_eq!(count_bits(3), 2);
    assert_eq!(count_bits(4), 3);
    assert_eq!(count_bits(255), 8);
    assert_eq!(count_bits(256), 9);
    assert_eq!(count_bits(1 << 127), 128);
    assert_eq!(count_bits(u128::MAX), 128);
}

#[test]
fn mul_const_bit_sizing() {
    assert_eq!(I32::mul_const_bits(4, 0), 0);
    assert_eq!(I32::mul_const_bits(4, 1), 4);
    assert_eq!(I32::mul_const_bits(4, 2), 5);
    assert_eq!(I32::mul_const_bits(4, 3), 6);
    assert_eq!(I32::mul_const_bits(4, 4), 6);
    assert_eq!(I32::mul_const_bits(4, 5), 7);
    assert_eq!(I32::mul_const_bits(4, -1), 5);
    assert_eq!(I32::mul_const_bits(4, -3), 6);
    assert_eq!(I32::mul_const_bits(4, -4), 7);
    assert_eq!(I32::mul_const_bits(4, -5), 7);
    assert_eq!(I32::mul_const_bits(0, i32::MIN), 32);
    assert_eq!(I32::mul_const_bits(0, i32::MAX), 31);
    assert_eq!(U8::mul_const_bits(3, 255), 11);
    assert_eq!(U128::mul_const_bits(0, u128::MAX), 128);
    assert_eq!(I128::mul_const_bits(0, i128::MIN), 128);
    assert_eq!(I128::mul_const_bits(1, i128::MAX), 128);
}

#[test]
fn mul_const_reaches_the_bounds_of_its_format() {
    let lo = I32::min(4, 2);
    let p = lo.mul_const(-4);
    assert_eq!((p.raw(), p.bits(), p.shift()), (32, 7, 2));
    assert!(p <= I32::max(7, 2));
    assert!(p.set_bits(6).is_err());
    let q = I32::max(4, 2).mul_const(-4);
    assert_eq!(q.raw(), -28);
    let z = lo.mul_const(0);
    assert_eq!((z.raw(), z.bits()), (0, 0));
    let u = U8::max(4, 0).mul_const(16);
    assert_eq!((u.raw(), u.bits()), (240, 8));
}

#[test]
fn div_const_bit_sizing() {
    assert_eq!(I32::div_const_bits(21, 12), 18);
    assert_eq!(I32::div_const_bits(8, 1), 8);
    assert_eq!(I32::div_const_bits(8, 2), 7);
    assert_eq!(I32::div_const_bits(8, 3), 7);
    assert_eq!(I32::div_const_bits(8, 4), 6);
    assert_eq!(I32::div_const_bits(8, 255), 1);
    assert_eq!(I32::div_const_bits(8, 256), 0);
    assert_eq!(I32::div_const_bits(8, -1), 9);
    assert_eq!(I32::div_const_bits(8, -2), 8);
    assert_eq!(I32::div_const_bits(8, -3), 7);
    assert_eq!(I32::div_const_bits(8, -4), 7);
    assert_eq!(I32::div_const_bits(8, -5), 6);
    assert_eq!(I32::div_const_bits(31, i32::MIN), 1);
    assert_eq!(U8::div_const_bits(8, 255), 1);
    assert_eq!(U128::div_const_bits(128, u128::MAX), 1);
    assert_eq!(I128::div_const_bits(127, i128::MIN), 1);
}

#[test]
fn div_const_rounds_toward_zero() {
    let a = I32::new(-100, 8, 3).unwrap();
    let q = a.div_const(12);
    assert_eq!((q.raw(), q.bits(), q.shift()), (-8, 5, 3));
    let r = a.div_const(-12);
    assert_eq!((r.raw(), r.bits()), (8, 5));
    let lo = I32::min(8, 0);
    let n = lo.div_const(-1);
    assert_eq!((n.raw(), n.bits()), (128, 9));
    let h = lo.div_const(-4);
    assert_eq!((h.raw(), h.bits()), (32, 7));
    let z = lo.div_const(256);
    assert_eq!((z.raw(), z.bits()), (0, 0));
    let u = U8::max(8, 0).div_const(16);
    assert_eq!((u.raw(), u.bits()), (15, 4));
}

#[test]
fn mul_adds_bits_and_shifts() {
    let a = I16::new(-7, 4, 2).unwrap();
    let b = I16::new(100, 8, -5).unwrap();
    let p = a * b;
    assert_eq!((p.raw(), p.bits(), p.shift()), (-700, 12, -3));
    assert_eq!(a.mul(b), p);
    let lo = I8::min(4, 0) * I8::min(4, 0);
    assert_eq!((lo.raw(), lo.bits()), (64, 8));
    let hi = U64::max(32, 0) * U64::max(32, 0);
    assert_eq!(hi.raw(), 0xffff_fffe_0000_0001);
    assert_eq!(hi.bits(), 64);
}

#[test]
fn div_rounds_toward_zero_and_subtracts_shifts() {
    let a = I32::new(-7, 4, 6).unwrap();
    let b = I32::new(2, 3, 1).unwrap();
    let q = a / b;
    assert_eq!((q.raw(), q.bits(), q.shift()), (-3, 5, 5));
    assert_eq!(a.div(b), q);
    let c = I32::new(-2, 3, 1).unwrap();
    assert_eq!((a / c).raw(), 3);
    assert_eq!((b / a).raw(), 0);
    let p = I32::new(7, 4, 6).unwrap();
    assert_eq!((p / c).raw(), -3);
    let lo = I64::min(63, 0);
    let m = lo / I64::new(-1, 1, 0).unwrap();
    assert_eq!((m.raw(), m.bits()), (1i64 << 62, 64));
    let u = U32::new(200, 8, 0).unwrap() / U32::new(7, 3, 0).unwrap();
    assert_eq!((u.raw(), u.bits(), u.shift()), (28, 8, 0));
}

#[test]
fn cross_signedness_multiply() {
    let s = I32::new(-8, 4, 1).unwrap();
    let u = U32::new(31, 5, 2).unwrap();
    let p: I32 = s.mul_unsigned(u);
    assert_eq!((p.raw(), p.bits(), p.shift()), (-248, 9, 3));
    let q: I32 = u.mul_signed(s);
    assert_eq!((q.raw(), q.bits(), q.shift()), (-248, 9, 3));
    let zero = I32::min(0, 0);
    let full = U32::max(32, 0);
    let z = zero.mul_unsigned(full);
    assert_eq!((z.raw(), z.bits()), (0, 32));
    let y = full.mul_signed(zero);
    assert_eq!((y.raw(), y.bits()), (0, 32));
    let one_bit = I32::min(1, 0);
    let w = U32::max(31, 0).mul_signed(one_bit);
    assert_eq!((w.raw(), w.bits()), (-0x7fff_ffff, 32));
}

#[test]
fn cross_signedness_divide() {
    let u = U32::new(200, 8, 3).unwrap();
    let s = I32::new(-7, 4, 1).unwrap();
    let q: I32 = u.div_signed(s);
    assert_eq!((q.raw(), q.bits(), q.shift()), (-28, 9, 2));
    let hi = U32::max(8, 0).div_signed(I32::new(-1, 1, 0).unwrap());
    assert_eq!((hi.raw(), hi.bits()), (-255, 9));
    let r: I32 = s.div_unsigned(u);
    assert_eq!((r.raw(), r.bits(), r.shift()), (0, 5, -2));
    let t: I32 = I32::new(-100, 8, 0).unwrap().div_unsigned(U32::new(7, 3, 0).unwrap());
    assert_eq!((t.raw(), t.bits()), (-14, 9));
    let big = U32::max(32, 0);
    let v = I32::new(100, 8, 0).unwrap().div_unsigned(big);
    assert_eq!((v.raw(), v.bits()), (0, 9));
    let lo = I32::min(31, 0);
    let x = lo.div_unsigned(U32::new(0x4000_0000, 32, 0).unwrap());
    assert_eq!(x.raw(), -1);
    let y = lo.div_unsigned(U32::new(0x8000_0000, 32, 0).unwrap());
    assert_eq!(y.raw(), 0);
}
