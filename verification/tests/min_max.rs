use fp::{I16, I32, I64, U16, U32, U64};

#[test]
fn min_max_correct() {
    assert!(I64::min(0, 10).raw() == 0);
    assert!(I64::max(0, 10).raw() == 0);
    assert!(I64::signed());

    assert!(U64::min(0, 0).raw() == 0);
    assert!(U64::max(0, 0).raw() == 0);
    assert!(!U64::signed());

    assert!(I32::min(8, -2).raw() == -128);
    assert!(I32::max(8, -2).raw() == 127);

    assert!(U32::min(8, 3).raw() == 0);
    assert!(U32::max(8, 3).raw() == 255);

    assert!(I16::min(16, 0).raw() == -32768);
    assert!(I16::max(16, 0).raw() == 32767);

    assert!(U16::min(16, -5).raw() == 0);
    assert!(U16::max(16, -5).raw() == 65535);
}

#[test]
#[should_panic]
fn min_error_signed() {
    let a = I32::min(8, 7);
    let _ = I32::new(a.raw() - 1, 8, 7).unwrap();
}

#[test]
#[should_panic]
fn max_error_signed() {
    let a = I32::max(8, 0);
    let _ = I32::new(a.raw() + 1, 8, 0).unwrap();
}

#[test]
#[should_panic]
fn max_error_unsigned() {
    let a = U64::max(8, 4);
    let _ = U64::new(a.raw() + 1, 8, 4).unwrap();
}
