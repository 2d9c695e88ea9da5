use knob::bytes::{push_decimal, push_u32_le, push_zeros, read_u32_le};

#[test]
fn u32_little_endian_roundtrip() {
    for &x in &[0u32, 1, 255, 256, 0x4B4E_4F42, u32::MAX] {
        let mut v = vec![9u8];
        push_u32_le(&mut v, x);
        assert_eq!(&v[1..], &x.to_le_bytes());
        assert_eq!(read_u32_le(&v, 1), x);
    }
}

#[test]
fn decimal_digits() {
    let mut v = Vec::new();
    push_decimal(&mut v, 0);
    assert_eq!(v, b"0");
    let mut v = b"x=".to_vec();
    push_decimal(&mut v, 1_234_509);
    assert_eq!(v, b"x=1234509");
    let mut v = Vec::new();
    push_decimal(&mut v, u32::MAX);
    assert_eq!(v, u32::MAX.to_string().into_bytes());
}

#[test]
fn zero_padding() {
    let mut v = vec![1u8];
    push_zeros(&mut v, 3);
    assert_eq!(v, vec![1, 0, 0, 0]);
    push_zeros(&mut v, 0);
    assert_eq!(v.len(), 4);
}
