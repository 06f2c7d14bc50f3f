use bytekv::FixedBytes;

#[test]
fn codec_u8_bytes() {
    assert_eq!(u8::byte_size(), 1);
    assert_eq!(0xA5u8.to_bytes(), vec![0xA5]);
    assert_eq!(u8::from_bytes(&[0xA5]), 0xA5);
}

#[test]
fn codec_u16_bytes() {
    assert_eq!(u16::byte_size(), 2);
    assert_eq!(0x0102u16.to_bytes(), vec![0x02, 0x01]);
    assert_eq!(u16::from_bytes(&[0x02, 0x01]), 0x0102);
}

#[test]
fn codec_u32_bytes() {
    assert_eq!(u32::byte_size(), 4);
    assert_eq!(0x0102_0304u32.to_bytes(), vec![0x04, 0x03, 0x02, 0x01]);
    assert_eq!(u32::from_bytes(&[0x04, 0x03, 0x02, 0x01]), 0x0102_0304);
}

#[test]
fn codec_u64_bytes() {
    assert_eq!(u64::byte_size(), 8);
    assert_eq!(
        0x0102_0304_0506_0708u64.to_bytes(),
        vec![0x08, 0x07, 0x06, 0x05, 0x04, 0x03, 0x02, 0x01]
    );
    assert_eq!(
        u64::from_bytes(&[0x08, 0x07, 0x06, 0x05, 0x04, 0x03, 0x02, 0x01]),
        0x0102_0304_0506_0708
    );
}

#[test]
fn codec_i32_bytes() {
    assert_eq!(i32::byte_size(), 4);
    // two's complement little-endian
    assert_eq!((-2i32).to_bytes(), vec![0xFE, 0xFF, 0xFF, 0xFF]);
    assert_eq!(i32::from_bytes(&[0xFE, 0xFF, 0xFF, 0xFF]), -2);
    assert_eq!(42i32.to_bytes(), vec![42, 0, 0, 0]);
    assert_eq!(i32::from_bytes(&[42, 0, 0, 0]), 42);
    assert_eq!(i32::from_bytes(&[0, 0, 0, 0x80]), i32::MIN);
    assert_eq!(i32::MIN.to_bytes(), vec![0, 0, 0, 0x80]);
}
