use mconv::utils::{read_i32_le, read_u16_le, read_u32_le, set_panic_hook, write_u16_le, write_u32_le};

#[test]
fn test_read_u16_le() {
    let data = [0x34, 0x12, 0xff];
    assert_eq!(read_u16_le(&data, 0), 0x1234);
    assert_eq!(read_u16_le(&data, 1), 0xff12);
}

#[test]
fn test_read_u32_le() {
    let data = [0x78, 0x56, 0x34, 0x12];
    assert_eq!(read_u32_le(&data, 0), 0x12345678);
}

#[test]
fn test_read_i32_le() {
    let data = [0xfe, 0xff, 0xff, 0xff];
    assert_eq!(read_i32_le(&data, 0), -2);
    let data = [0x2a, 0, 0, 0];
    assert_eq!(read_i32_le(&data, 0), 42);
}

#[test]
fn test_write_u16_le() {
    let mut buf = vec![0u8; 4];
    write_u16_le(&mut buf, 1, 0xabcd);
    assert_eq!(buf, vec![0, 0xcd, 0xab, 0]);
}

#[test]
fn test_write_u32_le() {
    let mut buf = vec![0u8; 4];
    write_u32_le(&mut buf, 0, 0x01020304);
    assert_eq!(buf, vec![4, 3, 2, 1]);
}

#[test]
fn test_write_read_roundtrip() {
    let mut buf = vec![0u8; 8];
    write_u32_le(&mut buf, 2, 0xdeadbeef);
    assert_eq!(read_u32_le(&buf, 2), 0xdeadbeef);
}

#[test]
fn test_set_panic_hook_is_noop() {
    set_panic_hook();
}
