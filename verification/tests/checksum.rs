//! The checksum engine: determinism, the empty-input constant, and the
//! standard check value of the byte-reversed CRC variant.

use vpk2::crc::valve_crc32;

#[test]
fn crc_of_empty_is_zero() {
    assert_eq!(valve_crc32(&[]), 0);
}

#[test]
fn crc_standard_check_value() {
    assert_eq!(valve_crc32(b"123456789"), 0xCBF43926);
}

#[test]
fn crc_known_values() {
    assert_eq!(valve_crc32(b"a"), 0xE8B7BE43);
    assert_eq!(valve_crc32(b"abc"), 0x352441C2);
}

#[test]
fn crc_is_deterministic() {
    let data: Vec<u8> = (0..=255u8).cycle().take(4096).collect();
    let first = valve_crc32(&data);
    let second = valve_crc32(&data);
    assert_eq!(first, second);
}

#[test]
fn crc_differs_when_a_byte_changes() {
    let mut data = vec![7u8; 64];
    let before = valve_crc32(&data);
    data[10] = 8;
    assert_ne!(before, valve_crc32(&data));
}
