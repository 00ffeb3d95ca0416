use wasm_sections::varint;
use wasm_sections::{ByteReader, WSError};

fn encode(v: u64) -> Vec<u8> {
    let mut out = Vec::new();
    varint::put(&mut out, v).unwrap();
    out
}

fn decode(bytes: &[u8]) -> Result<u32, WSError> {
    let mut r = ByteReader::new(bytes);
    varint::get32(&mut r)
}

#[test]
fn varint_zero_single_byte() {
    let e = encode(0);
    assert_eq!(e, vec![0x00]);
    assert_eq!(decode(&e), Ok(0));
}

#[test]
fn varint_127_single_byte_no_continuation() {
    let e = encode(127);
    assert_eq!(e, vec![0x7f]);
    assert_eq!(decode(&e), Ok(127));
}

#[test]
fn varint_128_two_bytes() {
    let e = encode(128);
    assert_eq!(e, vec![0x80, 0x01]);
    assert_eq!(decode(&e), Ok(128));
}

#[test]
fn varint_u32_max_five_bytes() {
    let e = encode(0xffff_ffff);
    assert_eq!(e, vec![0xff, 0xff, 0xff, 0xff, 0x0f]);
    assert_eq!(decode(&e), Ok(0xffff_ffff));
}

#[test]
fn varint_six_continuation_bytes_overflow() {
    let bytes = [0x80u8, 0x80, 0x80, 0x80, 0x80, 0x00];
    assert_eq!(decode(&bytes), Err(WSError::VarintOverflow));
}

#[test]
fn varint_value_beyond_32_bits_overflow() {
    // Five-byte chain terminating with value bits >= 16: the value would
    // be at least 2^32.
    let bytes = [0x80u8, 0x80, 0x80, 0x80, 0x10];
    assert_eq!(decode(&bytes), Err(WSError::VarintOverflow));
}

#[test]
fn varint_truncated_chain() {
    let bytes = [0x80u8, 0x80];
    assert_eq!(decode(&bytes), Err(WSError::TruncatedInput));
}

#[test]
fn varint_empty_input_truncated() {
    let bytes: [u8; 0] = [];
    assert_eq!(decode(&bytes), Err(WSError::TruncatedInput));
}

#[test]
fn get7_masks_to_seven_bits() {
    let bytes = [0xc8u8];
    let mut r = ByteReader::new(&bytes);
    assert_eq!(varint::get7(&mut r), Ok(0x48));
}

#[test]
fn get7_clean_eof() {
    let bytes: [u8; 0] = [];
    let mut r = ByteReader::new(&bytes);
    assert_eq!(varint::get7(&mut r), Err(WSError::Eof));
}

#[test]
fn varint_round_trip_various() {
    for v in [0u64, 1, 63, 64, 127, 128, 129, 300, 16383, 16384, 2097151, 2097152, 268435455,
        268435456, 4294967295]
    {
        let e = encode(v);
        assert_eq!(decode(&e), Ok(v as u32), "value {v}");
    }
}
