use varint::{DecodeError, EncodeError, VarInt, MAX_INT_8};

fn decode_var_int(input: Vec<u8>) -> (VarInt, usize) {
    let mut v: VarInt = 0.into();
    let n = v.decode(&input).unwrap();
    (v, n)
}

fn encode_var_int(input: VarInt) -> Vec<u8> {
    let mut dst = vec![];
    input.encode(&mut dst).unwrap();
    dst
}

#[test]
fn decode_var_int1_test() {
    assert_eq!(decode_var_int(vec![0b00000011]), (VarInt(3), 1));
}

#[test]
fn decode_var_int2_test() {
    assert_eq!(
        decode_var_int(vec![0b01000001, 0b00000001]),
        (VarInt(257), 2)
    );
}

#[test]
fn decode_var_int4_test() {
    assert_eq!(
        decode_var_int(vec![0b10000001, 0b00000001, 0b00000001, 0b0000000]),
        (VarInt(16843008), 4)
    );
}

#[test]
fn decode_var_int8_test() {
    assert_eq!(
        decode_var_int(vec![
            0b11000001, 0b00000001, 0b00000001, 0b00000001, 0b00000001, 0b00000001, 0b00000001,
            0b00000001,
        ]),
        (VarInt(72340172838076673u64), 8)
    );
}

#[test]
fn encode_var_int1_test() {
    assert_eq!(encode_var_int(3.into()), vec![0b00000011]);
}

#[test]
fn encode_var_int2_test() {
    assert_eq!(encode_var_int(257.into()), vec![0b01000001, 0b00000001]);
}

#[test]
fn encode_var_int4_test() {
    assert_eq!(
        encode_var_int(16843009.into()),
        vec![0b10000001, 0b00000001, 0b00000001, 0b0000001],
    );
}

#[test]
fn encode_var_int8_test() {
    assert_eq!(
        encode_var_int(72340172838076673u64.into()),
        vec![
            0b11000001, 0b00000001, 0b00000001, 0b00000001, 0b00000001, 0b00000001, 0b00000001,
            0b00000001,
        ],
    );
}

#[test]
fn decode_4_byte_reference_vector() {
    assert_eq!(
        decode_var_int(vec![0b10000001, 0b00000001, 0b00000001, 0b00000001]),
        (VarInt(16843009), 4)
    );
}

fn encoded_len(v: u64) -> usize {
    let mut dst = vec![];
    let n = VarInt(v).encode(&mut dst).unwrap();
    assert_eq!(n, dst.len());
    n
}

#[test]
fn encode_width_boundaries() {
    assert_eq!(encoded_len(0), 1);
    assert_eq!(encoded_len(63), 1);
    assert_eq!(encoded_len(64), 2);
    assert_eq!(encoded_len(16383), 2);
    assert_eq!(encoded_len(16384), 4);
    assert_eq!(encoded_len(1073741823), 4);
    assert_eq!(encoded_len(1073741824), 8);
    assert_eq!(encoded_len(MAX_INT_8), 8);
}

#[test]
fn encode_boundary_bytes() {
    assert_eq!(encode_var_int(VarInt(63)), vec![0x3f]);
    assert_eq!(encode_var_int(VarInt(64)), vec![0x40, 0x40]);
    assert_eq!(encode_var_int(VarInt(16383)), vec![0x7f, 0xff]);
    assert_eq!(encode_var_int(VarInt(16384)), vec![0x80, 0x00, 0x40, 0x00]);
    assert_eq!(
        encode_var_int(VarInt(MAX_INT_8)),
        vec![0xff, 0xff, 0xff, 0xff, 0xff, 0xff, 0xff, 0xff]
    );
}

#[test]
fn encode_appends_after_existing_bytes() {
    let mut dst = vec![0xaa, 0xbb];
    assert_eq!(VarInt(257).encode(&mut dst), Ok(2));
    assert_eq!(dst, vec![0xaa, 0xbb, 0x41, 0x01]);
}

#[test]
fn encode_rejects_too_large() {
    for v in [1u64 << 62, (1u64 << 62) + 1, u64::MAX] {
        let mut dst = vec![7u8];
        assert_eq!(VarInt(v).encode(&mut dst), Err(EncodeError::ValueTooLarge));
        assert_eq!(dst, vec![7u8]);
    }
}

#[test]
fn decode_empty_is_insufficient() {
    let mut v = VarInt(9);
    assert_eq!(v.decode(&[]), Err(DecodeError::InsufficientData));
    assert_eq!(v, VarInt(9));
}

#[test]
fn decode_short_is_insufficient() {
    let cases: [&[u8]; 4] = [
        &[0x40],
        &[0x80, 0x01, 0x02],
        &[0xc0, 1, 2, 3, 4, 5, 6],
        &[0xff],
    ];
    for src in cases {
        let mut v = VarInt(9);
        assert_eq!(v.decode(src), Err(DecodeError::InsufficientData));
        assert_eq!(v, VarInt(9));
    }
}

#[test]
fn decode_ignores_trailing_bytes() {
    let mut v = VarInt(0);
    assert_eq!(v.decode(&[0x41, 0x01, 0xff, 0xff]), Ok(2));
    assert_eq!(v, VarInt(257));
}

#[test]
fn decode_accepts_non_minimal_encoding() {
    let mut v = VarInt(0);
    assert_eq!(v.decode(&[0x40, 0x05]), Ok(2));
    assert_eq!(v, VarInt(5));
}

#[test]
fn round_trip_samples() {
    let samples = [
        0u64, 1, 37, 63, 64, 255, 256, 16383, 16384, 65535, 1 << 29, 1073741823, 1073741824,
        1 << 40, 72340172838076673, MAX_INT_8,
    ];
    for v in samples {
        let bytes = encode_var_int(VarInt(v));
        assert_eq!(decode_var_int(bytes.clone()), (VarInt(v), bytes.len()));
    }
}
