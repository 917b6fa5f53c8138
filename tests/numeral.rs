use slbc::decoder::DecodeError;
use slbc::container::ContainerError;
use slbc::numeral::{decode_num, decode_sankhya, encode_numeral};
use slbc::types::{NUM, PADA_START, SANKHYA_START};

#[test]
fn test_encode_108() {
    let mut out = Vec::new();
    encode_numeral("108", &mut out);

    // Should start with SAṄKHYĀ_START
    assert_eq!(out[0], SANKHYA_START);
    // Count = 3
    assert_eq!(out[1], 0x03);
    // First digit-pada should be aṣṭa (8, units)
    assert_eq!(out[2], PADA_START);

    // Should contain NUM span
    assert!(out.contains(&NUM));
}

#[test]
fn test_roundtrip_sankhya() {
    let mut out = Vec::new();
    encode_numeral("108", &mut out);

    let (digits, _) = decode_sankhya(&out, 0).unwrap();
    assert_eq!(digits, vec![1, 0, 8]);
}

#[test]
fn encode_108_exact_bytes() {
    let mut out = vec![0xAA];
    encode_numeral("108", &mut out);
    assert_eq!(
        out,
        vec![
            0xAA, 0x3E, 0x03, //
            0x26, 0x40, 0x2A, 0x10, 0x40, 0x2E, // aṣṭa
            0x26, 0x29, 0x88, 0x1C, 0x31, 0x40, 0x2E, // śūnya
            0x26, 0x85, 0x00, 0x40, 0x2E, // eka
            0x2F, 0x01, 0x00, 0x08
        ]
    );
}

#[test]
fn all_digits_round_trip() {
    let mut out = Vec::new();
    encode_numeral("9876543210", &mut out);
    let (digits, consumed) = decode_sankhya(&out, 0).unwrap();
    assert_eq!(digits, vec![9, 8, 7, 6, 5, 4, 3, 2, 1, 0]);
    let (glyphs, num_consumed) = decode_num(&out, consumed).unwrap();
    assert_eq!(glyphs, vec![9, 8, 7, 6, 5, 4, 3, 2, 1, 0]);
    assert_eq!(consumed + num_consumed, out.len());
}

#[test]
fn decode_num_stops_at_high_byte() {
    let data = [0x2F, 0x01, 0x0F, 0x26, 0x00];
    assert_eq!(decode_num(&data, 0), Ok((vec![0x01, 0x0F], 3)));
}

#[test]
fn decode_num_expected_marker() {
    assert_eq!(
        decode_num(&[0x01, 0x2F], 0),
        Err(DecodeError::ExpectedMarker { expected: NUM, offset: 0 })
    );
    assert_eq!(
        decode_num(&[0x2F], 1),
        Err(DecodeError::ExpectedMarker { expected: NUM, offset: 1 })
    );
}

#[test]
fn decode_sankhya_errors() {
    assert_eq!(
        decode_sankhya(&[0x26], 0),
        Err(DecodeError::ExpectedMarker { expected: SANKHYA_START, offset: 0 })
    );
    assert_eq!(
        decode_sankhya(&[0x3E, 0x01, 0x40], 0),
        Err(DecodeError::ExpectedMarker { expected: PADA_START, offset: 2 })
    );
    assert_eq!(
        decode_sankhya(&[0x3E, 0x01, 0x26, 0x85, 0x00], 0),
        Err(DecodeError::UnterminatedDigitPada)
    );
    assert_eq!(
        decode_sankhya(&[0x3E, 0x01, 0x26, 0x85, 0x2E], 0),
        Err(DecodeError::InvalidDigitWord { offset: 3 })
    );
    assert_eq!(
        decode_sankhya(&[0x3E, 0x80], 0),
        Err(DecodeError::BadDigitCount { offset: 1, cause: ContainerError::TruncatedVarint })
    );
}

#[test]
fn decode_sankhya_trusts_count() {
    // Count 1 but two padas: only the first is read.
    let data = [0x3E, 0x01, 0x26, 0x85, 0x00, 0x40, 0x2E, 0x26, 0x1A, 0x32, 0x44, 0x2E];
    assert_eq!(decode_sankhya(&data, 0), Ok((vec![1], 7)));
}
