use slbc::decoder::{byte_to_iast, decode_phon, DecodeError, Script};
use slbc::encoder::encode_iast;

#[test]
fn test_iast_roundtrip_simple() {
    let input = "dharma";
    let bytes = encode_iast(input).unwrap();
    let output = decode_phon(&bytes, Script::Iast).unwrap();
    assert_eq!(output, input);
}

#[test]
fn test_iast_roundtrip_multi_word() {
    let input = "na ca";
    let bytes = encode_iast(input).unwrap();
    let output = decode_phon(&bytes, Script::Iast).unwrap();
    assert_eq!(output, input);
}

#[test]
fn test_devanagari_ka() {
    // ka = 0x00(k) + 0x40(a) → क
    let bytes = encode_iast("ka").unwrap();
    let output = decode_phon(&bytes, Script::Devanagari).unwrap();
    assert_eq!(output, "क");
}

#[test]
fn test_devanagari_ki() {
    // ki = 0x00(k) + 0x44(i) → कि
    let bytes = encode_iast("ki").unwrap();
    let output = decode_phon(&bytes, Script::Devanagari).unwrap();
    assert_eq!(output, "कि");
}

#[test]
fn test_devanagari_cluster() {
    // kṛ = k + ṛ → क + ृ = कृ
    let bytes = encode_iast("kṛ").unwrap();
    let output = decode_phon(&bytes, Script::Devanagari).unwrap();
    assert_eq!(output, "कृ");
}

fn iast_round_trip(s: &str) -> String {
    decode_phon(&encode_iast(s).unwrap(), Script::Iast).unwrap()
}

fn deva(s: &str) -> String {
    decode_phon(&encode_iast(s).unwrap(), Script::Devanagari).unwrap()
}

#[test]
fn iast_round_trip_varied_texts() {
    for s in [
        "",
        "a",
        "rāmaḥ",
        "dharmakṣetre kurukṣetre |",
        "saṃskṛtam ||",
        "ai au ṝ ḹ ẖ ḫ",
        "so'ham",
        "108",
        "adhyāyaḥ 18 ||",
        "khaṭvā ghaṭaḥ chattram jhaṣaḥ ṭhakkura ḍhakkā thala dhana phala bhaya",
        "ṅa ña ṇa śa ṣa sa ya va ra la ha ma",
    ] {
        assert_eq!(iast_round_trip(s), s);
    }
}

#[test]
fn iast_decode_normalizes_whitespace_and_avagraha() {
    assert_eq!(iast_round_trip("ka\tga"), "ka ga");
    assert_eq!(iast_round_trip("ka  ga"), "ka ga");
    assert_eq!(iast_round_trip("soऽham"), "so'ham");
}

#[test]
fn devanagari_words() {
    assert_eq!(deva("dharma"), "धर्म");
    assert_eq!(deva("rāmaḥ"), "रामः");
    assert_eq!(deva("a"), "अ");
    assert_eq!(deva("k"), "क्");
    assert_eq!(deva("na ca"), "न च");
    assert_eq!(deva("ka|"), "क।");
    assert_eq!(deva("ka||"), "क॥");
    assert_eq!(deva("so'ham"), "सोऽहम्");
    assert_eq!(deva("saṃ"), "सं");
    assert_eq!(deva("ai"), "ऐ");
}

#[test]
fn devanagari_numeral_glyphs() {
    assert_eq!(deva("108"), "१०८");
    assert_eq!(deva("k 42"), "क् ४२");
    assert_eq!(iast_round_trip("42"), "42");
}

#[test]
fn iast_meta_block_and_markers_skipped() {
    let data = [0x16, 0x06, 0x00, 0x40, 0x0E, 0x00, 0x40, 0x36, 0x1E];
    assert_eq!(decode_phon(&data, Script::Iast).unwrap(), "ka");
    assert_eq!(decode_phon(&data, Script::Devanagari).unwrap(), "क");
    // An unterminated META block runs to the end.
    assert_eq!(decode_phon(&[0x00, 0x40, 0x06, 0x00], Script::Iast).unwrap(), "ka");
}

#[test]
fn standalone_num_span() {
    let data = [0x2F, 0x04, 0x02];
    assert_eq!(decode_phon(&data, Script::Iast).unwrap(), "42");
    assert_eq!(decode_phon(&data, Script::Devanagari).unwrap(), "४२");
}

#[test]
fn unexpected_byte() {
    assert_eq!(
        decode_phon(&[0x00, 0x40, 0x05], Script::Iast),
        Err(DecodeError::UnexpectedByte { byte: 0x05, offset: 2 })
    );
    assert_eq!(
        decode_phon(&[0x3D], Script::Devanagari),
        Err(DecodeError::UnexpectedByte { byte: 0x3D, offset: 0 })
    );
}

#[test]
fn glyph_code_outside_digits() {
    assert_eq!(
        decode_phon(&[0x2F, 0x01, 0x0A], Script::Iast),
        Err(DecodeError::UnexpectedByte { byte: 0x0A, offset: 2 })
    );
    assert_eq!(
        decode_phon(&[0x2F, 0x0B], Script::Devanagari),
        Err(DecodeError::UnexpectedByte { byte: 0x0B, offset: 1 })
    );
}

#[test]
fn numeral_errors_surface() {
    assert_eq!(
        decode_phon(&[0x3E, 0x01, 0x26, 0x85, 0x2E], Script::Iast),
        Err(DecodeError::InvalidDigitWord { offset: 3 })
    );
    assert_eq!(
        decode_phon(&[0x3E, 0x01, 0x26, 0x85], Script::Devanagari),
        Err(DecodeError::UnterminatedDigitPada)
    );
}

#[test]
fn iast_table() {
    assert_eq!(byte_to_iast(0x1B), "dh");
    assert_eq!(byte_to_iast(0x86), "ai");
    // Accent bits do not change the IAST letter.
    assert_eq!(byte_to_iast(0x54), "i");
    assert_eq!(byte_to_iast(0xC0), "?");
    assert_eq!(byte_to_iast(0x05), "?");
    assert_eq!(byte_to_iast(0x26), "?");
}
