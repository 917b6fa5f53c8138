use slbc::encoder::{encode_iast, tokenize_iast, tokens_to_bytes, Token, TokenizeError};

#[test]
fn test_tokenize_simple() {
    let tokens = tokenize_iast("ka").unwrap();
    assert_eq!(tokens, vec![Token::Vyanjana(0x00), Token::Svara(0x40)]);
}

#[test]
fn test_tokenize_aspirate() {
    let tokens = tokenize_iast("kha").unwrap();
    assert_eq!(tokens, vec![Token::Vyanjana(0x01), Token::Svara(0x40)]);
}

#[test]
fn test_tokenize_diphthong() {
    let tokens = tokenize_iast("ai").unwrap();
    assert_eq!(tokens, vec![Token::Svara(0x86)]);
}

#[test]
fn test_tokenize_au() {
    let tokens = tokenize_iast("au").unwrap();
    assert_eq!(tokens, vec![Token::Svara(0x8A)]);
}

#[test]
fn test_encode_dharma() {
    let bytes = encode_iast("dharma").unwrap();
    // PADA_START dh a r m a PADA_END
    assert_eq!(bytes, vec![0x26, 0x1B, 0x40, 0x33, 0x24, 0x40, 0x2E]);
}

#[test]
fn test_encode_two_words() {
    let bytes = encode_iast("na ca").unwrap();
    // PADA_START n a PADA_END SPACE PADA_START c a PADA_END
    assert_eq!(bytes, vec![0x26, 0x1C, 0x40, 0x2E, 0x1F, 0x26, 0x08, 0x40, 0x2E]);
}

#[test]
fn test_ka_is_null_byte() {
    let tokens = tokenize_iast("ka").unwrap();
    assert_eq!(tokens[0], Token::Vyanjana(0x00));
}

#[test]
fn tokenize_whitespace_collapses_locally() {
    let tokens = tokenize_iast("a \t\r\n u").unwrap();
    assert_eq!(tokens, vec![Token::Svara(0x40), Token::Space, Token::Svara(0x48)]);
}

#[test]
fn tokenize_dandas_and_avagraha() {
    let tokens = tokenize_iast("|||'ऽ").unwrap();
    assert_eq!(
        tokens,
        vec![Token::DoubleDanda, Token::Danda, Token::Avagraha, Token::Avagraha]
    );
}

#[test]
fn tokenize_numeral_run() {
    let tokens = tokenize_iast("a108b").unwrap();
    assert_eq!(
        tokens,
        vec![
            Token::Svara(0x40),
            Token::Numeral("108".to_string()),
            Token::Vyanjana(0x22)
        ]
    );
}

#[test]
fn tokenize_carriage_return_splits_numerals() {
    let tokens = tokenize_iast("1\r2").unwrap();
    assert_eq!(
        tokens,
        vec![Token::Numeral("1".to_string()), Token::Numeral("2".to_string())]
    );
}

#[test]
fn tokenize_h_after_non_stop_is_plain_h() {
    let tokens = tokenize_iast("mha").unwrap();
    assert_eq!(
        tokens,
        vec![Token::Vyanjana(0x24), Token::Vyanjana(0x38), Token::Svara(0x40)]
    );
}

#[test]
fn tokenize_all_aspirates() {
    let tokens = tokenize_iast("khghchjhṭhḍhthdhphbh").unwrap();
    let bytes: Vec<Token> = [0x01u8, 0x03, 0x09, 0x0B, 0x11, 0x13, 0x19, 0x1B, 0x21, 0x23]
        .iter()
        .map(|b| Token::Vyanjana(*b))
        .collect();
    assert_eq!(tokens, bytes);
}

#[test]
fn tokenize_specials() {
    let tokens = tokenize_iast("ḥṃẖḫṝḹ").unwrap();
    assert_eq!(
        tokens,
        vec![
            Token::Vyanjana(0x39),
            Token::Vyanjana(0x3A),
            Token::Vyanjana(0x3B),
            Token::Vyanjana(0x3C),
            Token::Svara(0x8C),
            Token::Svara(0x8F)
        ]
    );
}

#[test]
fn tokenize_unrecognized_character() {
    let err = tokenize_iast("kaX").unwrap_err();
    assert_eq!(
        err,
        TokenizeError::UnrecognizedCharacter { ch: 'X', codepoint: 0x58, position: 2 }
    );
    assert!(encode_iast("Q").is_err());
}

#[test]
fn encode_punctuation_closes_pada() {
    let bytes = encode_iast("ka|'a||").unwrap();
    assert_eq!(
        bytes,
        vec![0x26, 0x00, 0x40, 0x2E, 0x0F, 0x26, 0x27, 0x40, 0x2E, 0x17]
    );
}

#[test]
fn encode_numeral_in_text() {
    let bytes = tokens_to_bytes(&[Token::Svara(0x40), Token::Numeral("2".to_string())]);
    assert_eq!(
        bytes,
        vec![0x26, 0x40, 0x2E, 0x3E, 0x01, 0x26, 0x1A, 0x32, 0x44, 0x2E, 0x2F, 0x02]
    );
}

#[test]
fn encode_empty() {
    assert_eq!(encode_iast("").unwrap(), Vec::<u8>::new());
}
