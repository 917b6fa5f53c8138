use slbc::types::{
    is_bhasha_control, is_lipi_control, is_svara, is_varga, is_vyanjana, place, svara_a,
    svara_g, svara_q, svara_s,
};

#[test]
fn every_byte_has_exactly_one_class() {
    for b in 0u16..=255 {
        let b = b as u8;
        let reserved = !is_svara(b) && slbc::types::column(b) == 5;
        let classes = [is_svara(b), is_vyanjana(b), is_bhasha_control(b), is_lipi_control(b), reserved];
        assert_eq!(classes.iter().filter(|c| **c).count(), 1, "byte {:#04x}", b);
    }
}

#[test]
fn classification_examples() {
    assert!(is_svara(0x40) && !is_svara(0x3F));
    assert!(is_vyanjana(0x00) && is_vyanjana(0x3C));
    assert!(is_varga(0x24) && !is_varga(0x29) && !is_varga(0x06));
    assert!(is_bhasha_control(0x26) && !is_bhasha_control(0x2F));
    assert!(is_lipi_control(0x2F) && !is_lipi_control(0x26));
    assert!(!is_vyanjana(0x05) && !is_bhasha_control(0x05) && !is_lipi_control(0x05));
}

#[test]
fn field_extractors() {
    assert_eq!(place(0x1B), 3);
    assert_eq!(slbc::types::column(0x1B), 3);
    assert_eq!(svara_q(0x95), 2);
    assert_eq!(svara_a(0x95), 1);
    assert_eq!(svara_s(0x95), 1);
    assert_eq!(svara_g(0x95), 1);
    assert_eq!(svara_q(0xE7), 3);
    assert_eq!(svara_a(0xE7), 2);
    assert_eq!(svara_s(0xE7), 1);
    assert_eq!(svara_g(0xE7), 3);
}
