use slbc::transform::{
    dirgha, guna, homorganic_nasal, hrasva, jastva, make_nasal, samprasarana_to_sonorant,
    samprasarana_to_svara, savarna_dirgha, toggle_aspiration, toggle_voice, vrddhi,
    TransformError,
};
use slbc::types::svara_a;

#[test]
fn test_guna_i_to_e() {
    let r = guna(0x44).unwrap(); // i → e
    assert_eq!(r.output_byte, 0x85);
}

#[test]
fn test_vrddhi_i_to_ai() {
    let r = vrddhi(0x44).unwrap(); // i → ai
    assert_eq!(r.output_byte, 0x86);
}

#[test]
fn test_jastva_ka_to_ga() {
    let r = jastva(0x00).unwrap(); // ka → ga
    assert_eq!(r.output_byte, 0x02);
}

#[test]
fn test_jastva_rejects_sibilant() {
    assert!(jastva(0x29).is_err()); // śa is not varga
}

#[test]
fn test_samprasarana_ya_to_i() {
    let r = samprasarana_to_svara(0x31).unwrap();
    assert_eq!(r.output_byte, 0x44);
}

#[test]
fn test_samprasarana_la_to_lr() {
    let r = samprasarana_to_svara(0x34).unwrap();
    assert_eq!(r.output_byte, 0x4F); // la → ḷ (special case)
}

#[test]
fn test_toggle_voice() {
    let r = toggle_voice(0x00).unwrap(); // ka ↔ ga
    assert_eq!(r.output_byte, 0x02);
    let r2 = toggle_voice(0x02).unwrap(); // ga ↔ ka
    assert_eq!(r2.output_byte, 0x00);
}

#[test]
fn test_accent_preserved_through_guna() {
    // i with udātta accent: Q=01, A=01, S=01, G=00 = 0x54
    let udatta_i = 0x54u8;
    let r = guna(udatta_i).unwrap();
    // Should be e with udātta: Q=10, A=01, S=01, G=01 = 0x95
    assert_eq!(r.output_byte, 0x95);
    assert_eq!(svara_a(r.output_byte), 0b01); // accent preserved
}

#[test]
fn accent_preserved_through_vrddhi_dirgha_hrasva() {
    let r = vrddhi(0x54).unwrap();
    assert_eq!(r.output_byte, 0x96);
    assert_eq!(svara_a(r.output_byte), 0b01);
    let r = dirgha(0x54).unwrap();
    assert_eq!(r.output_byte, 0x94);
    assert_eq!(svara_a(r.output_byte), 0b01);
    let r = hrasva(0x94).unwrap();
    assert_eq!(r.output_byte, 0x54);
    assert_eq!(svara_a(r.output_byte), 0b01);
}

#[test]
fn result_carries_renderings() {
    let r = guna(0x44).unwrap();
    assert_eq!(r.input_byte, 0x44);
    assert_eq!(r.operation, "guṇa");
    assert_eq!(r.input_iast, "i");
    assert_eq!(r.output_iast, "e");
}

#[test]
fn guna_rejects_a_series_and_non_svara() {
    assert_eq!(
        guna(0x40).unwrap_err(),
        TransformError::UndefinedSeriesTransform { byte: 0x40 }
    );
    assert_eq!(guna(0x00).unwrap_err(), TransformError::NotASvara { byte: 0x00 });
}

#[test]
fn vrddhi_of_a_is_long_a_grade() {
    let r = vrddhi(0x40).unwrap();
    assert_eq!(r.output_byte, 0x82);
    assert_eq!(vrddhi(0x1F).unwrap_err(), TransformError::NotASvara { byte: 0x1F });
}

#[test]
fn dirgha_hrasva_quantity_only() {
    assert_eq!(dirgha(0x48).unwrap().output_byte, 0x88);
    assert_eq!(hrasva(0x8F).unwrap().output_byte, 0x4F);
    assert_eq!(dirgha(0xC5).unwrap().output_byte, 0x85);
    assert_eq!(hrasva(0x00).unwrap_err(), TransformError::NotASvara { byte: 0x00 });
}

#[test]
fn savarna_dirgha_same_series() {
    let r = savarna_dirgha(0x44, 0x84).unwrap();
    assert_eq!(r.output_byte, 0x84);
    assert_eq!(r.input_iast, "i + ī");
    assert_eq!(r.output_iast, "ī");
    assert_eq!(r.operation, "savarṇa-dīrgha");
    // Accent of the first operand, grade reset to śuddha.
    assert_eq!(savarna_dirgha(0x55, 0x84).unwrap().output_byte, 0x94);
}

#[test]
fn savarna_dirgha_rejections() {
    assert_eq!(
        savarna_dirgha(0x44, 0x48).unwrap_err(),
        TransformError::NotSavarna { first: 0x44, second: 0x48 }
    );
    assert_eq!(
        savarna_dirgha(0x00, 0x44).unwrap_err(),
        TransformError::NotASvara { byte: 0x00 }
    );
    assert_eq!(
        savarna_dirgha(0x44, 0x00).unwrap_err(),
        TransformError::NotASvara { byte: 0x00 }
    );
}

#[test]
fn vyanjana_operations() {
    assert_eq!(jastva(0x19).unwrap().output_byte, 0x1A); // tha → da
    assert_eq!(toggle_aspiration(0x00).unwrap().output_byte, 0x01);
    assert_eq!(toggle_aspiration(0x23).unwrap().output_byte, 0x22);
    assert_eq!(make_nasal(0x1A).unwrap().output_byte, 0x1C);
    let r = homorganic_nasal(0x21).unwrap();
    assert_eq!(r.output_byte, 0x24);
    assert_eq!(r.output_iast, "m");
    assert_eq!(make_nasal(0x31).unwrap_err(), TransformError::NotAVarga { byte: 0x31 });
    assert_eq!(toggle_voice(0x40).unwrap_err(), TransformError::NotAVarga { byte: 0x40 });
    assert_eq!(homorganic_nasal(0x38).unwrap_err(), TransformError::NotAVarga { byte: 0x38 });
    assert_eq!(jastva(0x29).unwrap_err(), TransformError::NotAVarga { byte: 0x29 });
}

#[test]
fn samprasarana_both_directions() {
    for (son, vow) in [(0x31u8, 0x44u8), (0x32, 0x48), (0x33, 0x4C), (0x34, 0x4F)] {
        assert_eq!(samprasarana_to_svara(son).unwrap().output_byte, vow);
        assert_eq!(samprasarana_to_sonorant(vow).unwrap().output_byte, son);
    }
    assert_eq!(
        samprasarana_to_svara(0x38).unwrap_err(),
        TransformError::NotASonorant { byte: 0x38 }
    );
    assert_eq!(
        samprasarana_to_sonorant(0x40).unwrap_err(),
        TransformError::NotSamprasaranaEligible { byte: 0x40 }
    );
}
