//! Phonological operations on packed bytes.
//!
//! Svara operations: guṇa, vṛddhi, dīrgha, hrasva, savarṇa-dīrgha.
//! Vyañjana operations (varga consonants only): jaśtva, voice and aspiration
//! toggles, nasalization. Saṃprasāraṇa: sonorant ↔ svara.

use vstd::prelude::*;
use crate::decoder::{byte_to_iast, iast_text};
use crate::types::{
    accent_of, is_svara, is_varga, series_of, svara_a, svara_byte, svara_from_fields, svara_s,
    varga_byte,
};

verus! {

/// The result of an operation: both bytes, the operation's name, and both
/// bytes' IAST renderings.
#[derive(Debug)]
pub struct TransformResult {
    pub input_byte: u8,
    pub output_byte: u8,
    pub operation: &'static str,
    pub input_iast: String,
    pub output_iast: String,
}

/// Why an operation does not apply to its input.
#[derive(Debug, Clone, Copy, PartialEq, Eq, Structural)]
pub enum TransformError {
    /// A svara operation got a byte that is not a svara.
    NotASvara { byte: u8 },
    /// A vyañjana operation got a byte that is not a varga consonant.
    NotAVarga { byte: u8 },
    /// Guṇa is not defined for the a-series.
    UndefinedSeriesTransform { byte: u8 },
    /// Savarṇa-dīrgha got two svaras of different series.
    NotSavarna { first: u8, second: u8 },
    /// Saṃprasāraṇa got a byte other than ya, va, ra, la.
    NotASonorant { byte: u8 },
    /// Reverse saṃprasāraṇa got a byte other than i, u, ṛ, ḷ.
    NotSamprasaranaEligible { byte: u8 },
}

/// `r` reports `input` turned into `output`, with both renderings.
pub open spec fn reports(r: TransformResult, input: u8, output: u8) -> bool {
    &&& r.input_byte == input
    &&& r.output_byte == output
    &&& r.input_iast@ == iast_text(input)
    &&& r.output_iast@ == iast_text(output)
}

fn make_result(input: u8, output: u8, op: &'static str) -> (r: TransformResult)
    ensures
        reports(r, input, output),
        r.operation == op,
{
    TransformResult {
        input_byte: input,
        output_byte: output,
        operation: op,
        input_iast: String::from_str(byte_to_iast(input)),
        output_iast: String::from_str(byte_to_iast(output)),
    }
}

proof fn lemma_assemble(q: u8, a: u8, s: u8, g: u8)
    requires
        q < 4,
        a < 4,
        s < 4,
        g < 4,
    ensures
        (q << 6u8) | (a << 4u8) | (s << 2u8) | g == q * 64 + a * 16 + s * 4 + g,
{
    assert((q << 6u8) | (a << 4u8) | (s << 2u8) | g == q * 64 + a * 16 + s * 4 + g)
        by (bit_vector)
        requires
            q < 4,
            a < 4,
            s < 4,
            g < 4,
    ;
}

proof fn lemma_fields_of(q: u8, a: u8, s: u8, g: u8)
    requires
        1 <= q < 4,
        a < 4,
        s < 4,
        g < 4,
    ensures
        svara_from_fields(q, a, s, g) <= 255,
        svara_byte(svara_from_fields(q, a, s, g) as u8),
        accent_of(svara_from_fields(q, a, s, g) as u8) == a,
        series_of(svara_from_fields(q, a, s, g) as u8) == s,
{
    let x = svara_from_fields(q, a, s, g);
    assert((x / 16) % 4 == a && (x / 4) % 4 == s) by (nonlinear_arith)
        requires
            x == q * 64 + a * 16 + s * 4 + g,
            a < 4,
            s < 4,
            g < 4,
            q < 4,
    ;
}

/// Guṇa: Q := dīrgha, G := guṇa; accent and series kept. Not defined for
/// the a-series.
pub fn guna(b: u8) -> (r: Result<TransformResult, TransformError>)
    ensures
        !svara_byte(b) ==> r == Err::<TransformResult, _>(TransformError::NotASvara { byte: b }),
        svara_byte(b) && series_of(b) == 0 ==> r == Err::<TransformResult, _>(
            TransformError::UndefinedSeriesTransform { byte: b },
        ),
        svara_byte(b) && series_of(b) != 0 ==> (r matches Ok(t) && t.operation@ == "guṇa"@
            && reports(t, b, svara_from_fields(2, accent_of(b), series_of(b), 1) as u8)
            && accent_of(t.output_byte) == accent_of(b)),
{
    if !is_svara(b) {
        return Err(TransformError::NotASvara { byte: b });
    }
    let s = svara_s(b);
    if s == 0 {
        return Err(TransformError::UndefinedSeriesTransform { byte: b });
    }
    let accent = svara_a(b);
    proof {
        lemma_assemble(2, accent, s, 1);
        lemma_fields_of(2, accent, s, 1);
    }
    let result = (0b10 << 6) | (accent << 4) | (s << 2) | 0b01;
    Ok(make_result(b, result, "guṇa"))
}

/// Vṛddhi: Q := dīrgha, G := vṛddhi; accent and series kept (a → ā for the
/// a-series).
pub fn vrddhi(b: u8) -> (r: Result<TransformResult, TransformError>)
    ensures
        !svara_byte(b) ==> r == Err::<TransformResult, _>(TransformError::NotASvara { byte: b }),
        svara_byte(b) ==> (r matches Ok(t) && t.operation@ == "vṛddhi"@
            && reports(t, b, svara_from_fields(2, accent_of(b), series_of(b), 2) as u8)
            && accent_of(t.output_byte) == accent_of(b)),
{
    if !is_svara(b) {
        return Err(TransformError::NotASvara { byte: b });
    }
    let s = svara_s(b);
    let accent = svara_a(b);
    proof {
        lemma_assemble(2, accent, s, 2);
        lemma_assemble(2, accent, 0, 2);
        lemma_fields_of(2, accent, s, 2);
    }
    if s == 0b00 {
        // a → ā: the a-series keeps S = a.
        let result = (0b10 << 6) | (accent << 4) | (0 << 2) | 0b10;
        return Ok(make_result(b, result, "vṛddhi"));
    }
    let result = (0b10 << 6) | (accent << 4) | (s << 2) | 0b10;
    Ok(make_result(b, result, "vṛddhi"))
}

proof fn lemma_set_quantity(b: u8, q: u8)
    requires
        1 <= q < 4,
    ensures
        (b & 0x3Fu8) | (q << 6u8) == b % 64 + q * 64,
        accent_of((b % 64 + q * 64) as u8) == accent_of(b),
        series_of((b % 64 + q * 64) as u8) == series_of(b),
        svara_byte((b % 64 + q * 64) as u8),
{
    assert((b & 0x3Fu8) | (q << 6u8) == b % 64 + q * 64) by (bit_vector)
        requires
            q < 4,
    ;
    let x = b % 64 + q * 64;
    assert((x / 16) % 4 == (b / 16) % 4 && (x / 4) % 4 == (b / 4) % 4) by (nonlinear_arith)
        requires
            x == b % 64 + q * 64,
            q < 4,
            0 <= b < 256,
    ;
}

/// Dīrgha: Q := dīrgha; A, S and G kept.
pub fn dirgha(b: u8) -> (r: Result<TransformResult, TransformError>)
    ensures
        !svara_byte(b) ==> r == Err::<TransformResult, _>(TransformError::NotASvara { byte: b }),
        svara_byte(b) ==> (r matches Ok(t) && t.operation@ == "dīrgha"@ && reports(
            t,
            b,
            (b % 64 + 128) as u8,
        ) && accent_of(t.output_byte) == accent_of(b)),
{
    if !is_svara(b) {
        return Err(TransformError::NotASvara { byte: b });
    }
    proof {
        lemma_set_quantity(b, 2);
    }
    let result = (b & 0b00_11_11_11) | (0b10 << 6);
    Ok(make_result(b, result, "dīrgha"))
}

/// Hrasva: Q := hrasva; A, S and G kept.
pub fn hrasva(b: u8) -> (r: Result<TransformResult, TransformError>)
    ensures
        !svara_byte(b) ==> r == Err::<TransformResult, _>(TransformError::NotASvara { byte: b }),
        svara_byte(b) ==> (r matches Ok(t) && t.operation@ == "hrasva"@ && reports(
            t,
            b,
            (b % 64 + 64) as u8,
        ) && accent_of(t.output_byte) == accent_of(b)),
{
    if !is_svara(b) {
        return Err(TransformError::NotASvara { byte: b });
    }
    proof {
        lemma_set_quantity(b, 1);
    }
    let result = (b & 0b00_11_11_11) | (0b01 << 6);
    Ok(make_result(b, result, "hrasva"))
}

/// Savarṇa-dīrgha: two svaras of one series give the long śuddha vowel of
/// that series, with the accent of the first.
pub fn savarna_dirgha(a: u8, b: u8) -> (r: Result<TransformResult, TransformError>)
    ensures
        !svara_byte(a) ==> r == Err::<TransformResult, _>(TransformError::NotASvara { byte: a }),
        svara_byte(a) && !svara_byte(b) ==> r == Err::<TransformResult, _>(
            TransformError::NotASvara { byte: b },
        ),
        svara_byte(a) && svara_byte(b) && series_of(a) != series_of(b) ==> r == Err::<
            TransformResult,
            _,
        >(TransformError::NotSavarna { first: a, second: b }),
        svara_byte(a) && svara_byte(b) && series_of(a) == series_of(b) ==> (r matches Ok(t)
            && t.operation@ == "savarṇa-dīrgha"@ && t.input_byte == a && t.output_byte
            == svara_from_fields(2, accent_of(a), series_of(a), 0) as u8 && t.input_iast@
            == iast_text(a) + " + "@ + iast_text(b) && t.output_iast@ == iast_text(t.output_byte)),
{
    if !is_svara(a) {
        return Err(TransformError::NotASvara { byte: a });
    }
    if !is_svara(b) {
        return Err(TransformError::NotASvara { byte: b });
    }
    if svara_s(a) != svara_s(b) {
        return Err(TransformError::NotSavarna { first: a, second: b });
    }
    let accent = svara_a(a);
    let s = svara_s(a);
    proof {
        lemma_assemble(2, accent, s, 0);
    }
    let result = (0b10 << 6) | (accent << 4) | (s << 2) | 0;
    let mut input_iast = String::from_str(byte_to_iast(a));
    input_iast.append(" + ");
    input_iast.append(byte_to_iast(b));
    Ok(
        TransformResult {
            input_byte: a,
            output_byte: result,
            operation: "savarṇa-dīrgha",
            input_iast,
            output_iast: String::from_str(byte_to_iast(result)),
        },
    )
}

/// Jaśtva: COLUMN := voiced unaspirated (2), PLACE kept.
pub fn jastva(b: u8) -> (r: Result<TransformResult, TransformError>)
    ensures
        !varga_byte(b) ==> r == Err::<TransformResult, _>(TransformError::NotAVarga { byte: b }),
        varga_byte(b) ==> (r matches Ok(t) && t.operation@ == "jaśtva"@ && reports(
            t,
            b,
            (b - b % 8 + 2) as u8,
        )),
{
    if !is_varga(b) {
        return Err(TransformError::NotAVarga { byte: b });
    }
    assert((b & 0xF8u8) | 2u8 == b - b % 8 + 2) by (bit_vector);
    let result = (b & 0b11_111_000) | 0b010;
    Ok(make_result(b, result, "jaśtva"))
}

/// Toggle voice: flip the voice bit of COLUMN.
pub fn toggle_voice(b: u8) -> (r: Result<TransformResult, TransformError>)
    ensures
        !varga_byte(b) ==> r == Err::<TransformResult, _>(TransformError::NotAVarga { byte: b }),
        varga_byte(b) ==> (r matches Ok(t) && t.operation@ == "toggle voice"@ && reports(
            t,
            b,
            b ^ 2u8,
        )),
{
    if !is_varga(b) {
        return Err(TransformError::NotAVarga { byte: b });
    }
    let result = b ^ 0b010;
    Ok(make_result(b, result, "toggle voice"))
}

/// Toggle aspiration: flip the aspiration bit of COLUMN.
pub fn toggle_aspiration(b: u8) -> (r: Result<TransformResult, TransformError>)
    ensures
        !varga_byte(b) ==> r == Err::<TransformResult, _>(TransformError::NotAVarga { byte: b }),
        varga_byte(b) ==> (r matches Ok(t) && t.operation@ == "toggle aspiration"@ && reports(
            t,
            b,
            b ^ 1u8,
        )),
{
    if !is_varga(b) {
        return Err(TransformError::NotAVarga { byte: b });
    }
    let result = b ^ 0b001;
    Ok(make_result(b, result, "toggle aspiration"))
}

/// Make nasal: COLUMN := nasal (4), PLACE kept.
pub fn make_nasal(b: u8) -> (r: Result<TransformResult, TransformError>)
    ensures
        !varga_byte(b) ==> r == Err::<TransformResult, _>(TransformError::NotAVarga { byte: b }),
        varga_byte(b) ==> (r matches Ok(t) && t.operation@ == "make nasal"@ && reports(
            t,
            b,
            (b - b % 8 + 4) as u8,
        )),
{
    if !is_varga(b) {
        return Err(TransformError::NotAVarga { byte: b });
    }
    assert((b & 0xF8u8) | 4u8 == b - b % 8 + 4) by (bit_vector);
    let result = (b & 0b11_111_000) | 0b100;
    Ok(make_result(b, result, "make nasal"))
}

/// Homorganic nasal: the nasal at the PLACE of `target`.
pub fn homorganic_nasal(target: u8) -> (r: Result<TransformResult, TransformError>)
    ensures
        !varga_byte(target) ==> r == Err::<TransformResult, _>(
            TransformError::NotAVarga { byte: target },
        ),
        varga_byte(target) ==> (r matches Ok(t) && t.operation@ == "homorganic nasal"@ && reports(
            t,
            target,
            (target - target % 8 + 4) as u8,
        )),
{
    if !is_varga(target) {
        return Err(TransformError::NotAVarga { byte: target });
    }
    assert((target & 0xF8u8) | 4u8 == target - target % 8 + 4) by (bit_vector);
    let result = (target & 0b11_111_000) | 0b100;
    Ok(make_result(target, result, "homorganic nasal"))
}

/// The saṃprasāraṇa table: ya ↔ i, va ↔ u, ra ↔ ṛ, and la ↔ ḷ, an
/// enumerated exception.
pub open spec fn sonorant_to_svara(b: u8) -> Option<u8> {
    if b == 0x31 {
        Some(0x44u8)
    } else if b == 0x32 {
        Some(0x48u8)
    } else if b == 0x33 {
        Some(0x4Cu8)
    } else if b == 0x34 {
        Some(0x4Fu8)
    } else {
        None
    }
}

pub open spec fn svara_to_sonorant(b: u8) -> Option<u8> {
    if b == 0x44 {
        Some(0x31u8)
    } else if b == 0x48 {
        Some(0x32u8)
    } else if b == 0x4C {
        Some(0x33u8)
    } else if b == 0x4F {
        Some(0x34u8)
    } else {
        None
    }
}

/// Sonorant → svara (saṃprasāraṇa).
pub fn samprasarana_to_svara(b: u8) -> (r: Result<TransformResult, TransformError>)
    ensures
        sonorant_to_svara(b) is None ==> r == Err::<TransformResult, _>(
            TransformError::NotASonorant { byte: b },
        ),
        sonorant_to_svara(b) matches Some(v) ==> (r matches Ok(t) && t.operation@
            == "saṃprasāraṇa (→svara)"@ && reports(t, b, v)),
{
    let result: u8 = if b == 0x31 {
        0x44  // ya → i
    } else if b == 0x32 {
        0x48  // va → u
    } else if b == 0x33 {
        0x4C  // ra → ṛ
    } else if b == 0x34 {
        0x4F  // la → ḷ
    } else {
        return Err(TransformError::NotASonorant { byte: b });
    };
    Ok(make_result(b, result, "saṃprasāraṇa (→svara)"))
}

/// Svara → sonorant (reverse saṃprasāraṇa).
pub fn samprasarana_to_sonorant(b: u8) -> (r: Result<TransformResult, TransformError>)
    ensures
        svara_to_sonorant(b) is None ==> r == Err::<TransformResult, _>(
            TransformError::NotSamprasaranaEligible { byte: b },
        ),
        svara_to_sonorant(b) matches Some(v) ==> (r matches Ok(t) && t.operation@
            == "saṃprasāraṇa (→sonorant)"@ && reports(t, b, v)),
{
    let result: u8 = if b == 0x44 {
        0x31  // i → ya
    } else if b == 0x48 {
        0x32  // u → va
    } else if b == 0x4C {
        0x33  // ṛ → ra
    } else if b == 0x4F {
        0x34  // ḷ → la
    } else {
        return Err(TransformError::NotSamprasaranaEligible { byte: b });
    };
    Ok(make_result(b, result, "saṃprasāraṇa (→sonorant)"))
}

} // verus!
