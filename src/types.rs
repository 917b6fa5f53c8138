//! Byte constants and the classification of packed phoneme bytes.
//!
//! Vyañjana: `00 PLACE[3] COLUMN[3]`
//! Svara:    `Q[2] A[2] S[2] G[2]`

use vstd::prelude::*;

verus! {

// ── Bhāṣā control bytes (COLUMN = 110) ──
pub const META_START: u8 = 0x06;
pub const META_END: u8 = 0x0E;
pub const PHON_START: u8 = 0x16;
pub const PHON_END: u8 = 0x1E;
pub const PADA_START: u8 = 0x26;
pub const PADA_END: u8 = 0x2E;
// 0x36 reserved
pub const SANKHYA_START: u8 = 0x3E;

// ── Lipi control bytes (COLUMN = 111) ──
// 0x07 reserved
pub const DANDA: u8 = 0x0F;
pub const DOUBLE_DANDA: u8 = 0x17;
pub const SPACE: u8 = 0x1F;
pub const AVAGRAHA: u8 = 0x27;
pub const NUM: u8 = 0x2F;
pub const META_EXT: u8 = 0x37;
// 0x3F reserved

// ── Chunk types ──
pub const CHUNK_PHON: u8 = 0x01;
pub const CHUNK_BHA: u8 = 0x02;
pub const CHUNK_LIPI: u8 = 0x03;
pub const CHUNK_META: u8 = 0x04;
pub const CHUNK_DICT: u8 = 0x05;
pub const CHUNK_IDX: u8 = 0x06;
pub const CHUNK_ANVY: u8 = 0x07;
pub const CHUNK_EXT: u8 = 0x10;
pub const CHUNK_EOF: u8 = 0xFF;

// ── Container ──
pub const MAGIC: [u8; 4] = [0x53, 0x4C, 0x42, 0x43];
pub const VERSION: [u8; 4] = [0x00, 0x00, 0x00, 0x0A];

// ── Flag bits (byte 11 of the header) ──
pub const FLAG_HAS_LIPI: u8 = 0x80;
pub const FLAG_HAS_META: u8 = 0x40;
pub const FLAG_INTERLEAVED: u8 = 0x20;
pub const FLAG_VEDIC: u8 = 0x10;
pub const FLAG_VYA: u8 = 0x08;

// ── The bit layout, as spec functions ──

/// Bits [7:6] are not both zero.
pub open spec fn svara_byte(b: u8) -> bool {
    b >= 0x40
}

/// Bits [5:3]: place of articulation of a consonant.
pub open spec fn place_of(b: u8) -> u8 {
    ((b / 8) % 8) as u8
}

/// Bits [2:0]: manner (column) of a consonant, or the control lane.
pub open spec fn column_of(b: u8) -> u8 {
    b % 8
}

pub open spec fn vyanjana_byte(b: u8) -> bool {
    !svara_byte(b) && column_of(b) <= 4
}

pub open spec fn varga_byte(b: u8) -> bool {
    vyanjana_byte(b) && place_of(b) <= 4
}

pub open spec fn bhasha_control_byte(b: u8) -> bool {
    !svara_byte(b) && column_of(b) == 6
}

pub open spec fn lipi_control_byte(b: u8) -> bool {
    !svara_byte(b) && column_of(b) == 7
}

/// Bits [7:6] of a svara: quantity (1 hrasva, 2 dīrgha, 3 pluta).
pub open spec fn quantity_of(b: u8) -> u8 {
    b / 64
}

/// Bits [5:4] of a svara: accent (0 neutral, 1 udātta, 2 anudātta, 3 svarita).
pub open spec fn accent_of(b: u8) -> u8 {
    ((b / 16) % 4) as u8
}

/// Bits [3:2] of a svara: series (0 a, 1 i, 2 u, 3 ṛ).
pub open spec fn series_of(b: u8) -> u8 {
    ((b / 4) % 4) as u8
}

/// Bits [1:0] of a svara: grade (0 śuddha, 1 guṇa, 2 vṛddhi, 3 special).
pub open spec fn grade_of(b: u8) -> u8 {
    b % 4
}

/// The byte assembled from the four svara fields.
pub open spec fn svara_from_fields(q: u8, a: u8, s: u8, g: u8) -> int {
    q * 64 + a * 16 + s * 4 + g
}

/// Every byte falls in exactly one class: svara, vyañjana, bhāṣā control,
/// lipi control, or reserved (a structural byte with COLUMN = 5).
pub proof fn lemma_classes_partition(b: u8)
    ensures
        svara_byte(b) || vyanjana_byte(b) || bhasha_control_byte(b) || lipi_control_byte(b)
            || (!svara_byte(b) && column_of(b) == 5),
        !(svara_byte(b) && vyanjana_byte(b)),
        !(vyanjana_byte(b) && bhasha_control_byte(b)),
        !(vyanjana_byte(b) && lipi_control_byte(b)),
        !(bhasha_control_byte(b) && lipi_control_byte(b)),
{
}

/// The shifts and masks of the exec extractors agree with the arithmetic
/// fields above.
proof fn lemma_byte_fields(b: u8)
    ensures
        (b >> 6u8 != 0) == (b >= 0x40),
        (b >> 6u8 == 0) == (b < 0x40),
        b & 7 == b % 8,
        (b >> 3u8) & 7 == (b / 8) % 8,
        (b >> 6u8) & 3 == b / 64,
        (b >> 4u8) & 3 == (b / 16) % 4,
        (b >> 2u8) & 3 == (b / 4) % 4,
        b & 3 == b % 4,
{
    assert((b >> 6u8 != 0) == (b >= 0x40) && (b >> 6u8 == 0) == (b < 0x40) && b & 7 == b % 8
        && (b >> 3u8) & 7 == (b / 8) % 8 && (b >> 6u8) & 3 == b / 64 && (b >> 4u8) & 3 == (b / 16)
        % 4 && (b >> 2u8) & 3 == (b / 4) % 4 && b & 3 == b % 4) by (bit_vector);
}

/// Returns true if the byte is a svara (bits[7:6] ≠ 00).
pub fn is_svara(b: u8) -> (r: bool)
    ensures
        r == svara_byte(b),
{
    proof { lemma_byte_fields(b); }
    (b >> 6) != 0
}

/// Returns true if the byte is a vyañjana (bits[7:6] = 00, COLUMN ∈ 0–4).
pub fn is_vyanjana(b: u8) -> (r: bool)
    ensures
        r == vyanjana_byte(b),
{
    proof { lemma_byte_fields(b); }
    (b >> 6) == 0 && (b & 0x07) <= 4
}

/// Returns true if the byte is a varga consonant (PLACE ∈ 0–4).
pub fn is_varga(b: u8) -> (r: bool)
    ensures
        r == varga_byte(b),
{
    proof { lemma_byte_fields(b); }
    (b >> 6) == 0 && ((b >> 3) & 0x07) <= 4 && (b & 0x07) <= 4
}

/// Returns true if the byte is a bhāṣā control (COLUMN = 110).
pub fn is_bhasha_control(b: u8) -> (r: bool)
    ensures
        r == bhasha_control_byte(b),
{
    proof { lemma_byte_fields(b); }
    (b >> 6) == 0 && (b & 0x07) == 6
}

/// Returns true if the byte is a lipi control (COLUMN = 111).
pub fn is_lipi_control(b: u8) -> (r: bool)
    ensures
        r == lipi_control_byte(b),
{
    proof { lemma_byte_fields(b); }
    (b >> 6) == 0 && (b & 0x07) == 7
}

/// Extract the PLACE field of a vyañjana byte.
pub fn place(b: u8) -> (r: u8)
    ensures
        r == place_of(b),
{
    proof { lemma_byte_fields(b); }
    (b >> 3) & 0x07
}

/// Extract the COLUMN field of a vyañjana byte.
pub fn column(b: u8) -> (r: u8)
    ensures
        r == column_of(b),
{
    proof { lemma_byte_fields(b); }
    b & 0x07
}

/// Extract the Q (quantity) field of a svara byte.
pub fn svara_q(b: u8) -> (r: u8)
    ensures
        r == quantity_of(b),
{
    proof { lemma_byte_fields(b); }
    (b >> 6) & 0x03
}

/// Extract the A (accent) field of a svara byte.
pub fn svara_a(b: u8) -> (r: u8)
    ensures
        r == accent_of(b),
{
    proof { lemma_byte_fields(b); }
    (b >> 4) & 0x03
}

/// Extract the S (series) field of a svara byte.
pub fn svara_s(b: u8) -> (r: u8)
    ensures
        r == series_of(b),
{
    proof { lemma_byte_fields(b); }
    (b >> 2) & 0x03
}

/// Extract the G (grade) field of a svara byte.
pub fn svara_g(b: u8) -> (r: u8)
    ensures
        r == grade_of(b),
{
    proof { lemma_byte_fields(b); }
    b & 0x03
}

} // verus!
