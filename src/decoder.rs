//! Packed bytes → IAST or Devanāgarī text.
//!
//! Two single-pass, left-to-right decoders walk a PHON payload. The IAST
//! decoder is stateless beyond its cursor; the Devanāgarī decoder carries one
//! flag: a consonant glyph is waiting for its vowel sign or virāma.

use vstd::prelude::*;
use crate::container::ContainerError;
use crate::container::uleb_read;
use crate::numeral::{
    decode_num, decode_sankhya, digit_word, find_pada_end, glyph_run_end, lookup_from, num_spec,
    read_padas, sankhya_spec,
};
use crate::text::push_char;
use crate::types::{
    accent_of, bhasha_control_byte, is_bhasha_control, is_lipi_control, is_svara, is_vyanjana,
    lipi_control_byte, svara_byte, vyanjana_byte, AVAGRAHA, DANDA, DOUBLE_DANDA, META_END,
    META_START, NUM, PADA_END, PADA_START, PHON_END, PHON_START, SANKHYA_START, SPACE,
};

verus! {

/// Why a payload could not be decoded.
#[derive(Debug, Clone, Copy, PartialEq, Eq, Structural)]
pub enum DecodeError {
    /// A byte of no class, or a digit glyph code outside 0–9.
    UnexpectedByte { byte: u8, offset: usize },
    /// A digit pada with no PADA_END before the end of the payload.
    UnterminatedDigitPada,
    /// A digit pada whose bytes are none of the ten digit words.
    InvalidDigitWord { offset: usize },
    /// A marker byte that must stand at `offset` is missing.
    ExpectedMarker { expected: u8, offset: usize },
    /// The digit count of a numeral span is not a valid varint.
    BadDigitCount { offset: usize, cause: ContainerError },
}

/// The accent-free form of a svara byte: the A field cleared.
pub open spec fn svara_base(b: u8) -> u8 {
    (b - accent_of(b) * 16) as u8
}

proof fn lemma_svara_base(b: u8)
    ensures
        b & 0xCF == svara_base(b),
{
    assert(b & 0xCF == b - ((b / 16) % 4) * 16) by (bit_vector);
}

/// IAST text of a svara, by its accent-free form.
pub open spec fn svara_iast(base: u8) -> Seq<char> {
    if base == 0x40 {
        "a"@
    } else if base == 0x80 {
        "ā"@
    } else if base == 0x44 {
        "i"@
    } else if base == 0x84 {
        "ī"@
    } else if base == 0x48 {
        "u"@
    } else if base == 0x88 {
        "ū"@
    } else if base == 0x4C {
        "ṛ"@
    } else if base == 0x8C {
        "ṝ"@
    } else if base == 0x4F {
        "ḷ"@
    } else if base == 0x8F {
        "ḹ"@
    } else if base == 0x85 {
        "e"@
    } else if base == 0x86 {
        "ai"@
    } else if base == 0x89 {
        "o"@
    } else if base == 0x8A {
        "au"@
    } else {
        "?"@
    }
}

/// IAST text of a vyañjana byte.
pub open spec fn vyanjana_iast(b: u8) -> Seq<char> {
    if b == 0x00 {
        "k"@
    } else if b == 0x01 {
        "kh"@
    } else if b == 0x02 {
        "g"@
    } else if b == 0x03 {
        "gh"@
    } else if b == 0x04 {
        "ṅ"@
    } else if b == 0x08 {
        "c"@
    } else if b == 0x09 {
        "ch"@
    } else if b == 0x0A {
        "j"@
    } else if b == 0x0B {
        "jh"@
    } else if b == 0x0C {
        "ñ"@
    } else if b == 0x10 {
        "ṭ"@
    } else if b == 0x11 {
        "ṭh"@
    } else if b == 0x12 {
        "ḍ"@
    } else if b == 0x13 {
        "ḍh"@
    } else if b == 0x14 {
        "ṇ"@
    } else if b == 0x18 {
        "t"@
    } else if b == 0x19 {
        "th"@
    } else if b == 0x1A {
        "d"@
    } else if b == 0x1B {
        "dh"@
    } else if b == 0x1C {
        "n"@
    } else if b == 0x20 {
        "p"@
    } else if b == 0x21 {
        "ph"@
    } else if b == 0x22 {
        "b"@
    } else if b == 0x23 {
        "bh"@
    } else if b == 0x24 {
        "m"@
    } else if b == 0x29 {
        "ś"@
    } else if b == 0x2A {
        "ṣ"@
    } else if b == 0x2B {
        "s"@
    } else if b == 0x31 {
        "y"@
    } else if b == 0x32 {
        "v"@
    } else if b == 0x33 {
        "r"@
    } else if b == 0x34 {
        "l"@
    } else if b == 0x38 {
        "h"@
    } else if b == 0x39 {
        "ḥ"@
    } else if b == 0x3A {
        "ṃ"@
    } else if b == 0x3B {
        "ẖ"@
    } else if b == 0x3C {
        "ḫ"@
    } else {
        "?"@
    }
}

/// IAST text of a phoneme byte; "?" for a byte outside the tables.
pub open spec fn iast_text(b: u8) -> Seq<char> {
    if svara_byte(b) {
        svara_iast(svara_base(b))
    } else if vyanjana_byte(b) {
        vyanjana_iast(b)
    } else {
        "?"@
    }
}

fn svara_to_iast(b: u8) -> (r: &'static str)
    ensures
        r@ == svara_iast(svara_base(b)),
{
    proof {
        lemma_svara_base(b);
    }
    match b & 0xCF {
        0x40 => "a",
        0x80 => "ā",
        0x44 => "i",
        0x84 => "ī",
        0x48 => "u",
        0x88 => "ū",
        0x4C => "ṛ",
        0x8C => "ṝ",
        0x4F => "ḷ",
        0x8F => "ḹ",
        0x85 => "e",
        0x86 => "ai",
        0x89 => "o",
        0x8A => "au",
        _ => "?",
    }
}

fn vyanjana_to_iast(b: u8) -> (r: &'static str)
    ensures
        r@ == vyanjana_iast(b),
{
    match b {
        0x00 => "k",
        0x01 => "kh",
        0x02 => "g",
        0x03 => "gh",
        0x04 => "ṅ",
        0x08 => "c",
        0x09 => "ch",
        0x0A => "j",
        0x0B => "jh",
        0x0C => "ñ",
        0x10 => "ṭ",
        0x11 => "ṭh",
        0x12 => "ḍ",
        0x13 => "ḍh",
        0x14 => "ṇ",
        0x18 => "t",
        0x19 => "th",
        0x1A => "d",
        0x1B => "dh",
        0x1C => "n",
        0x20 => "p",
        0x21 => "ph",
        0x22 => "b",
        0x23 => "bh",
        0x24 => "m",
        0x29 => "ś",
        0x2A => "ṣ",
        0x2B => "s",
        0x31 => "y",
        0x32 => "v",
        0x33 => "r",
        0x34 => "l",
        0x38 => "h",
        0x39 => "ḥ",
        0x3A => "ṃ",
        0x3B => "ẖ",
        0x3C => "ḫ",
        _ => "?",
    }
}

/// Map a phoneme byte to its IAST text.
pub fn byte_to_iast(b: u8) -> (r: &'static str)
    ensures
        r@ == iast_text(b),
{
    if is_svara(b) {
        return svara_to_iast(b);
    }
    if is_vyanjana(b) {
        return vyanjana_to_iast(b);
    }
    "?"
}

/// Devanāgarī glyph of a consonant byte.
pub open spec fn deva_consonant(b: u8) -> Seq<char> {
    if b == 0x00 {
        "क"@
    } else if b == 0x01 {
        "ख"@
    } else if b == 0x02 {
        "ग"@
    } else if b == 0x03 {
        "घ"@
    } else if b == 0x04 {
        "ङ"@
    } else if b == 0x08 {
        "च"@
    } else if b == 0x09 {
        "छ"@
    } else if b == 0x0A {
        "ज"@
    } else if b == 0x0B {
        "झ"@
    } else if b == 0x0C {
        "ञ"@
    } else if b == 0x10 {
        "ट"@
    } else if b == 0x11 {
        "ठ"@
    } else if b == 0x12 {
        "ड"@
    } else if b == 0x13 {
        "ढ"@
    } else if b == 0x14 {
        "ण"@
    } else if b == 0x18 {
        "त"@
    } else if b == 0x19 {
        "थ"@
    } else if b == 0x1A {
        "द"@
    } else if b == 0x1B {
        "ध"@
    } else if b == 0x1C {
        "न"@
    } else if b == 0x20 {
        "प"@
    } else if b == 0x21 {
        "फ"@
    } else if b == 0x22 {
        "ब"@
    } else if b == 0x23 {
        "भ"@
    } else if b == 0x24 {
        "म"@
    } else if b == 0x29 {
        "श"@
    } else if b == 0x2A {
        "ष"@
    } else if b == 0x2B {
        "स"@
    } else if b == 0x31 {
        "य"@
    } else if b == 0x32 {
        "व"@
    } else if b == 0x33 {
        "र"@
    } else if b == 0x34 {
        "ल"@
    } else if b == 0x38 {
        "ह"@
    } else {
        "?"@
    }
}

fn byte_to_devanagari_consonant(b: u8) -> (r: &'static str)
    ensures
        r@ == deva_consonant(b),
{
    match b {
        0x00 => "क",
        0x01 => "ख",
        0x02 => "ग",
        0x03 => "घ",
        0x04 => "ङ",
        0x08 => "च",
        0x09 => "छ",
        0x0A => "ज",
        0x0B => "झ",
        0x0C => "ञ",
        0x10 => "ट",
        0x11 => "ठ",
        0x12 => "ड",
        0x13 => "ढ",
        0x14 => "ण",
        0x18 => "त",
        0x19 => "थ",
        0x1A => "द",
        0x1B => "ध",
        0x1C => "न",
        0x20 => "प",
        0x21 => "फ",
        0x22 => "ब",
        0x23 => "भ",
        0x24 => "म",
        0x29 => "श",
        0x2A => "ष",
        0x2B => "स",
        0x31 => "य",
        0x32 => "व",
        0x33 => "र",
        0x34 => "ल",
        0x38 => "ह",
        _ => "?",
    }
}

/// Independent Devanāgarī vowel, by the accent-free form.
pub open spec fn deva_independent(base: u8) -> Seq<char> {
    if base == 0x40 {
        "अ"@
    } else if base == 0x80 {
        "आ"@
    } else if base == 0x44 {
        "इ"@
    } else if base == 0x84 {
        "ई"@
    } else if base == 0x48 {
        "उ"@
    } else if base == 0x88 {
        "ऊ"@
    } else if base == 0x4C {
        "ऋ"@
    } else if base == 0x8C {
        "ॠ"@
    } else if base == 0x4F {
        "ऌ"@
    } else if base == 0x8F {
        "ॡ"@
    } else if base == 0x85 {
        "ए"@
    } else if base == 0x86 {
        "ऐ"@
    } else if base == 0x89 {
        "ओ"@
    } else if base == 0x8A {
        "औ"@
    } else {
        "?"@
    }
}

fn byte_to_devanagari_independent(b: u8) -> (r: &'static str)
    ensures
        r@ == deva_independent(svara_base(b)),
{
    proof {
        lemma_svara_base(b);
    }
    match b & 0xCF {
        0x40 => "अ",
        0x80 => "आ",
        0x44 => "इ",
        0x84 => "ई",
        0x48 => "उ",
        0x88 => "ऊ",
        0x4C => "ऋ",
        0x8C => "ॠ",
        0x4F => "ऌ",
        0x8F => "ॡ",
        0x85 => "ए",
        0x86 => "ऐ",
        0x89 => "ओ",
        0x8A => "औ",
        _ => "?",
    }
}

/// Dependent vowel sign (mātrā) after a consonant, by the accent-free form;
/// nothing for the inherent a, or for a svara outside the table.
pub open spec fn deva_matra(base: u8) -> Seq<char> {
    if base == 0x80 {
        "ा"@
    } else if base == 0x44 {
        "ि"@
    } else if base == 0x84 {
        "ी"@
    } else if base == 0x48 {
        "ु"@
    } else if base == 0x88 {
        "ू"@
    } else if base == 0x4C {
        "ृ"@
    } else if base == 0x8C {
        "ॄ"@
    } else if base == 0x4F {
        "ॢ"@
    } else if base == 0x8F {
        "ॣ"@
    } else if base == 0x85 {
        "े"@
    } else if base == 0x86 {
        "ै"@
    } else if base == 0x89 {
        "ो"@
    } else if base == 0x8A {
        "ौ"@
    } else {
        ""@
    }
}

fn byte_to_devanagari_matra(b: u8) -> (r: &'static str)
    ensures
        r@ == deva_matra(svara_base(b)),
{
    proof {
        lemma_svara_base(b);
    }
    match b & 0xCF {
        0x80 => "ा",
        0x44 => "ि",
        0x84 => "ी",
        0x48 => "ु",
        0x88 => "ू",
        0x4C => "ृ",
        0x8C => "ॄ",
        0x4F => "ॢ",
        0x8F => "ॣ",
        0x85 => "े",
        0x86 => "ै",
        0x89 => "ो",
        0x8A => "ौ",
        _ => "",
    }
}

/// Visarga and anusvāra: vyañjana bytes that render as marks after a vowel.
pub open spec fn postfix_mark_byte(b: u8) -> bool {
    b == 0x39 || b == 0x3A
}

fn is_postfix_mark(b: u8) -> (r: bool)
    ensures
        r == postfix_mark_byte(b),
{
    b == 0x39 || b == 0x3A
}

/// The Devanāgarī sign of visarga or anusvāra.
pub open spec fn deva_postfix(b: u8) -> Seq<char> {
    if b == 0x39 {
        "ः"@
    } else if b == 0x3A {
        "ं"@
    } else {
        ""@
    }
}

fn postfix_mark_devanagari(b: u8) -> (r: &'static str)
    ensures
        r@ == deva_postfix(b),
{
    match b {
        0x39 => "ः",
        0x3A => "ं",
        _ => "",
    }
}

/// The ASCII digit character of a value 0–9.
pub open spec fn ascii_digit(d: u8) -> char {
    if d == 0 {
        '0'
    } else if d == 1 {
        '1'
    } else if d == 2 {
        '2'
    } else if d == 3 {
        '3'
    } else if d == 4 {
        '4'
    } else if d == 5 {
        '5'
    } else if d == 6 {
        '6'
    } else if d == 7 {
        '7'
    } else if d == 8 {
        '8'
    } else {
        '9'
    }
}

fn ascii_digit_char(d: u8) -> (r: char)
    requires
        d < 10,
    ensures
        r == ascii_digit(d),
{
    match d {
        0 => '0',
        1 => '1',
        2 => '2',
        3 => '3',
        4 => '4',
        5 => '5',
        6 => '6',
        7 => '7',
        8 => '8',
        _ => '9',
    }
}

/// The Devanāgarī digit glyph of a value 0–9.
pub open spec fn deva_digit(d: u8) -> char {
    if d == 0 {
        '०'
    } else if d == 1 {
        '१'
    } else if d == 2 {
        '२'
    } else if d == 3 {
        '३'
    } else if d == 4 {
        '४'
    } else if d == 5 {
        '५'
    } else if d == 6 {
        '६'
    } else if d == 7 {
        '७'
    } else if d == 8 {
        '८'
    } else {
        '९'
    }
}

fn deva_digit_char(d: u8) -> (r: char)
    requires
        d < 10,
    ensures
        r == deva_digit(d),
{
    match d {
        0 => '०',
        1 => '१',
        2 => '२',
        3 => '३',
        4 => '४',
        5 => '५',
        6 => '६',
        7 => '७',
        8 => '८',
        _ => '९',
    }
}

/// Output script of the decoder.
#[derive(Debug, Clone, Copy, PartialEq, Eq, Structural)]
pub enum Script {
    Iast,
    Devanagari,
}

/// `piece` in front of a decoded rest; an error of the rest stands.
pub open spec fn prepend(piece: Seq<char>, rest: Result<Seq<char>, DecodeError>) -> Result<
    Seq<char>,
    DecodeError,
> {
    match rest {
        Ok(s) => Ok(piece + s),
        Err(e) => Err(e),
    }
}

/// The cursor moves on from `i` to `to`. A target past the end ends decoding,
/// as does one not past `i`, which no step produces.
pub open spec fn forward(i: nat, to: int, len: nat) -> nat {
    if i < to <= len {
        to as nat
    } else {
        len
    }
}

/// The first index at or after `i` that holds META_END, or the length.
pub open spec fn find_meta_end(data: Seq<u8>, i: nat) -> nat
    decreases data.len() - i,
{
    if i >= data.len() || data[i as int] == META_END {
        i
    } else {
        find_meta_end(data, i + 1)
    }
}

/// ASCII digits for digit values, in order.
pub open spec fn ascii_digits(ds: Seq<u8>) -> Seq<char> {
    ds.map_values(|d: u8| ascii_digit(d))
}

/// Digits for a run of glyph codes whose first stands at `offset`: a code
/// outside 0–9 is an unexpected byte.
pub open spec fn glyph_text(gs: Seq<u8>, offset: nat, deva: bool) -> Result<Seq<char>, DecodeError>
    decreases gs.len(),
{
    if gs.len() == 0 {
        Ok(seq![])
    } else if gs[0] >= 10 {
        Err(DecodeError::UnexpectedByte { byte: gs[0], offset: offset as usize })
    } else {
        prepend(
            seq![if deva { deva_digit(gs[0]) } else { ascii_digit(gs[0]) }],
            glyph_text(gs.drop_first(), offset + 1, deva),
        )
    }
}

/// The text of a lipi control byte other than NUM in IAST.
pub open spec fn lipi_iast(b: u8) -> Seq<char> {
    if b == SPACE {
        seq![' ']
    } else if b == DANDA {
        seq!['|']
    } else if b == DOUBLE_DANDA {
        seq!['|', '|']
    } else if b == AVAGRAHA {
        seq!['\'']
    } else {
        seq![]
    }
}

/// IAST decoding from offset `i`.
pub open spec fn iast_from(data: Seq<u8>, i: nat) -> Result<Seq<char>, DecodeError>
    decreases data.len() - i,
{
    let len = data.len();
    if i >= len {
        Ok(seq![])
    } else {
        let b = data[i as int];
        if bhasha_control_byte(b) {
            if b == META_START {
                // A META block is skipped up to and including META_END.
                iast_from(data, forward(i, find_meta_end(data, i + 1) + 1int, len))
            } else if b == SANKHYA_START {
                match sankhya_spec(data, i) {
                    Err(e) => Err(e),
                    Ok((ds, n)) => {
                        let j = (i + n) as int;
                        // The lipi span that follows repeats the value: skip it.
                        let k = if j < len && data[j] == NUM {
                            glyph_run_end(data, (j + 1) as nat) as int
                        } else {
                            j
                        };
                        prepend(ascii_digits(ds), iast_from(data, forward(i, k, len)))
                    },
                }
            } else {
                // Pada and phon markers, and reserved bhāṣā slots.
                iast_from(data, i + 1)
            }
        } else if lipi_control_byte(b) {
            if b == NUM {
                let e = glyph_run_end(data, i + 1);
                match glyph_text(data.subrange((i + 1) as int, e as int), i + 1, false) {
                    Err(err) => Err(err),
                    Ok(t) => prepend(t, iast_from(data, forward(i, e as int, len))),
                }
            } else {
                prepend(lipi_iast(b), iast_from(data, i + 1))
            }
        } else if svara_byte(b) || vyanjana_byte(b) {
            prepend(iast_text(b), iast_from(data, i + 1))
        } else {
            Err(DecodeError::UnexpectedByte { byte: b, offset: i as usize })
        }
    }
}

pub open spec fn decode_iast_spec(data: Seq<u8>) -> Result<Seq<char>, DecodeError> {
    iast_from(data, 0)
}

/// Push the digits of glyph codes `data[from..to]` onto `out`.
fn push_glyph_digits(out: &mut String, data: &[u8], from: usize, to: usize, deva: bool) -> (r: Result<(), DecodeError>)
    requires
        from <= to <= data@.len(),
    ensures
        match r {
            Ok(()) => glyph_text(data@.subrange(from as int, to as int), from as nat, deva)
                == Ok::<_, DecodeError>(final(out)@.subrange(old(out)@.len() as int, final(out)@.len() as int))
                && old(out)@.is_prefix_of(final(out)@),
            Err(e) => glyph_text(data@.subrange(from as int, to as int), from as nat, deva)
                == Err::<Seq<char>, _>(e),
        },
{
    let ghost start = out@;
    let mut k: usize = from;
    while k < to
        invariant
            from <= k <= to <= data@.len(),
            start.is_prefix_of(out@),
            glyph_text(data@.subrange(from as int, to as int), from as nat, deva) == prepend(
                out@.subrange(start.len() as int, out@.len() as int),
                glyph_text(data@.subrange(k as int, to as int), k as nat, deva),
            ),
        decreases to - k,
    {
        let g = data[k];
        assert(data@.subrange(k as int, to as int)[0] == g);
        if g >= 10 {
            return Err(DecodeError::UnexpectedByte { byte: g, offset: k });
        }
        let c = if deva {
            deva_digit_char(g)
        } else {
            ascii_digit_char(g)
        };
        let ghost before = out@;
        push_char(out, c);
        assert(data@.subrange(k as int, to as int).drop_first() =~= data@.subrange(k + 1, to as int));
        let ghost done_before = before.subrange(start.len() as int, before.len() as int);
        let ghost done_now = out@.subrange(start.len() as int, out@.len() as int);
        assert(done_now =~= done_before + seq![c]);
        assert(glyph_text(data@.subrange(k as int, to as int), k as nat, deva) == prepend(
            seq![c],
            glyph_text(data@.subrange(k + 1, to as int), (k + 1) as nat, deva),
        ));
        proof {
            match glyph_text(data@.subrange(k + 1, to as int), (k + 1) as nat, deva) {
                Ok(t) => {
                    assert(done_before + (seq![c] + t) =~= done_now + t);
                },
                Err(_) => {},
            }
        }
        k = k + 1;
    }
    assert(data@.subrange(k as int, to as int) =~= Seq::<u8>::empty());
    assert(out@.subrange(start.len() as int, out@.len() as int) + seq![] =~= out@.subrange(
        start.len() as int,
        out@.len() as int,
    ));
    Ok(())
}

proof fn lemma_prepend_assoc(a: Seq<char>, b: Seq<char>, r: Result<Seq<char>, DecodeError>)
    ensures
        prepend(a, prepend(b, r)) == prepend(a + b, r),
{
    match r {
        Ok(s) => {
            assert(a + (b + s) =~= (a + b) + s);
        },
        Err(_) => {},
    }
}

/// Skip a META block whose META_START stands at `i`: the offset after its
/// META_END, or the length when there is none.
fn skip_meta(data: &[u8], i: usize) -> (r: usize)
    requires
        i < data.len(),
    ensures
        r == forward(i as nat, find_meta_end(data@, (i + 1) as nat) + 1int, data@.len()),
{
    let mut j: usize = i + 1;
    while j < data.len() && data[j] != META_END
        invariant
            data@.len() == data.len(),
            i < j <= data@.len(),
            find_meta_end(data@, (i + 1) as nat) == find_meta_end(data@, j as nat),
        decreases data@.len() - j,
    {
        j = j + 1;
    }
    if j < data.len() {
        j + 1
    } else {
        data.len()
    }
}

/// One step of IAST decoding at offset `i`: the text it appends to `out`,
/// and the offset where decoding goes on.
fn iast_step(data: &[u8], i: usize, out: &mut String) -> (r: Result<usize, DecodeError>)
    requires
        i < data@.len(),
    ensures
        match r {
            Ok(j) => i < j <= data@.len() && exists|piece: Seq<char>|
                final(out)@ == old(out)@ + piece && iast_from(data@, i as nat) == prepend(
                    piece,
                    iast_from(data@, j as nat),
                ),
            Err(e) => iast_from(data@, i as nat) == Err::<Seq<char>, _>(e),
        },
{
    let b = data[i];
    let ghost before = out@;
    if is_bhasha_control(b) {
        if b == META_START {
            let j = skip_meta(data, i);
            assert(out@ == before + seq![] && iast_from(data@, i as nat) == prepend(
                seq![],
                iast_from(data@, j as nat),
            )) by {
                lemma_prepend_empty(iast_from(data@, j as nat));
                assert(before + seq![] =~= before);
            }
            return Ok(j);
        } else if b == SANKHYA_START {
            let (digits, consumed) = match decode_sankhya(data, i) {
                Ok(v) => v,
                Err(e) => {
                    return Err(e);
                },
            };
            let ghost ds = digits@;
            proof {
                lemma_sankhya_digits(data@, i as nat);
            }
            let mut k: usize = 0;
            while k < digits.len()
                invariant
                    digits@ == ds,
                    forall|m: int| 0 <= m < ds.len() ==> ds[m] < 10,
                    k <= ds.len(),
                    out@ == before + ascii_digits(ds.take(k as int)),
                decreases ds.len() - k,
            {
                push_char(out, ascii_digit_char(digits[k]));
                k = k + 1;
                assert(out@ =~= before + ascii_digits(ds.take(k as int)));
            }
            assert(ds.take(k as int) =~= ds);
            let mut j = i + consumed;
            if j < data.len() && data[j] == NUM {
                let (_, num_consumed) = match decode_num(data, j) {
                    Ok(v) => v,
                    Err(e) => {
                        return Err(e);
                    },
                };
                j = j + num_consumed;
                assert(j == glyph_run_end(data@, (i + consumed + 1) as nat));
            }
            assert(sankhya_spec(data@, i as nat) == Ok::<_, DecodeError>((ds, consumed as nat)));
            assert(i < j <= data@.len());
            assert(out@ == before + ascii_digits(ds) && iast_from(data@, i as nat) == prepend(
                ascii_digits(ds),
                iast_from(data@, j as nat),
            ));
            return Ok(j);
        } else {
            // Pada and phon markers, and reserved bhāṣā slots.
            assert(out@ == before + seq![] && iast_from(data@, i as nat) == prepend(
                seq![],
                iast_from(data@, (i + 1) as nat),
            )) by {
                lemma_prepend_empty(iast_from(data@, (i + 1) as nat));
                assert(before + seq![] =~= before);
            }
            return Ok(i + 1);
        }
    }
    if is_lipi_control(b) {
        if b == NUM {
            let (_, consumed) = match decode_num(data, i) {
                Ok(v) => v,
                Err(e) => {
                    return Err(e);
                },
            };
            assert(i + consumed == glyph_run_end(data@, (i + 1) as nat));
            match push_glyph_digits(out, data, i + 1, i + consumed, false) {
                Ok(()) => {},
                Err(e) => {
                    assert(iast_from(data@, i as nat) == Err::<Seq<char>, _>(e));
                    return Err(e);
                },
            }
            let ghost piece = out@.subrange(before.len() as int, out@.len() as int);
            assert(out@ =~= before + piece);
            assert(iast_from(data@, i as nat) == prepend(piece, iast_from(data@, (i + consumed) as nat)));
            return Ok(i + consumed);
        }
        if b == SPACE {
            push_char(out, ' ');
        } else if b == DANDA {
            push_char(out, '|');
        } else if b == DOUBLE_DANDA {
            push_char(out, '|');
            push_char(out, '|');
        } else if b == AVAGRAHA {
            push_char(out, '\'');
        }
        assert(out@ =~= before + lipi_iast(b));
        assert(iast_from(data@, i as nat) == prepend(lipi_iast(b), iast_from(data@, (i + 1) as nat)));
        return Ok(i + 1);
    }
    if is_svara(b) || is_vyanjana(b) {
        out.append(byte_to_iast(b));
        assert(iast_from(data@, i as nat) == prepend(iast_text(b), iast_from(data@, (i + 1) as nat)));
        return Ok(i + 1);
    }
    Err(DecodeError::UnexpectedByte { byte: b, offset: i })
}

proof fn lemma_prepend_empty(r: Result<Seq<char>, DecodeError>)
    ensures
        prepend(seq![], r) == r,
{
    match r {
        Ok(s) => {
            assert(Seq::<char>::empty() + s =~= s);
        },
        Err(_) => {},
    }
}

/// Decode to IAST.
fn decode_to_iast(data: &[u8]) -> (r: Result<String, DecodeError>)
    ensures
        match r {
            Ok(s) => decode_iast_spec(data@) == Ok::<_, DecodeError>(s@),
            Err(e) => decode_iast_spec(data@) == Err::<Seq<char>, _>(e),
        },
{
    let mut out = String::new();
    let mut i: usize = 0;
    assert(prepend(out@, iast_from(data@, 0)) == iast_from(data@, 0)) by {
        assert(out@ =~= Seq::<char>::empty());
        match iast_from(data@, 0) {
            Ok(t) => {
                assert(out@ + t =~= t);
            },
            Err(_) => {},
        }
    }
    while i < data.len()
        invariant
            data@.len() == data.len(),
            i <= data@.len(),
            decode_iast_spec(data@) == prepend(out@, iast_from(data@, i as nat)),
        decreases data@.len() - i,
    {
        let ghost before = out@;
        match iast_step(data, i, &mut out) {
            Ok(j) => {
                let ghost piece = choose|piece: Seq<char>|
                    out@ == before + piece && iast_from(data@, i as nat) == prepend(
                        piece,
                        iast_from(data@, j as nat),
                    );
                proof {
                    lemma_prepend_assoc(before, piece, iast_from(data@, j as nat));
                }
                i = j;
            },
            Err(e) => {
                return Err(e);
            },
        }
    }
    assert(out@ + seq![] =~= out@);
    Ok(out)
}

/// The digits of a bhāṣā span are values 0–9.
proof fn lemma_sankhya_digits(data: Seq<u8>, pos: nat)
    ensures
        sankhya_spec(data, pos) matches Ok((ds, _)) ==> forall|m: int|
            0 <= m < ds.len() ==> ds[m] < 10,
{
    if sankhya_spec(data, pos) is Ok {
        match uleb_read(data, pos + 1) {
            Ok((count, c)) => {
                lemma_read_padas_digits(data, (pos + 1 + c) as nat, count as nat);
                let ds = read_padas(data, (pos + 1 + c) as nat, count as nat)->Ok_0.0;
                assert forall|m: int| 0 <= m < ds.reverse().len() implies ds.reverse()[m] < 10 by {
                    assert(ds.reverse()[m] == ds[ds.len() - 1 - m]);
                }
            },
            Err(_) => {},
        }
    }
}

proof fn lemma_read_padas_digits(data: Seq<u8>, i: nat, k: nat)
    ensures
        read_padas(data, i, k) matches Ok((ds, _)) ==> forall|m: int| 0 <= m < ds.len() ==> ds[m] < 10,
    decreases k,
{
    if k > 0 && i < data.len() && data[i as int] == PADA_START {
        let e = find_pada_end(data, i + 1);
        if e < data.len() {
            let w = data.subrange((i + 1) as int, e as int);
            lemma_lookup_below_ten(w, 0);
            lemma_read_padas_digits(data, e + 1, (k - 1) as nat);
        }
    }
}

proof fn lemma_lookup_below_ten(w: Seq<u8>, d: u8)
    ensures
        lookup_from(w, d) matches Some(x) ==> x < 10,
    decreases 10 - d,
{
    if d < 10 && digit_word(d) != w {
        lemma_lookup_below_ten(w, (d + 1) as u8);
    }
}

// ── Devanāgarī ──

/// A virāma, if a consonant is pending.
pub open spec fn virama_if(pending: bool) -> Seq<char> {
    if pending {
        seq!['्']
    } else {
        seq![]
    }
}

/// The sign of a lipi control byte other than NUM in Devanāgarī.
pub open spec fn lipi_deva(b: u8) -> Seq<char> {
    if b == SPACE {
        seq![' ']
    } else if b == DANDA {
        seq!['।']
    } else if b == DOUBLE_DANDA {
        seq!['॥']
    } else if b == AVAGRAHA {
        seq!['ऽ']
    } else {
        seq![]
    }
}

/// Devanāgarī decoding from offset `i`; `pending` says whether a consonant
/// glyph waits for its vowel sign or virāma.
pub open spec fn deva_from(data: Seq<u8>, i: nat, pending: bool) -> Result<Seq<char>, DecodeError>
    decreases data.len() - i,
{
    let len = data.len();
    if i >= len {
        Ok(virama_if(pending))
    } else {
        let b = data[i as int];
        if bhasha_control_byte(b) {
            if b == PADA_END {
                prepend(virama_if(pending), deva_from(data, i + 1, false))
            } else if b == META_START {
                deva_from(data, forward(i, find_meta_end(data, i + 1) + 1int, len), pending)
            } else if b == SANKHYA_START {
                // The bhāṣā span has no visual form; the lipi span after it
                // gives the glyphs.
                match sankhya_spec(data, i) {
                    Err(e) => Err(e),
                    Ok((_, n)) => {
                        let j = (i + n) as int;
                        if j < len && data[j] == NUM {
                            let e = glyph_run_end(data, (j + 1) as nat);
                            match glyph_text(data.subrange(j + 1, e as int), (j + 1) as nat, true) {
                                Err(err) => Err(err),
                                Ok(t) => prepend(
                                    virama_if(pending) + t,
                                    deva_from(data, forward(i, e as int, len), false),
                                ),
                            }
                        } else {
                            prepend(virama_if(pending), deva_from(data, forward(i, j, len), false))
                        }
                    },
                }
            } else {
                // PADA_START, phon markers, reserved bhāṣā slots.
                deva_from(data, i + 1, pending)
            }
        } else if lipi_control_byte(b) {
            if b == NUM {
                let e = glyph_run_end(data, i + 1);
                match glyph_text(data.subrange((i + 1) as int, e as int), i + 1, true) {
                    Err(err) => Err(err),
                    Ok(t) => prepend(
                        virama_if(pending) + t,
                        deva_from(data, forward(i, e as int, len), false),
                    ),
                }
            } else {
                prepend(virama_if(pending) + lipi_deva(b), deva_from(data, i + 1, false))
            }
        } else if svara_byte(b) {
            if pending {
                prepend(deva_matra(svara_base(b)), deva_from(data, i + 1, false))
            } else {
                prepend(deva_independent(svara_base(b)), deva_from(data, i + 1, false))
            }
        } else if vyanjana_byte(b) {
            if postfix_mark_byte(b) {
                prepend(deva_postfix(b), deva_from(data, i + 1, false))
            } else {
                prepend(virama_if(pending) + deva_consonant(b), deva_from(data, i + 1, true))
            }
        } else {
            Err(DecodeError::UnexpectedByte { byte: b, offset: i as usize })
        }
    }
}

pub open spec fn decode_deva_spec(data: Seq<u8>) -> Result<Seq<char>, DecodeError> {
    deva_from(data, 0, false)
}

fn push_virama_if(out: &mut String, pending: bool)
    ensures
        final(out)@ == old(out)@ + virama_if(pending),
{
    if pending {
        push_char(out, '्');
    }
    assert(final(out)@ =~= old(out)@ + virama_if(pending));
}

/// A virāma if a consonant is pending, then the Devanāgarī digits of the
/// glyph codes `data[from..to]`.
fn push_deva_glyphs(out: &mut String, data: &[u8], from: usize, to: usize, pending: bool) -> (r: Result<(), DecodeError>)
    requires
        from <= to <= data@.len(),
    ensures
        match r {
            Ok(()) => exists|t: Seq<char>|
                glyph_text(data@.subrange(from as int, to as int), from as nat, true) == Ok::<
                    _,
                    DecodeError,
                >(t) && final(out)@ == old(out)@ + (virama_if(pending) + t),
            Err(e) => glyph_text(data@.subrange(from as int, to as int), from as nat, true)
                == Err::<Seq<char>, _>(e),
        },
{
    push_virama_if(out, pending);
    let ghost mid = out@;
    let r = push_glyph_digits(out, data, from, to, true);
    proof {
        if r is Ok {
            let t = out@.subrange(mid.len() as int, out@.len() as int);
            assert(mid.is_prefix_of(out@));
            assert(out@.subrange(0, mid.len() as int) == mid);
            assert(out@ =~= mid + t);
            assert(out@ =~= old(out)@ + (virama_if(pending) + t));
        }
    }
    r
}

/// A step at a bhāṣā control byte.
fn deva_bhasha_step(data: &[u8], i: usize, pending: bool, out: &mut String) -> (r: Result<
    (usize, bool),
    DecodeError,
>)
    requires
        i < data@.len(),
        bhasha_control_byte(data@[i as int]),
    ensures
        match r {
            Ok((j, p)) => i < j <= data@.len() && exists|piece: Seq<char>|
                final(out)@ == old(out)@ + piece && deva_from(data@, i as nat, pending) == prepend(
                    piece,
                    deva_from(data@, j as nat, p),
                ),
            Err(e) => deva_from(data@, i as nat, pending) == Err::<Seq<char>, _>(e),
        },
{
    let b = data[i];
    let ghost before = out@;
    if b == PADA_END {
        push_virama_if(out, pending);
        assert(deva_from(data@, i as nat, pending) == prepend(
            virama_if(pending),
            deva_from(data@, (i + 1) as nat, false),
        ));
        return Ok((i + 1, false));
    } else if b == META_START {
        let j = skip_meta(data, i);
        assert(out@ == before + seq![] && deva_from(data@, i as nat, pending) == prepend(
            seq![],
            deva_from(data@, j as nat, pending),
        )) by {
            lemma_prepend_empty(deva_from(data@, j as nat, pending));
            assert(before + seq![] =~= before);
        }
        return Ok((j, pending));
    } else if b == SANKHYA_START {
        let (_, consumed) = match decode_sankhya(data, i) {
            Ok(v) => v,
            Err(e) => {
                return Err(e);
            },
        };
        let j = i + consumed;
        if j < data.len() && data[j] == NUM {
            let (_, num_consumed) = match decode_num(data, j) {
                Ok(v) => v,
                Err(e) => {
                    return Err(e);
                },
            };
            let e = j + num_consumed;
            match push_deva_glyphs(out, data, j + 1, e, pending) {
                Ok(()) => {},
                Err(err) => {
                    return Err(err);
                },
            }
            let ghost t = choose|t: Seq<char>|
                glyph_text(data@.subrange(j + 1, e as int), (j + 1) as nat, true) == Ok::<
                    _,
                    DecodeError,
                >(t) && out@ == before + (virama_if(pending) + t);
            assert(deva_from(data@, i as nat, pending) == prepend(
                virama_if(pending) + t,
                deva_from(data@, e as nat, false),
            ));
            return Ok((e, false));
        }
        push_virama_if(out, pending);
        assert(deva_from(data@, i as nat, pending) == prepend(
            virama_if(pending),
            deva_from(data@, j as nat, false),
        ));
        return Ok((j, false));
    } else {
        // PADA_START, phon markers, reserved bhāṣā slots.
        assert(out@ == before + seq![] && deva_from(data@, i as nat, pending) == prepend(
            seq![],
            deva_from(data@, (i + 1) as nat, pending),
        )) by {
            lemma_prepend_empty(deva_from(data@, (i + 1) as nat, pending));
            assert(before + seq![] =~= before);
        }
        return Ok((i + 1, pending));
    }
}

/// A step at a lipi control byte: a pending consonant takes a virāma first.
fn deva_lipi_step(data: &[u8], i: usize, pending: bool, out: &mut String) -> (r: Result<
    (usize, bool),
    DecodeError,
>)
    requires
        i < data@.len(),
        lipi_control_byte(data@[i as int]),
    ensures
        match r {
            Ok((j, p)) => i < j <= data@.len() && exists|piece: Seq<char>|
                final(out)@ == old(out)@ + piece && deva_from(data@, i as nat, pending) == prepend(
                    piece,
                    deva_from(data@, j as nat, p),
                ),
            Err(e) => deva_from(data@, i as nat, pending) == Err::<Seq<char>, _>(e),
        },
{
    let b = data[i];
    let ghost before = out@;
    if b == NUM {
        let (_, consumed) = match decode_num(data, i) {
            Ok(v) => v,
            Err(e) => {
                return Err(e);
            },
        };
        let e = i + consumed;
        match push_deva_glyphs(out, data, i + 1, e, pending) {
            Ok(()) => {},
            Err(err) => {
                return Err(err);
            },
        }
        let ghost t = choose|t: Seq<char>|
            glyph_text(data@.subrange(i + 1, e as int), (i + 1) as nat, true) == Ok::<
                _,
                DecodeError,
            >(t) && out@ == before + (virama_if(pending) + t);
        assert(deva_from(data@, i as nat, pending) == prepend(
            virama_if(pending) + t,
            deva_from(data@, e as nat, false),
        ));
        return Ok((e, false));
    }
    push_virama_if(out, pending);
    if b == SPACE {
        push_char(out, ' ');
    } else if b == DANDA {
        push_char(out, '।');
    } else if b == DOUBLE_DANDA {
        push_char(out, '॥');
    } else if b == AVAGRAHA {
        push_char(out, 'ऽ');
    }
    assert(out@ =~= before + (virama_if(pending) + lipi_deva(b)));
    assert(deva_from(data@, i as nat, pending) == prepend(
        virama_if(pending) + lipi_deva(b),
        deva_from(data@, (i + 1) as nat, false),
    ));
    Ok((i + 1, false))
}

/// One step of Devanāgarī decoding at offset `i` with the pending flag:
/// the text it appends, the offset where decoding goes on, and the new flag.
fn deva_step(data: &[u8], i: usize, pending: bool, out: &mut String) -> (r: Result<
    (usize, bool),
    DecodeError,
>)
    requires
        i < data@.len(),
    ensures
        match r {
            Ok((j, p)) => i < j <= data@.len() && exists|piece: Seq<char>|
                final(out)@ == old(out)@ + piece && deva_from(data@, i as nat, pending) == prepend(
                    piece,
                    deva_from(data@, j as nat, p),
                ),
            Err(e) => deva_from(data@, i as nat, pending) == Err::<Seq<char>, _>(e),
        },
{
    let b = data[i];
    if is_bhasha_control(b) {
        return deva_bhasha_step(data, i, pending, out);
    }
    if is_lipi_control(b) {
        return deva_lipi_step(data, i, pending, out);
    }
    if is_svara(b) {
        if pending {
            // Consonant + vowel: the vowel sign; nothing for the inherent a.
            out.append(byte_to_devanagari_matra(b));
            assert(deva_from(data@, i as nat, pending) == prepend(
                deva_matra(svara_base(b)),
                deva_from(data@, (i + 1) as nat, false),
            ));
        } else {
            out.append(byte_to_devanagari_independent(b));
            assert(deva_from(data@, i as nat, pending) == prepend(
                deva_independent(svara_base(b)),
                deva_from(data@, (i + 1) as nat, false),
            ));
        }
        return Ok((i + 1, false));
    }
    if is_vyanjana(b) {
        if is_postfix_mark(b) {
            // Visarga and anusvāra follow the syllable: no virāma.
            out.append(postfix_mark_devanagari(b));
            assert(deva_from(data@, i as nat, pending) == prepend(
                deva_postfix(b),
                deva_from(data@, (i + 1) as nat, false),
            ));
            return Ok((i + 1, false));
        }
        // A consonant after a consonant: virāma first (a cluster).
        let ghost before = out@;
        push_virama_if(out, pending);
        out.append(byte_to_devanagari_consonant(b));
        assert(out@ =~= before + (virama_if(pending) + deva_consonant(b)));
        assert(deva_from(data@, i as nat, pending) == prepend(
            virama_if(pending) + deva_consonant(b),
            deva_from(data@, (i + 1) as nat, true),
        ));
        return Ok((i + 1, true));
    }
    Err(DecodeError::UnexpectedByte { byte: b, offset: i })
}

/// Decode to Devanāgarī.
fn decode_to_devanagari(data: &[u8]) -> (r: Result<String, DecodeError>)
    ensures
        match r {
            Ok(s) => decode_deva_spec(data@) == Ok::<_, DecodeError>(s@),
            Err(e) => decode_deva_spec(data@) == Err::<Seq<char>, _>(e),
        },
{
    let mut out = String::new();
    let mut i: usize = 0;
    let mut pending = false;
    assert(prepend(out@, deva_from(data@, 0, false)) == deva_from(data@, 0, false)) by {
        assert(out@ =~= Seq::<char>::empty());
        lemma_prepend_empty(deva_from(data@, 0, false));
    }
    while i < data.len()
        invariant
            data@.len() == data.len(),
            i <= data@.len(),
            decode_deva_spec(data@) == prepend(out@, deva_from(data@, i as nat, pending)),
        decreases data@.len() - i,
    {
        let ghost before = out@;
        match deva_step(data, i, pending, &mut out) {
            Ok((j, p)) => {
                let ghost piece = choose|piece: Seq<char>|
                    out@ == before + piece && deva_from(data@, i as nat, pending) == prepend(
                        piece,
                        deva_from(data@, j as nat, p),
                    );
                proof {
                    lemma_prepend_assoc(before, piece, deva_from(data@, j as nat, p));
                }
                i = j;
                pending = p;
            },
            Err(e) => {
                return Err(e);
            },
        }
    }
    // A consonant still pending at the end takes a virāma.
    let ghost before = out@;
    push_virama_if(&mut out, pending);
    assert(out@ == before + virama_if(pending));
    Ok(out)
}

/// The text that a payload decodes to in a script.
pub open spec fn decode_spec(data: Seq<u8>, script: Script) -> Result<Seq<char>, DecodeError> {
    match script {
        Script::Iast => decode_iast_spec(data),
        Script::Devanagari => decode_deva_spec(data),
    }
}

/// Decode a PHON payload to text. On failure no partial text is returned.
pub fn decode_phon(payload: &[u8], script: Script) -> (r: Result<String, DecodeError>)
    ensures
        match r {
            Ok(s) => decode_spec(payload@, script) == Ok::<_, DecodeError>(s@),
            Err(e) => decode_spec(payload@, script) == Err::<Seq<char>, _>(e),
        },
{
    match script {
        Script::Iast => decode_to_iast(payload),
        Script::Devanagari => decode_to_devanagari(payload),
    }
}

} // verus!
