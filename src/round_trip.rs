//! The IAST text round trip: encoding a text of the supported alphabet and
//! decoding the bytes to IAST gives the text back.

use vstd::prelude::*;
use crate::container::uleb;
use crate::decoder::{
    ascii_digit, ascii_digits, decode_spec, forward, iast_from, iast_text, lipi_iast, prepend,
    DecodeError, Script,
};
use crate::encoder::{
    aspirated_byte, close_pada, encode_from, encode_iast_spec, encode_tokens, open_pada,
    single_token, token_bytes, tokenize_from, tokenize_spec, TokenView,
};
use crate::numeral::{
    digit_values, glyph_run_end, is_digit_char, lemma_sankhya_round_trip, numeral_bytes,
    padas_units_first,
};
use crate::types::{
    svara_byte, vyanjana_byte, AVAGRAHA, DANDA, DOUBLE_DANDA, NUM, PADA_END, PADA_START,
    SANKHYA_START, SPACE,
};

verus! {

/// The IAST text of one token.
pub open spec fn token_text(t: TokenView) -> Seq<char> {
    match t {
        TokenView::Svara(b) => iast_text(b),
        TokenView::Vyanjana(b) => iast_text(b),
        TokenView::Space => seq![' '],
        TokenView::Danda => seq!['|'],
        TokenView::DoubleDanda => seq!['|', '|'],
        TokenView::Avagraha => seq!['\''],
        TokenView::Numeral(ds) => ds,
    }
}

/// The IAST text of a token sequence.
pub open spec fn render(ts: Seq<TokenView>) -> Seq<char>
    decreases ts.len(),
{
    if ts.len() == 0 {
        seq![]
    } else {
        token_text(ts[0]) + render(ts.drop_first())
    }
}

/// A token the IAST decoder gives back as its text: phoneme tokens hold
/// phoneme bytes, numerals are non-empty runs of digits whose count fits in
/// 32 bits.
pub open spec fn decodable_token(t: TokenView) -> bool {
    match t {
        TokenView::Svara(b) => svara_byte(b),
        TokenView::Vyanjana(b) => vyanjana_byte(b),
        TokenView::Numeral(ds) => 1 <= ds.len() <= 0xFFFF_FFFF && forall|k: int|
            0 <= k < ds.len() ==> is_digit_char(#[trigger] ds[k]),
        _ => true,
    }
}

/// Every token is decodable, and no numeral is directly followed by a single
/// daṇḍa (whose byte would run on as a digit glyph).
pub open spec fn decodable(ts: Seq<TokenView>) -> bool {
    &&& forall|i: int| 0 <= i < ts.len() ==> decodable_token(#[trigger] ts[i])
    &&& forall|i: int|
        0 <= i < ts.len() - 1 ==> (#[trigger] ts[i] is Numeral ==> ts[i + 1] != TokenView::Danda)
}

proof fn lemma_glyph_run_end(data: Seq<u8>, a: nat, m: nat)
    requires
        a + m <= data.len(),
        forall|k: int| a <= k < a + m ==> data[k] < 0x10,
        a + m == data.len() || data[(a + m) as int] >= 0x10,
    ensures
        glyph_run_end(data, a) == a + m,
    decreases m,
{
    if m > 0 {
        lemma_glyph_run_end(data, a + 1, (m - 1) as nat);
    }
}

proof fn lemma_digit_char(c: char)
    requires
        is_digit_char(c),
    ensures
        ascii_digit((c as u32 - 0x30) as u8) == c,
        ((c as u32 - 0x30) as u8) < 10,
{
    let v = c as u32;
    if v == 0x30 {
        assert(c == '0');
    } else if v == 0x31 {
        assert(c == '1');
    } else if v == 0x32 {
        assert(c == '2');
    } else if v == 0x33 {
        assert(c == '3');
    } else if v == 0x34 {
        assert(c == '4');
    } else if v == 0x35 {
        assert(c == '5');
    } else if v == 0x36 {
        assert(c == '6');
    } else if v == 0x37 {
        assert(c == '7');
    } else if v == 0x38 {
        assert(c == '8');
    } else {
        assert(c == '9');
    }
}

proof fn lemma_ascii_digits_of_values(ds: Seq<char>)
    requires
        forall|k: int| 0 <= k < ds.len() ==> is_digit_char(#[trigger] ds[k]),
    ensures
        ascii_digits(digit_values(ds)) == ds,
        forall|k: int| 0 <= k < ds.len() ==> #[trigger] digit_values(ds)[k] < 10,
{
    assert forall|k: int| 0 <= k < ds.len() implies ascii_digit(#[trigger] digit_values(ds)[k])
        == ds[k] && digit_values(ds)[k] < 10 by {
        let c = ds[k];
        assert(is_digit_char(c));
        lemma_digit_char(c);
    }
    assert(ascii_digits(digit_values(ds)) =~= ds);
}

proof fn lemma_skip_pada_marker(data: Seq<u8>, i: nat)
    requires
        i < data.len(),
        data[i as int] == PADA_START || data[i as int] == PADA_END,
    ensures
        iast_from(data, i) == iast_from(data, i + 1),
{
}

/// The bytes of a non-empty token sequence, from a closed word unit, start
/// with a byte ≥ 0x10 unless the first token is a single daṇḍa.
proof fn lemma_first_byte_high(ts: Seq<TokenView>)
    requires
        ts.len() > 0,
        ts[0] != TokenView::Danda,
    ensures
        encode_from(ts, false).len() > 0,
        encode_from(ts, false)[0] >= 0x10,
{
    let tb = token_bytes(ts[0], false).0;
    assert(encode_from(ts, false) == tb + encode_from(ts.drop_first(), token_bytes(ts[0], false).1));
    assert(tb.len() > 0 && tb[0] >= 0x10);
}

proof fn lemma_decodable_rest(ts: Seq<TokenView>)
    requires
        ts.len() > 0,
        decodable(ts),
    ensures
        decodable(ts.drop_first()),
        decodable_token(ts[0]),
        ts[0] is Numeral && ts.len() > 1 ==> ts[1] != TokenView::Danda,
{
    let rest = ts.drop_first();
    assert forall|i: int| 0 <= i < rest.len() implies decodable_token(#[trigger] rest[i]) by {
        assert(rest[i] == ts[i + 1]);
    }
    assert forall|i: int| 0 <= i < rest.len() - 1 && #[trigger] rest[i] is Numeral implies rest[i
        + 1] != TokenView::Danda by {
        assert(rest[i] == ts[i + 1]);
        assert(rest[i + 1] == ts[i + 2]);
    }
    assert(decodable_token(ts[0]));
}

/// Decoding a numeral's bytes: the bhāṣā span gives its digits, and the lipi
/// span after it is skipped up to the next token's first byte.
proof fn lemma_decode_numeral(ds: Seq<char>, data: Seq<u8>, q: nat, j: nat)
    requires
        decodable_token(TokenView::Numeral(ds)),
        j == q + numeral_bytes(digit_values(ds)).len(),
        j <= data.len(),
        data.subrange(q as int, j as int) == numeral_bytes(digit_values(ds)),
        j == data.len() || data[j as int] >= 0x10,
    ensures
        iast_from(data, q) == prepend(ds, iast_from(data, j)),
{
    let vals = digit_values(ds);
    lemma_ascii_digits_of_values(ds);
    let nb = numeral_bytes(vals);
    lemma_sankhya_round_trip(vals, data, q);
    let n = 1 + uleb(vals.len()).len() + padas_units_first(vals).len();
    let g = q + n + 1;
    assert(nb == seq![SANKHYA_START] + uleb(vals.len()) + padas_units_first(vals) + seq![NUM]
        + vals);
    assert(j == g + vals.len());
    assert forall|k: int| g <= k < g + vals.len() implies data[k] < 0x10 by {
        assert(data.subrange(q as int, j as int)[k - q] == nb[k - q]);
        assert(nb[k - q] == vals[k - g]);
    }
    lemma_glyph_run_end(data, g as nat, vals.len());
    assert(data[(q + n) as int] == NUM);
    assert(forward(q, j as int, data.len()) == j);
}


/// Decoding a word-unit token: an opening PADA_START (if the unit is not
/// open yet) is skipped, then the byte gives its text.
proof fn lemma_decode_open_token(t: TokenView, p: bool, data: Seq<u8>, i: nat, j: nat)
    requires
        decodable_token(t),
        t is Svara || t is Vyanjana || t is Avagraha,
        j == i + token_bytes(t, p).0.len(),
        j <= data.len(),
        data.subrange(i as int, j as int) == token_bytes(t, p).0,
    ensures
        iast_from(data, i) == prepend(token_text(t), iast_from(data, j)),
{
    let tb = token_bytes(t, p).0;
    let o = open_pada(p).len();
    let x: u8 = match t {
        TokenView::Svara(b) => b,
        TokenView::Vyanjana(b) => b,
        _ => AVAGRAHA,
    };
    assert(tb == open_pada(p) + seq![x]);
    assert forall|k: int| 0 <= k < tb.len() implies data[i + k] == tb[k] by {
        assert(data.subrange(i as int, j as int)[k] == tb[k]);
    }
    if !p {
        assert(data[i as int] == tb[0]);
        lemma_skip_pada_marker(data, i);
    }
    assert(data[(i + o) as int] == tb[o as int]);
    assert(lipi_iast(AVAGRAHA) == seq!['\'']);
}

/// Decoding a punctuation token: a closing PADA_END (if a unit is open) is
/// skipped, then the lipi control gives its text.
proof fn lemma_decode_close_token(t: TokenView, p: bool, data: Seq<u8>, i: nat, j: nat)
    requires
        t is Space || t is Danda || t is DoubleDanda,
        j == i + token_bytes(t, p).0.len(),
        j <= data.len(),
        data.subrange(i as int, j as int) == token_bytes(t, p).0,
    ensures
        iast_from(data, i) == prepend(token_text(t), iast_from(data, j)),
{
    let tb = token_bytes(t, p).0;
    let o = close_pada(p).len();
    let x: u8 = match t {
        TokenView::Space => SPACE,
        TokenView::Danda => DANDA,
        _ => DOUBLE_DANDA,
    };
    assert(tb == close_pada(p) + seq![x]);
    assert(lipi_iast(x) == token_text(t));
    assert forall|k: int| 0 <= k < tb.len() implies data[i + k] == tb[k] by {
        assert(data.subrange(i as int, j as int)[k] == tb[k]);
    }
    if p {
        assert(data[i as int] == tb[0]);
        lemma_skip_pada_marker(data, i);
    }
    assert(data[(i + o) as int] == tb[o as int]);
}

/// Decoding a numeral token: a closing PADA_END (if a unit is open) is
/// skipped, then the numeral's spans give its digits.
proof fn lemma_decode_numeral_token(ds: Seq<char>, p: bool, data: Seq<u8>, i: nat, j: nat)
    requires
        decodable_token(TokenView::Numeral(ds)),
        j == i + token_bytes(TokenView::Numeral(ds), p).0.len(),
        j <= data.len(),
        data.subrange(i as int, j as int) == token_bytes(TokenView::Numeral(ds), p).0,
        j == data.len() || data[j as int] >= 0x10,
    ensures
        iast_from(data, i) == prepend(ds, iast_from(data, j)),
{
    let tb = token_bytes(TokenView::Numeral(ds), p).0;
    let o = close_pada(p).len();
    let nb = numeral_bytes(digit_values(ds));
    assert(tb == close_pada(p) + nb);
    assert forall|k: int| 0 <= k < tb.len() implies data[i + k] == tb[k] by {
        assert(data.subrange(i as int, j as int)[k] == tb[k]);
    }
    if p {
        assert(data[i as int] == tb[0]);
        lemma_skip_pada_marker(data, i);
    }
    let q = (i + o) as nat;
    assert(data.subrange(q as int, j as int) =~= nb) by {
        assert forall|k: int| 0 <= k < nb.len() implies data[q + k] == nb[k] by {
            assert(data[i + o + k] == tb[o + k]);
        }
    }
    lemma_decode_numeral(ds, data, q, j);
}

/// Decoding, to IAST, bytes that encode `ts` from word state `p` and run to
/// the end of the buffer from offset `i` gives back the tokens' text.
proof fn lemma_decode_encoded(ts: Seq<TokenView>, p: bool, data: Seq<u8>, i: nat)
    requires
        decodable(ts),
        i <= data.len(),
        data.subrange(i as int, data.len() as int) == encode_from(ts, p),
    ensures
        iast_from(data, i) == Ok::<_, DecodeError>(render(ts)),
    decreases ts.len(),
{
    let len = data.len();
    let tail = data.subrange(i as int, len as int);
    if ts.len() == 0 {
        if p {
            assert(data[i as int] == tail[0]);
            lemma_skip_pada_marker(data, i);
            assert(i + 1 == len);
        }
    } else {
        let t = ts[0];
        let rest = ts.drop_first();
        let tb = token_bytes(t, p).0;
        let p2 = token_bytes(t, p).1;
        assert(tail == tb + encode_from(rest, p2));
        let j = (i + tb.len()) as nat;
        assert(data.subrange(i as int, j as int) =~= tb) by {
            assert forall|k: int| 0 <= k < tb.len() implies data[i + k] == tb[k] by {
                assert(tail[k] == tb[k]);
            }
        }
        assert(data.subrange(j as int, len as int) =~= encode_from(rest, p2)) by {
            assert forall|k: int| 0 <= k < len - j implies data[j + k] == encode_from(rest, p2)[k]
                by {
                assert(tail[tb.len() + k] == encode_from(rest, p2)[k]);
            }
        }
        lemma_decodable_rest(ts);
        lemma_decode_encoded(rest, p2, data, j);
        assert(render(ts) == token_text(t) + render(rest));
        match t {
            TokenView::Numeral(ds) => {
                if rest.len() > 0 {
                    lemma_first_byte_high(rest);
                    assert(data[j as int] == encode_from(rest, p2)[0]) by {
                        assert(tail[tb.len() as int] == encode_from(rest, p2)[0]);
                    }
                } else {
                    assert(encode_from(rest, p2) == Seq::<u8>::empty());
                }
                lemma_decode_numeral_token(ds, p, data, i, j);
            },
            TokenView::Space => {
                lemma_decode_close_token(t, p, data, i, j);
            },
            TokenView::Danda => {
                lemma_decode_close_token(t, p, data, i, j);
            },
            TokenView::DoubleDanda => {
                lemma_decode_close_token(t, p, data, i, j);
            },
            _ => {
                lemma_decode_open_token(t, p, data, i, j);
            },
        }
    }
}


/// A single-character token is decodable and its text is that character.
proof fn lemma_single_token_text(ch: char)
    requires
        single_token(ch) is Some,
    ensures
        decodable_token(single_token(ch)->0),
        token_text(single_token(ch)->0) == seq![ch],
        ch != ' ' && ch != '|' && ch != '\'' && !is_digit_char(ch),
{
    if ch == 'a' {
        reveal_strlit("a");
        assert(iast_text(0x40) =~= seq![ch]);
    } else if ch == 'ā' {
        reveal_strlit("ā");
        assert(iast_text(0x80) =~= seq![ch]);
    } else if ch == 'i' {
        reveal_strlit("i");
        assert(iast_text(0x44) =~= seq![ch]);
    } else if ch == 'ī' {
        reveal_strlit("ī");
        assert(iast_text(0x84) =~= seq![ch]);
    } else if ch == 'u' {
        reveal_strlit("u");
        assert(iast_text(0x48) =~= seq![ch]);
    } else if ch == 'ū' {
        reveal_strlit("ū");
        assert(iast_text(0x88) =~= seq![ch]);
    } else if ch == 'ṛ' {
        reveal_strlit("ṛ");
        assert(iast_text(0x4C) =~= seq![ch]);
    } else if ch == 'ṝ' {
        reveal_strlit("ṝ");
        assert(iast_text(0x8C) =~= seq![ch]);
    } else if ch == 'ḷ' {
        reveal_strlit("ḷ");
        assert(iast_text(0x4F) =~= seq![ch]);
    } else if ch == 'ḹ' {
        reveal_strlit("ḹ");
        assert(iast_text(0x8F) =~= seq![ch]);
    } else if ch == 'e' {
        reveal_strlit("e");
        assert(iast_text(0x85) =~= seq![ch]);
    } else if ch == 'o' {
        reveal_strlit("o");
        assert(iast_text(0x89) =~= seq![ch]);
    } else if ch == 'k' {
        reveal_strlit("k");
        assert(iast_text(0x00) =~= seq![ch]);
    } else if ch == 'g' {
        reveal_strlit("g");
        assert(iast_text(0x02) =~= seq![ch]);
    } else if ch == 'ṅ' {
        reveal_strlit("ṅ");
        assert(iast_text(0x04) =~= seq![ch]);
    } else if ch == 'c' {
        reveal_strlit("c");
        assert(iast_text(0x08) =~= seq![ch]);
    } else if ch == 'j' {
        reveal_strlit("j");
        assert(iast_text(0x0A) =~= seq![ch]);
    } else if ch == 'ñ' {
        reveal_strlit("ñ");
        assert(iast_text(0x0C) =~= seq![ch]);
    } else if ch == 'ṭ' {
        reveal_strlit("ṭ");
        assert(iast_text(0x10) =~= seq![ch]);
    } else if ch == 'ḍ' {
        reveal_strlit("ḍ");
        assert(iast_text(0x12) =~= seq![ch]);
    } else if ch == 'ṇ' {
        reveal_strlit("ṇ");
        assert(iast_text(0x14) =~= seq![ch]);
    } else if ch == 't' {
        reveal_strlit("t");
        assert(iast_text(0x18) =~= seq![ch]);
    } else if ch == 'd' {
        reveal_strlit("d");
        assert(iast_text(0x1A) =~= seq![ch]);
    } else if ch == 'n' {
        reveal_strlit("n");
        assert(iast_text(0x1C) =~= seq![ch]);
    } else if ch == 'p' {
        reveal_strlit("p");
        assert(iast_text(0x20) =~= seq![ch]);
    } else if ch == 'b' {
        reveal_strlit("b");
        assert(iast_text(0x22) =~= seq![ch]);
    } else if ch == 'm' {
        reveal_strlit("m");
        assert(iast_text(0x24) =~= seq![ch]);
    } else if ch == 'ś' {
        reveal_strlit("ś");
        assert(iast_text(0x29) =~= seq![ch]);
    } else if ch == 'ṣ' {
        reveal_strlit("ṣ");
        assert(iast_text(0x2A) =~= seq![ch]);
    } else if ch == 's' {
        reveal_strlit("s");
        assert(iast_text(0x2B) =~= seq![ch]);
    } else if ch == 'y' {
        reveal_strlit("y");
        assert(iast_text(0x31) =~= seq![ch]);
    } else if ch == 'v' {
        reveal_strlit("v");
        assert(iast_text(0x32) =~= seq![ch]);
    } else if ch == 'r' {
        reveal_strlit("r");
        assert(iast_text(0x33) =~= seq![ch]);
    } else if ch == 'l' {
        reveal_strlit("l");
        assert(iast_text(0x34) =~= seq![ch]);
    } else if ch == 'h' {
        reveal_strlit("h");
        assert(iast_text(0x38) =~= seq![ch]);
    } else if ch == 'ḥ' {
        reveal_strlit("ḥ");
        assert(iast_text(0x39) =~= seq![ch]);
    } else if ch == 'ṃ' {
        reveal_strlit("ṃ");
        assert(iast_text(0x3A) =~= seq![ch]);
    } else if ch == 'ẖ' {
        reveal_strlit("ẖ");
        assert(iast_text(0x3B) =~= seq![ch]);
    } else if ch == 'ḫ' {
        reveal_strlit("ḫ");
        assert(iast_text(0x3C) =~= seq![ch]);
    }
}

/// An aspirated stop's text is its letter followed by h.
proof fn lemma_aspirate_text(ch: char)
    requires
        aspirated_byte(ch) is Some,
    ensures
        vyanjana_byte(aspirated_byte(ch)->0),
        iast_text(aspirated_byte(ch)->0) == seq![ch, 'h'],
{
    if ch == 'k' {
        reveal_strlit("kh");
        assert(iast_text(aspirated_byte(ch)->0) =~= seq![ch, 'h']);
    } else if ch == 'g' {
        reveal_strlit("gh");
        assert(iast_text(aspirated_byte(ch)->0) =~= seq![ch, 'h']);
    } else if ch == 'c' {
        reveal_strlit("ch");
        assert(iast_text(aspirated_byte(ch)->0) =~= seq![ch, 'h']);
    } else if ch == 'j' {
        reveal_strlit("jh");
        assert(iast_text(aspirated_byte(ch)->0) =~= seq![ch, 'h']);
    } else if ch == 'ṭ' {
        reveal_strlit("ṭh");
        assert(iast_text(aspirated_byte(ch)->0) =~= seq![ch, 'h']);
    } else if ch == 'ḍ' {
        reveal_strlit("ḍh");
        assert(iast_text(aspirated_byte(ch)->0) =~= seq![ch, 'h']);
    } else if ch == 't' {
        reveal_strlit("th");
        assert(iast_text(aspirated_byte(ch)->0) =~= seq![ch, 'h']);
    } else if ch == 'd' {
        reveal_strlit("dh");
        assert(iast_text(aspirated_byte(ch)->0) =~= seq![ch, 'h']);
    } else if ch == 'p' {
        reveal_strlit("ph");
        assert(iast_text(aspirated_byte(ch)->0) =~= seq![ch, 'h']);
    } else if ch == 'b' {
        reveal_strlit("bh");
        assert(iast_text(aspirated_byte(ch)->0) =~= seq![ch, 'h']);
    }
}

proof fn lemma_diphthong_text()
    ensures
        iast_text(0x86) == seq!['a', 'i'],
        iast_text(0x8A) == seq!['a', 'u'],
{
    reveal_strlit("ai");
    reveal_strlit("au");
    assert(iast_text(0x86) =~= seq!['a', 'i']);
    assert(iast_text(0x8A) =~= seq!['a', 'u']);
}

proof fn lemma_render_push(ts: Seq<TokenView>, t: TokenView)
    ensures
        render(ts.push(t)) == render(ts) + token_text(t),
    decreases ts.len(),
{
    if ts.len() == 0 {
        assert(ts.push(t).drop_first() =~= Seq::<TokenView>::empty());
        assert(ts.push(t)[0] == t);
        assert(render(ts.push(t).drop_first()) == Seq::<char>::empty());
        assert(token_text(t) + Seq::<char>::empty() =~= token_text(t));
        assert(Seq::<char>::empty() + token_text(t) =~= token_text(t));
    } else {
        assert(ts.push(t).drop_first() =~= ts.drop_first().push(t));
        assert(ts.push(t)[0] == ts[0]);
        lemma_render_push(ts.drop_first(), t);
        assert(token_text(ts[0]) + (render(ts.drop_first()) + token_text(t)) =~= (token_text(ts[0])
            + render(ts.drop_first())) + token_text(t));
    }
}


/// A character of the supported IAST alphabet: a letter of the tokenizer's
/// single-character table, an ASCII digit, a space, a daṇḍa bar or an
/// apostrophe.
pub open spec fn iast_alphabet_char(c: char) -> bool {
    single_token(c) is Some || is_digit_char(c) || c == ' ' || c == '|' || c == '\''
}

pub open spec fn all_digits(ds: Seq<char>) -> bool {
    forall|k: int| 0 <= k < ds.len() ==> is_digit_char(#[trigger] ds[k])
}

/// No run of digits in `cs` is longer than 32 bits can count.
pub open spec fn digit_runs_fit(cs: Seq<char>) -> bool {
    forall|a: int, b: int|
        0 <= a <= b <= cs.len() && #[trigger] all_digits(cs.subrange(a, b)) ==> b - a
            <= 0xFFFF_FFFF
}

/// A text that comes back unchanged through encoding and IAST decoding: all
/// its characters are of the alphabet, no two spaces stand together (the
/// tokenizer collapses them), a digit is never followed by a single daṇḍa
/// (its byte would run on as a digit glyph), and no numeral has more digits
/// than its 32-bit count can hold.
pub open spec fn round_trip_text(cs: Seq<char>) -> bool {
    &&& digit_runs_fit(cs)
    &&& forall|k: int| 0 <= k < cs.len() ==> iast_alphabet_char(#[trigger] cs[k])
    &&& forall|k: int| 0 <= k < cs.len() - 1 && #[trigger] cs[k] == ' ' ==> cs[k + 1] != ' '
    &&& forall|k: int|
        0 <= k < cs.len() - 1 && is_digit_char(#[trigger] cs[k]) && cs[k + 1] == '|' ==> k + 2
            < cs.len() && cs[k + 2] == '|'
}

/// The last token so far is a space exactly when the last character read is
/// one, and a numeral exactly when that character is a digit; a numeral holds
/// the characters just read.
pub open spec fn last_token_matches(cs: Seq<char>, i: nat, acc: Seq<TokenView>) -> bool {
    &&& (i == 0) == (acc.len() == 0)
    &&& acc.len() > 0 ==> ((acc.last() == TokenView::Space) == (cs[i - 1int] == ' ') && (
    acc.last() is Numeral) == is_digit_char(cs[i - 1int]))
    &&& acc.len() > 0 && acc.last() is Numeral ==> acc.last()->Numeral_0.len() <= i
        && acc.last()->Numeral_0 == cs.subrange(i - acc.last()->Numeral_0.len(), i as int)
}

proof fn lemma_decodable_push(acc: Seq<TokenView>, t: TokenView)
    requires
        decodable(acc),
        decodable_token(t),
        acc.len() > 0 && acc.last() is Numeral ==> t != TokenView::Danda,
    ensures
        decodable(acc.push(t)),
{
    let a = acc.push(t);
    assert forall|i: int| 0 <= i < a.len() implies decodable_token(#[trigger] a[i]) by {
        if i < acc.len() {
            assert(a[i] == acc[i]);
        }
    }
    assert forall|i: int| 0 <= i < a.len() - 1 && #[trigger] a[i] is Numeral implies a[i + 1]
        != TokenView::Danda by {
        assert(a[i] == acc[i]);
        if i + 1 < acc.len() {
            assert(a[i + 1] == acc[i + 1]);
        }
    }
}

proof fn lemma_decodable_drop_last(acc: Seq<TokenView>)
    requires
        acc.len() > 0,
        decodable(acc),
    ensures
        decodable(acc.drop_last()),
{
    let d = acc.drop_last();
    assert forall|i: int| 0 <= i < d.len() implies decodable_token(#[trigger] d[i]) by {
        assert(d[i] == acc[i]);
    }
    assert forall|i: int| 0 <= i < d.len() - 1 && #[trigger] d[i] is Numeral implies d[i + 1]
        != TokenView::Danda by {
        assert(d[i] == acc[i]);
        assert(d[i + 1] == acc[i + 1]);
    }
}

/// Pushing a token whose text is the next `n` characters keeps the invariant.
proof fn lemma_push_step(cs: Seq<char>, i: nat, acc: Seq<TokenView>, t: TokenView, n: nat)
    requires
        i + n <= cs.len(),
        render(acc) == cs.take(i as int),
        decodable(acc),
        decodable_token(t),
        acc.len() > 0 && acc.last() is Numeral ==> t != TokenView::Danda,
        token_text(t) == cs.subrange(i as int, (i + n) as int),
    ensures
        render(acc.push(t)) == cs.take((i + n) as int),
        decodable(acc.push(t)),
{
    lemma_render_push(acc, t);
    assert(cs.take(i as int) + cs.subrange(i as int, (i + n) as int) =~= cs.take((i + n) as int));
    lemma_decodable_push(acc, t);
}

/// Tokenizing a round-trip text from position `i` succeeds, with tokens that
/// decode back and whose text is the whole input.
proof fn lemma_tokenize_renders(cs: Seq<char>, i: nat, acc: Seq<TokenView>)
    requires
        round_trip_text(cs),
        i <= cs.len(),
        render(acc) == cs.take(i as int),
        decodable(acc),
        last_token_matches(cs, i, acc),
    ensures
        tokenize_from(cs, i, acc) matches Ok(ts) && render(ts) == cs && decodable(ts),
    decreases cs.len() - i,
{
    if i >= cs.len() {
        assert(cs.take(i as int) =~= cs);
        return;
    }
    let ch = cs[i as int];
    assert(iast_alphabet_char(ch));
    let pair = i + 1 < cs.len();
    if ch == ' ' {
        if i > 0 {
            assert(cs[i - 1int] != ' ');
        }
        assert(cs.subrange(i as int, i + 1int) =~= seq![' ']);
        lemma_push_step(cs, i, acc, TokenView::Space, 1);
        lemma_tokenize_renders(cs, i + 1, acc.push(TokenView::Space));
    } else if ch == '|' && pair && cs[i + 1int] == '|' {
        assert(cs.subrange(i as int, i + 2int) =~= seq!['|', '|']);
        lemma_push_step(cs, i, acc, TokenView::DoubleDanda, 2);
        lemma_tokenize_renders(cs, i + 2, acc.push(TokenView::DoubleDanda));
    } else if ch == '|' {
        if acc.len() > 0 && acc.last() is Numeral {
            assert(is_digit_char(cs[i - 1int]));
            assert(cs[i as int] == '|');
            assert(false);
        }
        assert(cs.subrange(i as int, i + 1int) =~= seq!['|']);
        lemma_push_step(cs, i, acc, TokenView::Danda, 1);
        lemma_tokenize_renders(cs, i + 1, acc.push(TokenView::Danda));
    } else if ch == '\'' {
        assert(cs.subrange(i as int, i + 1int) =~= seq!['\'']);
        lemma_push_step(cs, i, acc, TokenView::Avagraha, 1);
        lemma_tokenize_renders(cs, i + 1, acc.push(TokenView::Avagraha));
    } else if is_digit_char(ch) {
        if i > 0 && is_digit_char(cs[i - 1int]) && acc.len() > 0 && acc.last() is Numeral {
            let ds = acc.last()->Numeral_0;
            let dl = acc.drop_last();
            let t = TokenView::Numeral(ds.push(ch));
            assert(acc =~= dl.push(acc.last()));
            lemma_render_push(dl, acc.last());
            lemma_render_push(dl, t);
            assert(render(acc) == render(dl) + ds);
            assert(render(dl.push(t)) =~= render(acc) + seq![ch]);
            assert(cs.take(i as int) + seq![ch] =~= cs.take(i + 1int));
            lemma_decodable_drop_last(acc);
            assert(decodable_token(acc.last()));
            assert(ds.push(ch) =~= cs.subrange(i - ds.len(), i + 1int));
            assert(all_digits(ds.push(ch))) by {
                assert forall|k: int| 0 <= k < ds.push(ch).len() implies is_digit_char(
                    #[trigger] ds.push(ch)[k],
                ) by {
                    if k < ds.len() {
                        assert(ds.push(ch)[k] == ds[k]);
                    }
                }
            }
            assert(all_digits(cs.subrange(i - ds.len(), i + 1int)));
            assert(decodable_token(t));
            lemma_decodable_push(dl, t);
            assert(dl.push(t).last() == t);
            lemma_tokenize_renders(cs, i + 1, dl.push(t));
        } else {
            let t = TokenView::Numeral(seq![ch]);
            assert(cs.subrange(i as int, i + 1int) =~= seq![ch]);
            assert(cs.subrange(i + 1 - 1int, i + 1int) =~= seq![ch]);
            lemma_push_step(cs, i, acc, t, 1);
            lemma_tokenize_renders(cs, i + 1, acc.push(t));
        }
    } else if ch == 'a' && pair && cs[i + 1int] == 'i' {
        lemma_diphthong_text();
        assert(cs.subrange(i as int, i + 2int) =~= seq!['a', 'i']);
        lemma_push_step(cs, i, acc, TokenView::Svara(0x86), 2);
        lemma_tokenize_renders(cs, i + 2, acc.push(TokenView::Svara(0x86)));
    } else if ch == 'a' && pair && cs[i + 1int] == 'u' {
        lemma_diphthong_text();
        assert(cs.subrange(i as int, i + 2int) =~= seq!['a', 'u']);
        lemma_push_step(cs, i, acc, TokenView::Svara(0x8A), 2);
        lemma_tokenize_renders(cs, i + 2, acc.push(TokenView::Svara(0x8A)));
    } else if pair && cs[i + 1int] == 'h' && aspirated_byte(ch) is Some {
        let t = TokenView::Vyanjana(aspirated_byte(ch)->0);
        lemma_aspirate_text(ch);
        assert(cs.subrange(i as int, i + 2int) =~= seq![ch, 'h']);
        lemma_push_step(cs, i, acc, t, 2);
        lemma_tokenize_renders(cs, i + 2, acc.push(t));
    } else {
        lemma_single_token_text(ch);
        let t = single_token(ch)->0;
        assert(cs.subrange(i as int, i + 1int) =~= seq![ch]);
        lemma_push_step(cs, i, acc, t, 1);
        lemma_tokenize_renders(cs, i + 1, acc.push(t));
    }
}

/// Encoding a text of the supported alphabet (see `round_trip_text`) and
/// decoding the bytes to IAST gives the text back.
pub proof fn lemma_iast_round_trip(cs: Seq<char>)
    requires
        round_trip_text(cs),
    ensures
        encode_iast_spec(cs) matches Ok(bytes) && decode_spec(bytes, Script::Iast) == Ok::<
            _,
            DecodeError,
        >(cs),
{
    assert(cs.take(0) =~= Seq::<char>::empty());
    lemma_tokenize_renders(cs, 0, seq![]);
    let ts = tokenize_spec(cs)->Ok_0;
    let bytes = encode_tokens(ts);
    assert(bytes.subrange(0, bytes.len() as int) =~= bytes);
    lemma_decode_encoded(ts, false, bytes, 0);
}

} // verus!
