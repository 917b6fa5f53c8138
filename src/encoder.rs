//! IAST text → packed byte stream.
//!
//! The tokenizer turns IAST text into phoneme tokens; the encoder emits their
//! bytes, wrapping each word unit in PADA_START / PADA_END.

use vstd::prelude::*;
use crate::numeral::{digit_values, encode_numeral, is_digit_char, numeral_bytes};
use crate::text::{chars_of, push_char};
use crate::types::{AVAGRAHA, DANDA, DOUBLE_DANDA, PADA_END, PADA_START, SPACE};

verus! {

/// A token produced by the IAST tokenizer.
#[derive(Debug, Clone, PartialEq)]
pub enum Token {
    Svara(u8),
    Vyanjana(u8),
    Space,
    Danda,
    DoubleDanda,
    Avagraha,
    /// The literal digit characters of a numeral, e.g. "108".
    Numeral(String),
}

/// A token as a mathematical value.
pub ghost enum TokenView {
    Svara(u8),
    Vyanjana(u8),
    Space,
    Danda,
    DoubleDanda,
    Avagraha,
    Numeral(Seq<char>),
}

impl View for Token {
    type V = TokenView;

    open spec fn view(&self) -> TokenView {
        match self {
            Token::Svara(b) => TokenView::Svara(*b),
            Token::Vyanjana(b) => TokenView::Vyanjana(*b),
            Token::Space => TokenView::Space,
            Token::Danda => TokenView::Danda,
            Token::DoubleDanda => TokenView::DoubleDanda,
            Token::Avagraha => TokenView::Avagraha,
            Token::Numeral(s) => TokenView::Numeral(s@),
        }
    }
}

pub open spec fn tokens_view(ts: Seq<Token>) -> Seq<TokenView> {
    ts.map_values(|t: Token| t@)
}

/// A numeral token holds only ASCII digits.
pub open spec fn well_formed_token(t: TokenView) -> bool {
    match t {
        TokenView::Numeral(ds) => forall|j: int| 0 <= j < ds.len() ==> is_digit_char(#[trigger] ds[j]),
        _ => true,
    }
}

pub open spec fn well_formed_tokens(ts: Seq<TokenView>) -> bool {
    forall|i: int| 0 <= i < ts.len() ==> well_formed_token(#[trigger] ts[i])
}

/// The tokenizer stops at the first character that no rule matches.
#[derive(Debug, Clone, Copy, PartialEq, Eq, Structural)]
pub enum TokenizeError {
    UnrecognizedCharacter { ch: char, codepoint: u32, position: usize },
}

/// The aspirated stop written as `ch` followed by `h`.
pub open spec fn aspirated_byte(ch: char) -> Option<u8> {
    if ch == 'k' {
        Some(0x01u8)
    } else if ch == 'g' {
        Some(0x03u8)
    } else if ch == 'c' {
        Some(0x09u8)
    } else if ch == 'j' {
        Some(0x0Bu8)
    } else if ch == 'ṭ' {
        Some(0x11u8)
    } else if ch == 'ḍ' {
        Some(0x13u8)
    } else if ch == 't' {
        Some(0x19u8)
    } else if ch == 'd' {
        Some(0x1Bu8)
    } else if ch == 'p' {
        Some(0x21u8)
    } else if ch == 'b' {
        Some(0x23u8)
    } else {
        None
    }
}

fn aspirated(ch: char) -> (r: Option<u8>)
    ensures
        r == aspirated_byte(ch),
{
    match ch {
        'k' => Some(0x01),
        'g' => Some(0x03),
        'c' => Some(0x09),
        'j' => Some(0x0B),
        'ṭ' => Some(0x11),
        'ḍ' => Some(0x13),
        't' => Some(0x19),
        'd' => Some(0x1B),
        'p' => Some(0x21),
        'b' => Some(0x23),
        _ => None,
    }
}

/// The svara byte of a single IAST vowel character.
pub open spec fn single_svara(ch: char) -> Option<u8> {
    if ch == 'a' {
        Some(0x40u8)
    } else if ch == 'ā' {
        Some(0x80u8)
    } else if ch == 'i' {
        Some(0x44u8)
    } else if ch == 'ī' {
        Some(0x84u8)
    } else if ch == 'u' {
        Some(0x48u8)
    } else if ch == 'ū' {
        Some(0x88u8)
    } else if ch == 'ṛ' {
        Some(0x4Cu8)
    } else if ch == 'ṝ' {
        Some(0x8Cu8)
    } else if ch == 'ḷ' {
        Some(0x4Fu8)
    } else if ch == 'ḹ' {
        Some(0x8Fu8)
    } else if ch == 'e' {
        Some(0x85u8)
    } else if ch == 'o' {
        Some(0x89u8)
    } else {
        None
    }
}

/// The vyañjana byte of a single IAST consonant character (unaspirated
/// stops, nasals, sibilants, sonorants, h and the special glottal marks).
pub open spec fn single_vyanjana(ch: char) -> Option<u8> {
    if ch == 'k' {
        Some(0x00u8)
    } else if ch == 'g' {
        Some(0x02u8)
    } else if ch == 'ṅ' {
        Some(0x04u8)
    } else if ch == 'c' {
        Some(0x08u8)
    } else if ch == 'j' {
        Some(0x0Au8)
    } else if ch == 'ñ' {
        Some(0x0Cu8)
    } else if ch == 'ṭ' {
        Some(0x10u8)
    } else if ch == 'ḍ' {
        Some(0x12u8)
    } else if ch == 'ṇ' {
        Some(0x14u8)
    } else if ch == 't' {
        Some(0x18u8)
    } else if ch == 'd' {
        Some(0x1Au8)
    } else if ch == 'n' {
        Some(0x1Cu8)
    } else if ch == 'p' {
        Some(0x20u8)
    } else if ch == 'b' {
        Some(0x22u8)
    } else if ch == 'm' {
        Some(0x24u8)
    } else if ch == 'ś' {
        Some(0x29u8)
    } else if ch == 'ṣ' {
        Some(0x2Au8)
    } else if ch == 's' {
        Some(0x2Bu8)
    } else if ch == 'y' {
        Some(0x31u8)
    } else if ch == 'v' {
        Some(0x32u8)
    } else if ch == 'r' {
        Some(0x33u8)
    } else if ch == 'l' {
        Some(0x34u8)
    } else if ch == 'h' {
        Some(0x38u8)
    } else if ch == 'ḥ' {
        Some(0x39u8)
    } else if ch == 'ṃ' {
        Some(0x3Au8)
    } else if ch == 'ẖ' {
        Some(0x3Bu8)
    } else if ch == 'ḫ' {
        Some(0x3Cu8)
    } else {
        None
    }
}

/// The token of a single character, by the single-character table.
pub open spec fn single_token(ch: char) -> Option<TokenView> {
    match single_svara(ch) {
        Some(b) => Some(TokenView::Svara(b)),
        None => match single_vyanjana(ch) {
            Some(b) => Some(TokenView::Vyanjana(b)),
            None => None,
        },
    }
}

/// Match a single IAST character to a token.
fn match_single(ch: char) -> (r: Option<Token>)
    ensures
        match r {
            Some(t) => single_token(ch) == Some(t@),
            None => single_token(ch) is None,
        },
{
    let tok = match ch {
        // Svaras
        'a' => Token::Svara(0x40),
        'ā' => Token::Svara(0x80),
        'i' => Token::Svara(0x44),
        'ī' => Token::Svara(0x84),
        'u' => Token::Svara(0x48),
        'ū' => Token::Svara(0x88),
        'ṛ' => Token::Svara(0x4C),
        'ṝ' => Token::Svara(0x8C),
        'ḷ' => Token::Svara(0x4F),
        'ḹ' => Token::Svara(0x8F),
        'e' => Token::Svara(0x85),
        'o' => Token::Svara(0x89),
        // Varga vyañjanas (unaspirated; aspirates are matched before)
        'k' => Token::Vyanjana(0x00),
        'g' => Token::Vyanjana(0x02),
        'ṅ' => Token::Vyanjana(0x04),
        'c' => Token::Vyanjana(0x08),
        'j' => Token::Vyanjana(0x0A),
        'ñ' => Token::Vyanjana(0x0C),
        'ṭ' => Token::Vyanjana(0x10),
        'ḍ' => Token::Vyanjana(0x12),
        'ṇ' => Token::Vyanjana(0x14),
        't' => Token::Vyanjana(0x18),
        'd' => Token::Vyanjana(0x1A),
        'n' => Token::Vyanjana(0x1C),
        'p' => Token::Vyanjana(0x20),
        'b' => Token::Vyanjana(0x22),
        'm' => Token::Vyanjana(0x24),
        // Sibilants
        'ś' => Token::Vyanjana(0x29),
        'ṣ' => Token::Vyanjana(0x2A),
        's' => Token::Vyanjana(0x2B),
        // Sonorants
        'y' => Token::Vyanjana(0x31),
        'v' => Token::Vyanjana(0x32),
        'r' => Token::Vyanjana(0x33),
        'l' => Token::Vyanjana(0x34),
        // Glottal and special
        'h' => Token::Vyanjana(0x38),
        'ḥ' => Token::Vyanjana(0x39),  // visarga
        'ṃ' => Token::Vyanjana(0x3A),  // anusvāra
        'ẖ' => Token::Vyanjana(0x3B),  // jihvāmūlīya
        'ḫ' => Token::Vyanjana(0x3C),  // upadhmānīya
        _ => {
            return None;
        },
    };
    Some(tok)
}

/// Position `j` of `cs` holds `c`.
pub open spec fn char_at_is(cs: Seq<char>, j: int, c: char) -> bool {
    0 <= j < cs.len() && cs[j] == c
}

fn is_ascii_digit(ch: char) -> (r: bool)
    ensures
        r == is_digit_char(ch),
{
    let cp = ch as u32;
    0x30 <= cp && cp <= 0x39
}

/// Tokenizing `cs` from position `i`, after the tokens `acc`.
pub open spec fn tokenize_from(cs: Seq<char>, i: nat, acc: Seq<TokenView>) -> Result<
    Seq<TokenView>,
    TokenizeError,
>
    decreases cs.len() - i,
{
    if i >= cs.len() {
        Ok(acc)
    } else {
        let ch = cs[i as int];
        if ch == '\r' {
            tokenize_from(cs, i + 1, acc)
        } else if ch == ' ' || ch == '\t' || ch == '\n' {
            if acc.len() > 0 && acc.last() == TokenView::Space {
                tokenize_from(cs, i + 1, acc)
            } else {
                tokenize_from(cs, i + 1, acc.push(TokenView::Space))
            }
        } else if ch == '|' && char_at_is(cs, (i + 1) as int, '|') {
            tokenize_from(cs, i + 2, acc.push(TokenView::DoubleDanda))
        } else if ch == '|' {
            tokenize_from(cs, i + 1, acc.push(TokenView::Danda))
        } else if ch == '\'' || ch == 'ऽ' {
            tokenize_from(cs, i + 1, acc.push(TokenView::Avagraha))
        } else if is_digit_char(ch) {
            // A maximal run of digits is one numeral token: a digit right
            // after a digit extends the numeral that ends there.
            if i > 0 && is_digit_char(cs[i - 1]) && acc.len() > 0 && acc.last() is Numeral {
                let ds = acc.last()->Numeral_0;
                tokenize_from(cs, i + 1, acc.drop_last().push(TokenView::Numeral(ds.push(ch))))
            } else {
                tokenize_from(cs, i + 1, acc.push(TokenView::Numeral(seq![ch])))
            }
        } else if ch == 'a' && char_at_is(cs, (i + 1) as int, 'i') {
            tokenize_from(cs, i + 2, acc.push(TokenView::Svara(0x86)))
        } else if ch == 'a' && char_at_is(cs, (i + 1) as int, 'u') {
            tokenize_from(cs, i + 2, acc.push(TokenView::Svara(0x8A)))
        } else if char_at_is(cs, (i + 1) as int, 'h') && aspirated_byte(ch) is Some {
            tokenize_from(cs, i + 2, acc.push(TokenView::Vyanjana(aspirated_byte(ch)->0)))
        } else {
            match single_token(ch) {
                Some(t) => tokenize_from(cs, i + 1, acc.push(t)),
                None => Err(
                    TokenizeError::UnrecognizedCharacter {
                        ch,
                        codepoint: ch as u32,
                        position: i as usize,
                    },
                ),
            }
        }
    }
}

/// The tokens of an IAST text, or the first unrecognized character.
pub open spec fn tokenize_spec(cs: Seq<char>) -> Result<Seq<TokenView>, TokenizeError> {
    tokenize_from(cs, 0, seq![])
}

/// Tokenize an IAST string into a sequence of tokens.
pub fn tokenize_iast(input: &str) -> (r: Result<Vec<Token>, TokenizeError>)
    ensures
        match r {
            Ok(ts) => tokenize_spec(input@) == Ok::<_, TokenizeError>(tokens_view(ts@))
                && well_formed_tokens(tokens_view(ts@)),
            Err(e) => tokenize_spec(input@) == Err::<Seq<TokenView>, _>(e),
        },
{
    let mut tokens: Vec<Token> = Vec::new();
    assert(tokens_view(tokens@) =~= seq![]);
    let chars = chars_of(input);
    let len = chars.len();
    let mut i: usize = 0;
    while i < len
        invariant
            chars@ == input@,
            len == chars@.len(),
            i <= len,
            tokenize_spec(input@) == tokenize_from(input@, i as nat, tokens_view(tokens@)),
            well_formed_tokens(tokens_view(tokens@)),
            0 < i < len && is_digit_char(input@[i - 1]) ==> !is_digit_char(input@[i as int]),
        decreases len - i,
    {
        let ghost before = tokens@;
        let ch = chars[i];
        let next: Option<char> = if i + 1 < len {
            Some(chars[i + 1])
        } else {
            None
        };
        // Carriage returns are dropped.
        if ch == '\r' {
            i = i + 1;
            continue;
        }
        // Whitespace: one SPACE token, unless the previous token is one.
        if ch == ' ' || ch == '\t' || ch == '\n' {
            let last_is_space = tokens.len() > 0 && matches!(tokens[tokens.len() - 1], Token::Space);
            if !last_is_space {
                tokens.push(Token::Space);
                assert(tokens_view(tokens@) =~= tokens_view(before).push(TokenView::Space));
            }
            i = i + 1;
            continue;
        }
        // Double daṇḍa, before single daṇḍa.
        if ch == '|' && next == Some('|') {
            tokens.push(Token::DoubleDanda);
            assert(tokens_view(tokens@) =~= tokens_view(before).push(TokenView::DoubleDanda));
            i = i + 2;
            continue;
        }
        if ch == '|' {
            tokens.push(Token::Danda);
            assert(tokens_view(tokens@) =~= tokens_view(before).push(TokenView::Danda));
            i = i + 1;
            continue;
        }
        // Avagraha, as an apostrophe or the Devanāgarī sign.
        if ch == '\'' || ch == 'ऽ' {
            tokens.push(Token::Avagraha);
            assert(tokens_view(tokens@) =~= tokens_view(before).push(TokenView::Avagraha));
            i = i + 1;
            continue;
        }
        // Numerals: a maximal run of ASCII digits.
        if is_ascii_digit(ch) {
            let start = i;
            let mut num_str = String::new();
            push_char(&mut num_str, ch);
            i = i + 1;
            let ghost base = tokens_view(tokens@);
            assert(num_str@ =~= input@.subrange(start as int, i as int));
            while i < len && is_ascii_digit(chars[i])
                invariant
                    chars@ == input@,
                    len == chars@.len(),
                    start < i <= len,
                    base == tokens_view(tokens@),
                    num_str@ == input@.subrange(start as int, i as int),
                    is_digit_char(input@[i - 1]),
                    forall|j: int| start <= j < i ==> is_digit_char(#[trigger] input@[j]),
                    tokenize_spec(input@) == tokenize_from(
                        input@,
                        i as nat,
                        base.push(TokenView::Numeral(num_str@)),
                    ),
                decreases len - i,
            {
                let ghost prev = num_str@;
                push_char(&mut num_str, chars[i]);
                assert(base.push(TokenView::Numeral(prev)).drop_last() =~= base);
                i = i + 1;
                assert(num_str@ =~= input@.subrange(start as int, i as int));
            }
            tokens.push(Token::Numeral(num_str));
            assert(tokens_view(tokens@) =~= base.push(TokenView::Numeral(num_str@)));
            continue;
        }
        // Diphthongs, before single vowels.
        if ch == 'a' && next == Some('i') {
            tokens.push(Token::Svara(0x86));
            assert(tokens_view(tokens@) =~= tokens_view(before).push(TokenView::Svara(0x86)));
            i = i + 2;
            continue;
        }
        if ch == 'a' && next == Some('u') {
            tokens.push(Token::Svara(0x8A));
            assert(tokens_view(tokens@) =~= tokens_view(before).push(TokenView::Svara(0x8A)));
            i = i + 2;
            continue;
        }
        // Aspirated stops: a plain stop followed by h.
        if next == Some('h') {
            if let Some(byte) = aspirated(ch) {
                tokens.push(Token::Vyanjana(byte));
                assert(tokens_view(tokens@) =~= tokens_view(before).push(TokenView::Vyanjana(byte)));
                i = i + 2;
                continue;
            }
        }
        // The single-character table.
        match match_single(ch) {
            Some(tok) => {
                let ghost tv = tok@;
                tokens.push(tok);
                assert(tokens_view(tokens@) =~= tokens_view(before).push(tv));
                i = i + 1;
            },
            None => {
                return Err(
                    TokenizeError::UnrecognizedCharacter {
                        ch,
                        codepoint: ch as u32,
                        position: i,
                    },
                );
            },
        }
    }
    Ok(tokens)
}

// ── Encoding ──

/// PADA_END if a word unit is open.
pub open spec fn close_pada(in_pada: bool) -> Seq<u8> {
    if in_pada {
        seq![PADA_END]
    } else {
        seq![]
    }
}

/// PADA_START unless a word unit is open.
pub open spec fn open_pada(in_pada: bool) -> Seq<u8> {
    if in_pada {
        seq![]
    } else {
        seq![PADA_START]
    }
}

/// The bytes that one token adds, given whether a word unit is open; and
/// whether one is open after it.
pub open spec fn token_bytes(t: TokenView, in_pada: bool) -> (Seq<u8>, bool) {
    match t {
        TokenView::Svara(b) => (open_pada(in_pada) + seq![b], true),
        TokenView::Vyanjana(b) => (open_pada(in_pada) + seq![b], true),
        TokenView::Avagraha => (open_pada(in_pada) + seq![AVAGRAHA], true),
        TokenView::Space => (close_pada(in_pada) + seq![SPACE], false),
        TokenView::Danda => (close_pada(in_pada) + seq![DANDA], false),
        TokenView::DoubleDanda => (close_pada(in_pada) + seq![DOUBLE_DANDA], false),
        TokenView::Numeral(ds) => (close_pada(in_pada) + numeral_bytes(digit_values(ds)), false),
    }
}

/// The bytes of a token sequence, given whether a word unit is open before it.
pub open spec fn encode_from(ts: Seq<TokenView>, in_pada: bool) -> Seq<u8>
    decreases ts.len(),
{
    if ts.len() == 0 {
        close_pada(in_pada)
    } else {
        token_bytes(ts[0], in_pada).0 + encode_from(ts.drop_first(), token_bytes(ts[0], in_pada).1)
    }
}

/// The packed byte stream of a token sequence.
pub open spec fn encode_tokens(ts: Seq<TokenView>) -> Seq<u8> {
    encode_from(ts, false)
}

/// Encode a token stream into a packed byte stream (a PHON payload).
pub fn tokens_to_bytes(tokens: &[Token]) -> (r: Vec<u8>)
    requires
        well_formed_tokens(tokens_view(tokens@)),
    ensures
        r@ == encode_tokens(tokens_view(tokens@)),
{
    let ghost ts = tokens_view(tokens@);
    let mut out: Vec<u8> = Vec::new();
    let mut in_pada = false;
    let mut i: usize = 0;
    assert(ts.skip(0) =~= ts);
    while i < tokens.len()
        invariant
            ts == tokens_view(tokens@),
            well_formed_tokens(ts),
            i <= ts.len(),
            out@ + encode_from(ts.skip(i as int), in_pada) == encode_tokens(ts),
        decreases ts.len() - i,
    {
        let ghost before = out@;
        let ghost was = in_pada;
        assert(ts.skip(i as int).drop_first() =~= ts.skip(i + 1));
        assert(ts.skip(i as int)[0] == ts[i as int]);
        match &tokens[i] {
            Token::Svara(b) | Token::Vyanjana(b) => {
                if !in_pada {
                    out.push(PADA_START);
                    in_pada = true;
                }
                out.push(*b);
            },
            Token::Space => {
                if in_pada {
                    out.push(PADA_END);
                    in_pada = false;
                }
                out.push(SPACE);
            },
            Token::Danda => {
                if in_pada {
                    out.push(PADA_END);
                    in_pada = false;
                }
                out.push(DANDA);
            },
            Token::DoubleDanda => {
                if in_pada {
                    out.push(PADA_END);
                    in_pada = false;
                }
                out.push(DOUBLE_DANDA);
            },
            Token::Avagraha => {
                if !in_pada {
                    out.push(PADA_START);
                    in_pada = true;
                }
                out.push(AVAGRAHA);
            },
            Token::Numeral(digits) => {
                if in_pada {
                    out.push(PADA_END);
                    in_pada = false;
                }
                assert(well_formed_token(ts[i as int]));
                encode_numeral(digits.as_str(), &mut out);
            },
        }
        assert(out@ =~= before + token_bytes(ts[i as int], was).0);
        assert(in_pada == token_bytes(ts[i as int], was).1);
        i = i + 1;
    }
    assert(out@ + close_pada(in_pada) == encode_tokens(ts));
    if in_pada {
        out.push(PADA_END);
    }
    assert(out@ =~= encode_tokens(ts));
    out
}

/// The packed stream of an IAST text, or the tokenizer's error.
pub open spec fn encode_iast_spec(cs: Seq<char>) -> Result<Seq<u8>, TokenizeError> {
    match tokenize_spec(cs) {
        Ok(ts) => Ok(encode_tokens(ts)),
        Err(e) => Err(e),
    }
}

/// Top-level encode: IAST string → packed byte stream (PHON payload).
pub fn encode_iast(input: &str) -> (r: Result<Vec<u8>, TokenizeError>)
    ensures
        match r {
            Ok(bytes) => encode_iast_spec(input@) == Ok::<_, TokenizeError>(bytes@),
            Err(e) => encode_iast_spec(input@) == Err::<Seq<u8>, _>(e),
        },
{
    let tokens = tokenize_iast(input)?;
    Ok(tokens_to_bytes(tokens.as_slice()))
}

} // verus!
