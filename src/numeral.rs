//! Numerals in two layers.
//!
//! Bhāṣā layer: SANKHYA_START, a ULEB128 digit count, then one digit-word pada
//! per digit, units first. Lipi layer: NUM, then the digit glyph codes 0x00–0x09
//! left to right; the span ends at the first byte ≥ 0x10.

use vstd::prelude::*;
use crate::container::{lemma_uleb_round_trip, uleb, uleb_read, read_uleb128_at, write_uleb128};
use crate::decoder::DecodeError;
use crate::text::chars_of;
use vstd::slice::slice_subrange;
use crate::types::{NUM, PADA_END, PADA_START, SANKHYA_START};

verus! {

/// The closed digit-word vocabulary: the packed bhāṣā form of śūnya … nava.
pub open spec fn digit_word(d: u8) -> Seq<u8> {
    if d == 0 {
        seq![0x29u8, 0x88, 0x1C, 0x31, 0x40]  // śūnya
    } else if d == 1 {
        seq![0x85u8, 0x00, 0x40]  // eka
    } else if d == 2 {
        seq![0x1Au8, 0x32, 0x44]  // dvi
    } else if d == 3 {
        seq![0x18u8, 0x33, 0x44]  // tri
    } else if d == 4 {
        seq![0x08u8, 0x40, 0x18, 0x48, 0x33]  // catur
    } else if d == 5 {
        seq![0x20u8, 0x40, 0x0C, 0x08, 0x40]  // pañca
    } else if d == 6 {
        seq![0x2Au8, 0x40, 0x2A]  // ṣaṣ
    } else if d == 7 {
        seq![0x2Bu8, 0x40, 0x20, 0x18, 0x40]  // sapta
    } else if d == 8 {
        seq![0x40u8, 0x2A, 0x10, 0x40]  // aṣṭa
    } else {
        seq![0x1Cu8, 0x40, 0x32, 0x40]  // nava
    }
}

/// The word of digit `d` (0–9), as bytes.
fn digit_word_bytes(d: u8) -> (r: Vec<u8>)
    requires
        d < 10,
    ensures
        r@ == digit_word(d),
{
    let r = if d == 0 {
        vec![0x29, 0x88, 0x1C, 0x31, 0x40]
    } else if d == 1 {
        vec![0x85, 0x00, 0x40]
    } else if d == 2 {
        vec![0x1A, 0x32, 0x44]
    } else if d == 3 {
        vec![0x18, 0x33, 0x44]
    } else if d == 4 {
        vec![0x08, 0x40, 0x18, 0x48, 0x33]
    } else if d == 5 {
        vec![0x20, 0x40, 0x0C, 0x08, 0x40]
    } else if d == 6 {
        vec![0x2A, 0x40, 0x2A]
    } else if d == 7 {
        vec![0x2B, 0x40, 0x20, 0x18, 0x40]
    } else if d == 8 {
        vec![0x40, 0x2A, 0x10, 0x40]
    } else {
        vec![0x1C, 0x40, 0x32, 0x40]
    };
    assert(r@ =~= digit_word(d));
    r
}

/// An ASCII digit, '0' (0x30) to '9' (0x39).
pub open spec fn is_digit_char(c: char) -> bool {
    0x30 <= (c as u32) <= 0x39
}

pub open spec fn digit_value(c: char) -> u8 {
    (c as u32 - 0x30) as u8
}

/// The digit values of a string of ASCII digits.
pub open spec fn digit_values(cs: Seq<char>) -> Seq<u8> {
    cs.map_values(|c: char| digit_value(c))
}

/// One digit-word pada.
pub open spec fn digit_pada(d: u8) -> Seq<u8> {
    seq![PADA_START] + digit_word(d) + seq![PADA_END]
}

/// The digit padas of `ds`, units first.
pub open spec fn padas_units_first(ds: Seq<u8>) -> Seq<u8>
    decreases ds.len(),
{
    if ds.len() == 0 {
        seq![]
    } else {
        digit_pada(ds.last()) + padas_units_first(ds.drop_last())
    }
}

/// Both spans of a numeral with digit values `ds`.
pub open spec fn numeral_bytes(ds: Seq<u8>) -> Seq<u8> {
    seq![SANKHYA_START] + uleb(ds.len()) + padas_units_first(ds) + seq![NUM] + ds
}

/// Encode a numeral string (e.g. "108") into both the bhāṣā and lipi spans.
pub fn encode_numeral(digits: &str, out: &mut Vec<u8>)
    requires
        forall|i: int| 0 <= i < digits@.len() ==> is_digit_char(#[trigger] digits@[i]),
    ensures
        final(out)@ == old(out)@ + numeral_bytes(digit_values(digits@)),
{
    let cs = chars_of(digits);
    let ghost ds = digit_values(digits@);
    let mut values: Vec<u8> = Vec::new();
    let mut i: usize = 0;
    while i < cs.len()
        invariant
            cs@ == digits@,
            ds == digit_values(digits@),
            i <= cs@.len(),
            forall|j: int| 0 <= j < digits@.len() ==> is_digit_char(#[trigger] digits@[j]),
            values@ == ds.take(i as int),
        decreases cs@.len() - i,
    {
        let c = cs[i];
        assert(c == digits@[i as int]);
        values.push((c as u32 - 0x30) as u8);
        i = i + 1;
        assert(values@ =~= ds.take(i as int));
    }
    assert(values@ =~= ds);
    let count = values.len();

    // Bhāṣā layer
    out.push(SANKHYA_START);
    write_uleb128(out, count as u64);
    let ghost head = out@;
    // Digits right to left: units first.
    let mut k: usize = count;
    while k > 0
        invariant
            k <= count,
            ds == digit_values(digits@),
            count == ds.len(),
            values@ == ds,
            forall|j: int| 0 <= j < ds.len() ==> ds[j] < 10,
            out@ + padas_units_first(ds.take(k as int)) == head + padas_units_first(ds),
        decreases k,
    {
        let ghost before = out@;
        let d = values[k - 1];
        assert(ds.take(k as int).last() == d);
        assert(ds.take(k as int).drop_last() =~= ds.take(k - 1));
        out.push(PADA_START);
        let word = digit_word_bytes(d);
        crate::container::append_bytes(out, word.as_slice());
        out.push(PADA_END);
        assert(out@ =~= before + digit_pada(d));
        k = k - 1;
        assert(out@ + padas_units_first(ds.take(k as int)) =~= before + padas_units_first(
            ds.take(k + 1),
        ));
    }
    assert(ds.take(0) =~= Seq::<u8>::empty());

    // Lipi layer: glyph codes left to right; the span ends implicitly.
    out.push(NUM);
    crate::container::append_bytes(out, values.as_slice());
    assert(final(out)@ =~= old(out)@ + numeral_bytes(ds));
}

/// The digit whose word is exactly `w`, searching from digit `d` up.
pub open spec fn lookup_from(w: Seq<u8>, d: u8) -> Option<u8>
    decreases 10 - d,
{
    if d >= 10 {
        None
    } else if digit_word(d) == w {
        Some(d)
    } else {
        lookup_from(w, (d + 1) as u8)
    }
}

/// The digit whose word is exactly `w`, if any.
pub open spec fn lookup_word(w: Seq<u8>) -> Option<u8> {
    lookup_from(w, 0)
}

/// Whether two byte slices hold the same bytes.
fn bytes_equal(a: &[u8], b: &[u8]) -> (r: bool)
    ensures
        r == (a@ == b@),
{
    if a.len() != b.len() {
        return false;
    }
    let mut i: usize = 0;
    while i < a.len()
        invariant
            a@.len() == b@.len(),
            i <= a@.len(),
            forall|j: int| 0 <= j < i ==> a@[j] == b@[j],
        decreases a@.len() - i,
    {
        if a[i] != b[i] {
            return false;
        }
        i = i + 1;
    }
    assert(a@ =~= b@);
    true
}

/// Look up a pada's bytes in the digit-word vocabulary.
fn lookup_digit_word(pada_bytes: &[u8]) -> (r: Option<u8>)
    ensures
        r == lookup_word(pada_bytes@),
{
    let mut d: u8 = 0;
    while d < 10
        invariant
            d <= 10,
            lookup_word(pada_bytes@) == lookup_from(pada_bytes@, d),
        decreases 10 - d,
    {
        let word = digit_word_bytes(d);
        if bytes_equal(pada_bytes, word.as_slice()) {
            return Some(d);
        }
        d = d + 1;
    }
    None
}

/// The first index at or after `i` that holds PADA_END, or the length.
pub open spec fn find_pada_end(data: Seq<u8>, i: nat) -> nat
    decreases data.len() - i,
{
    if i >= data.len() || data[i as int] == PADA_END {
        i
    } else {
        find_pada_end(data, i + 1)
    }
}

/// Reading `k` digit padas from offset `i`: the digits in the order read, and
/// the offset after the last PADA_END.
pub open spec fn read_padas(data: Seq<u8>, i: nat, k: nat) -> Result<(Seq<u8>, nat), DecodeError>
    decreases k,
{
    if k == 0 {
        Ok((seq![], i))
    } else if i >= data.len() || data[i as int] != PADA_START {
        Err(DecodeError::ExpectedMarker { expected: PADA_START, offset: i as usize })
    } else {
        let e = find_pada_end(data, i + 1);
        if e >= data.len() {
            Err(DecodeError::UnterminatedDigitPada)
        } else {
            match lookup_word(data.subrange((i + 1) as int, e as int)) {
                None => Err(DecodeError::InvalidDigitWord { offset: (i + 1) as usize }),
                Some(d) => match read_padas(data, e + 1, (k - 1) as nat) {
                    Ok((ds, j)) => Ok((seq![d] + ds, j)),
                    Err(err) => Err(err),
                },
            }
        }
    }
}

/// The bhāṣā span at `pos`: its digits in natural (left-to-right) order and
/// the number of bytes it takes. The count field is trusted: exactly that
/// many padas are read.
pub open spec fn sankhya_spec(data: Seq<u8>, pos: nat) -> Result<(Seq<u8>, nat), DecodeError> {
    if pos >= data.len() || data[pos as int] != SANKHYA_START {
        Err(DecodeError::ExpectedMarker { expected: SANKHYA_START, offset: pos as usize })
    } else {
        match uleb_read(data, pos + 1) {
            Err(e) => Err(DecodeError::BadDigitCount { offset: (pos + 1) as usize, cause: e }),
            Ok((count, c)) => match read_padas(data, (pos + 1 + c) as nat, count as nat) {
                Ok((ds, j)) => Ok((ds.reverse(), (j - pos) as nat)),
                Err(e) => Err(e),
            },
        }
    }
}

/// Decode a bhāṣā (SANKHYA) span that starts at `pos`.
/// Returns (digits left to right, bytes consumed).
pub fn decode_sankhya(data: &[u8], pos: usize) -> (r: Result<(Vec<u8>, usize), DecodeError>)
    ensures
        match r {
            Ok((ds, n)) => sankhya_spec(data@, pos as nat) == Ok::<_, DecodeError>(
                (ds@, n as nat),
            ),
            Err(e) => sankhya_spec(data@, pos as nat) == Err::<(Seq<u8>, nat), _>(e),
        },
        r matches Ok((_, n)) ==> n >= 1 && pos + n <= data@.len(),
{
    if pos >= data.len() || data[pos] != SANKHYA_START {
        return Err(DecodeError::ExpectedMarker { expected: SANKHYA_START, offset: pos });
    }
    let (count, consumed) = match read_uleb128_at(data, pos + 1) {
        Ok(v) => v,
        Err(e) => {
            return Err(DecodeError::BadDigitCount { offset: pos + 1, cause: e });
        },
    };
    let mut i: usize = pos + 1 + consumed;
    let ghost i0 = i as nat;
    let mut digits: Vec<u8> = Vec::new();
    let mut k: u64 = 0;
    while k < count
        invariant
            data@.len() == data.len(),
            sankhya_spec(data@, pos as nat) == match read_padas(data@, i0, count as nat) {
                Ok((ds, j)) => Ok((ds.reverse(), (j - pos) as nat)),
                Err(e) => Err(e),
            },
            pos < i <= data@.len(),
            k <= count,
            read_padas(data@, i0, count as nat) == match read_padas(
                data@,
                i as nat,
                (count - k) as nat,
            ) {
                Ok((ds, j)) => Ok((digits@ + ds, j)),
                Err(e) => Err(e),
            },
        decreases count - k,
    {
        if i >= data.len() || data[i] != PADA_START {
            return Err(DecodeError::ExpectedMarker { expected: PADA_START, offset: i });
        }
        i = i + 1;
        let pada_start = i;
        while i < data.len() && data[i] != PADA_END
            invariant
                data@.len() == data.len(),
                pada_start <= i <= data@.len(),
                find_pada_end(data@, pada_start as nat) == find_pada_end(data@, i as nat),
            decreases data@.len() - i,
        {
            i = i + 1;
        }
        if i >= data.len() {
            return Err(DecodeError::UnterminatedDigitPada);
        }
        let pada = slice_subrange(data, pada_start, i);
        let digit = match lookup_digit_word(pada) {
            Some(d) => d,
            None => {
                return Err(DecodeError::InvalidDigitWord { offset: pada_start });
            },
        };
        i = i + 1;
        let ghost before = digits@;
        digits.push(digit);
        proof {
            match read_padas(data@, i as nat, (count - k - 1) as nat) {
                Ok((ds, j)) => {
                    assert(before + (seq![digit] + ds) =~= digits@ + ds);
                },
                Err(e) => {},
            }
        }
        k = k + 1;
    }
    // Units were read first: turn them back into natural order.
    let mut natural: Vec<u8> = Vec::new();
    let mut m: usize = digits.len();
    while m > 0
        invariant
            m <= digits@.len(),
            natural@ == digits@.subrange(m as int, digits@.len() as int).reverse(),
        decreases m,
    {
        natural.push(digits[m - 1]);
        m = m - 1;
        assert(natural@ =~= digits@.subrange(m as int, digits@.len() as int).reverse());
    }
    assert(digits@.subrange(0, digits@.len() as int) =~= digits@);
    assert(digits@ + seq![] =~= digits@);
    Ok((natural, i - pos))
}

/// The end of a glyph run: the first index at or after `i` whose byte is
/// ≥ 0x10, or the length.
pub open spec fn glyph_run_end(data: Seq<u8>, i: nat) -> nat
    decreases data.len() - i,
{
    if i >= data.len() || data[i as int] >= 0x10 {
        i
    } else {
        glyph_run_end(data, i + 1)
    }
}

/// The lipi span at `pos`: its glyph codes and the number of bytes it takes.
pub open spec fn num_spec(data: Seq<u8>, pos: nat) -> Result<(Seq<u8>, nat), DecodeError> {
    if pos >= data.len() || data[pos as int] != NUM {
        Err(DecodeError::ExpectedMarker { expected: NUM, offset: pos as usize })
    } else {
        let e = glyph_run_end(data, pos + 1);
        Ok((data.subrange((pos + 1) as int, e as int), (e - pos) as nat))
    }
}

/// Decode a lipi (NUM) span that starts at `pos`.
/// Returns (glyph codes left to right, bytes consumed).
pub fn decode_num(data: &[u8], pos: usize) -> (r: Result<(Vec<u8>, usize), DecodeError>)
    ensures
        match r {
            Ok((ds, n)) => num_spec(data@, pos as nat) == Ok::<_, DecodeError>((ds@, n as nat)),
            Err(e) => num_spec(data@, pos as nat) == Err::<(Seq<u8>, nat), _>(e),
        },
        r matches Ok((_, n)) ==> n >= 1 && pos + n <= data@.len() && pos + n == glyph_run_end(
            data@,
            (pos + 1) as nat,
        ),
{
    if pos >= data.len() || data[pos] != NUM {
        return Err(DecodeError::ExpectedMarker { expected: NUM, offset: pos });
    }
    let mut i: usize = pos + 1;
    let mut digits: Vec<u8> = Vec::new();
    while i < data.len() && data[i] < 0x10
        invariant
            data@.len() == data.len(),
            pos < i <= data@.len(),
            digits@ == data@.subrange(pos + 1, i as int),
            glyph_run_end(data@, (pos + 1) as nat) == glyph_run_end(data@, i as nat),
        decreases data@.len() - i,
    {
        digits.push(data[i]);
        i = i + 1;
        assert(digits@ =~= data@.subrange(pos + 1, i as int));
    }
    Ok((digits, i - pos))
}

// ── The bhāṣā span reads back ──

proof fn lemma_lookup_from_word(d: u8, e: u8)
    requires
        d < 10,
        e <= d,
    ensures
        lookup_from(digit_word(d), e) == Some(d),
    decreases d - e,
{
    if e < d {
        assert(digit_word(e)[0] != digit_word(d)[0]);
        lemma_lookup_from_word(d, (e + 1) as u8);
    }
}

/// Each digit word is found again by the lookup.
proof fn lemma_lookup_digit_word(d: u8)
    requires
        d < 10,
    ensures
        lookup_word(digit_word(d)) == Some(d),
        digit_word(d).len() >= 3,
        forall|k: int| 0 <= k < digit_word(d).len() ==> digit_word(d)[k] != PADA_END,
{
    lemma_lookup_from_word(d, 0);
}

proof fn lemma_find_pada_end(data: Seq<u8>, a: nat, end: nat)
    requires
        a <= end < data.len(),
        data[end as int] == PADA_END,
        forall|k: int| a <= k < end ==> data[k] != PADA_END,
    ensures
        find_pada_end(data, a) == end,
    decreases end - a,
{
    if a < end {
        lemma_find_pada_end(data, a + 1, end);
    }
}

proof fn lemma_read_padas_units_first(data: Seq<u8>, q: nat, vals: Seq<u8>)
    requires
        forall|m: int| 0 <= m < vals.len() ==> vals[m] < 10,
        q + padas_units_first(vals).len() <= data.len(),
        data.subrange(q as int, q + padas_units_first(vals).len() as int) == padas_units_first(vals),
    ensures
        read_padas(data, q, vals.len()) == Ok::<_, DecodeError>(
            (vals.reverse(), q + padas_units_first(vals).len()),
        ),
    decreases vals.len(),
{
    let p = padas_units_first(vals);
    let qi = q as int;
    let pl = p.len() as int;
    if vals.len() == 0 {
        assert(vals.reverse() =~= Seq::<u8>::empty());
    } else {
        let d = vals.last();
        let w = digit_word(d);
        let rest = vals.drop_last();
        let pr = padas_units_first(rest);
        lemma_lookup_digit_word(d);
        assert(p == seq![PADA_START] + w + seq![PADA_END] + pr);
        let wl = w.len() as int;
        let window = data.subrange(qi, qi + pl);
        assert(data[qi] == PADA_START) by {
            assert(window[0] == p[0]);
        }
        assert forall|k: int| 0 <= k < wl implies data[qi + 1 + k] == w[k] by {
            assert(window[1 + k] == p[1 + k]);
        }
        assert(data[qi + 1 + wl] == PADA_END) by {
            assert(window[1 + wl] == p[1 + wl]);
        }
        lemma_find_pada_end(data, q + 1, (qi + 1 + wl) as nat);
        assert(data.subrange(qi + 1, qi + 1 + wl) =~= w);
        let q2 = (qi + wl + 2) as nat;
        assert(data.subrange(q2 as int, q2 + pr.len() as int) =~= pr) by {
            assert forall|k: int| 0 <= k < pr.len() implies data[q2 + k] == pr[k] by {
                assert(window[wl + 2 + k] == p[wl + 2 + k]);
            }
        }
        lemma_read_padas_units_first(data, q2, rest);
        assert(vals.reverse() =~= seq![d] + rest.reverse());
    }
}

/// Decoding the bhāṣā span of an encoded numeral gives back its digit values
/// in natural (left-to-right) order, and consumes exactly that span; the lipi
/// span follows it.
pub proof fn lemma_sankhya_round_trip(vals: Seq<u8>, data: Seq<u8>, pos: nat)
    requires
        forall|m: int| 0 <= m < vals.len() ==> vals[m] < 10,
        vals.len() <= 0xFFFF_FFFF,
        pos + numeral_bytes(vals).len() <= data.len(),
        data.subrange(pos as int, pos + numeral_bytes(vals).len() as int) == numeral_bytes(vals),
    ensures
        sankhya_spec(data, pos) == Ok::<_, DecodeError>(
            (vals, 1 + uleb(vals.len()).len() + padas_units_first(vals).len()),
        ),
        data[pos + 1 + uleb(vals.len()).len() as int + padas_units_first(vals).len() as int] == NUM,
{
    let nb = numeral_bytes(vals);
    let u = uleb(vals.len());
    let p = padas_units_first(vals);
    let pi = pos as int;
    let ul = u.len() as int;
    let pl = p.len() as int;
    let window = data.subrange(pi, pi + nb.len());
    assert(nb == seq![SANKHYA_START] + u + p + seq![NUM] + vals);
    assert(data[pi] == SANKHYA_START) by {
        assert(window[0] == nb[0]);
    }
    assert(data.subrange(pi + 1, pi + 1 + ul) =~= u) by {
        assert forall|k: int| 0 <= k < ul implies data[pi + 1 + k] == u[k] by {
            assert(window[1 + k] == nb[1 + k]);
        }
    }
    lemma_uleb_round_trip(vals.len() as u64, data, pos + 1);
    let q = (pi + 1 + ul) as nat;
    assert(data.subrange(q as int, q + pl) =~= p) by {
        assert forall|k: int| 0 <= k < pl implies data[q + k] == p[k] by {
            assert(window[1 + ul + k] == nb[1 + ul + k]);
        }
    }
    lemma_read_padas_units_first(data, q, vals);
    assert(vals.reverse().reverse() =~= vals);
    assert(data[q + pl] == NUM) by {
        assert(window[1 + ul + pl] == nb[1 + ul + pl]);
    }
}

} // verus!
