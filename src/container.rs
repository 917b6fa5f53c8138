//! The container format: a 14-byte header, ULEB128 length-prefixed chunks,
//! and a closing EOF chunk.

use vstd::prelude::*;
use vstd::slice::{slice_subrange, slice_to_vec};
use crate::types::{
    CHUNK_EOF, CHUNK_PHON, FLAG_HAS_LIPI, FLAG_HAS_META, FLAG_INTERLEAVED, FLAG_VEDIC, FLAG_VYA,
    MAGIC, VERSION,
};

verus! {

/// What can go wrong while reading a container.
#[derive(Debug, Clone, Copy, PartialEq, Eq, Structural)]
pub enum ContainerError {
    /// Fewer than 14 bytes: no room for the fixed header.
    HeaderTooShort,
    /// The first four bytes are not "SLBC".
    BadMagic,
    /// A varint ran out of bytes, or did not end within five groups.
    TruncatedVarint,
    /// A varint ended, but its value does not fit in 32 bits.
    VarintOverflow,
    /// A chunk claims more payload than the buffer holds.
    ChunkPayloadOverflow { offset: usize, len: u64 },
}

// ── ULEB128 ──

/// The canonical ULEB128 encoding of `v`: seven bits per group, low group
/// first, bit 7 set on every group but the last.
pub open spec fn uleb(v: nat) -> Seq<u8>
    decreases v,
{
    if v < 128 {
        seq![v as u8]
    } else {
        seq![(v % 128 + 128) as u8] + uleb(v / 128)
    }
}

pub open spec fn pow128(k: nat) -> nat
    decreases k,
{
    if k == 0 {
        1
    } else {
        128 * pow128((k - 1) as nat)
    }
}

/// Reading a varint that starts at `start`, after `k` groups that summed to
/// `acc`. At most five groups are read; the value must fit in 32 bits.
pub open spec fn uleb_read_from(data: Seq<u8>, start: nat, k: nat, acc: nat) -> Result<
    (u64, usize),
    ContainerError,
>
    decreases 5 - k,
{
    if k >= 5 || start + k >= data.len() {
        Err(ContainerError::TruncatedVarint)
    } else {
        let byte = data[(start + k) as int];
        let acc2 = acc + (byte % 128) as nat * pow128(k);
        if byte < 128 {
            if acc2 > 0xFFFF_FFFF {
                Err(ContainerError::VarintOverflow)
            } else {
                Ok((acc2 as u64, (k + 1) as usize))
            }
        } else {
            uleb_read_from(data, start, k + 1, acc2)
        }
    }
}

/// The varint at offset `start` of `data`: its value and the number of bytes it takes.
pub open spec fn uleb_read(data: Seq<u8>, start: nat) -> Result<(u64, usize), ContainerError> {
    uleb_read_from(data, start, 0, 0)
}

proof fn lemma_pow128_small()
    ensures
        pow128(0) == 1,
        pow128(1) == 128,
        pow128(2) == 16384,
        pow128(3) == 2097152,
        pow128(4) == 268435456,
        pow128(5) == 34359738368,
{
    reveal_with_fuel(pow128, 6);
}

proof fn lemma_uleb_len(w: nat, n: nat)
    requires
        n >= 1,
        w < pow128(n),
    ensures
        1 <= uleb(w).len() <= n,
    decreases w,
{
    if w >= 128 {
        assert(n >= 2) by {
            if n == 1 {
                reveal_with_fuel(pow128, 2);
            }
        }
        assert(w / 128 < pow128((n - 1) as nat)) by (nonlinear_arith)
            requires
                w < pow128(n),
                pow128(n) == 128 * pow128((n - 1) as nat),
        ;
        lemma_uleb_len(w / 128, (n - 1) as nat);
    }
}

proof fn lemma_uleb_read_step(data: Seq<u8>, start: nat, k: nat, acc: nat, v: nat, w: nat)
    requires
        start + k + uleb(w).len() <= data.len(),
        data.subrange((start + k) as int, (start + k + uleb(w).len()) as int) == uleb(w),
        k + uleb(w).len() <= 5,
        acc + w * pow128(k) == v,
        v <= 0xFFFF_FFFF,
    ensures
        uleb_read_from(data, start, k, acc) == Ok::<(u64, usize), ContainerError>(
            (v as u64, (k + uleb(w).len()) as usize),
        ),
    decreases w,
{
    assert(data[(start + k) as int] == uleb(w)[0]);
    if w < 128 {
        assert(w % 128 == w);
    } else {
        let byte = data[(start + k) as int];
        let w2 = w / 128;
        assert(byte == (w % 128 + 128) as u8);
        assert(byte % 128 == w % 128);
        let acc2 = acc + (byte % 128) as nat * pow128(k);
        assert(pow128(k + 1) == 128 * pow128(k));
        assert(acc2 + w2 * pow128(k + 1) == v) by (nonlinear_arith)
            requires
                acc2 == acc + (w % 128) * pow128(k),
                w2 == w / 128,
                pow128(k + 1) == 128 * pow128(k),
                acc + w * pow128(k) == v,
        ;
        assert(data.subrange((start + k + 1) as int, (start + k + 1 + uleb(w2).len()) as int)
            =~= uleb(w2)) by {
            assert forall|i: int| 0 <= i < uleb(w2).len() implies data[start + k + 1 + i]
                == uleb(w2)[i] by {
                assert(data.subrange((start + k) as int, (start + k + uleb(w).len()) as int)[i + 1]
                    == uleb(w)[i + 1]);
            }
        }
        lemma_uleb_read_step(data, start, k + 1, acc2, v, w2);
    }
}

/// A value that fits in 32 bits, written as a varint anywhere in a buffer,
/// reads back as itself, taking exactly the bytes that were written.
pub proof fn lemma_uleb_round_trip(v: u64, data: Seq<u8>, start: nat)
    requires
        v <= 0xFFFF_FFFF,
        start + uleb(v as nat).len() <= data.len(),
        data.subrange(start as int, (start + uleb(v as nat).len()) as int) == uleb(v as nat),
    ensures
        uleb_read(data, start) == Ok::<(u64, usize), ContainerError>(
            (v, uleb(v as nat).len() as usize),
        ),
        1 <= uleb(v as nat).len() <= 5,
{
    lemma_pow128_small();
    lemma_uleb_len(v as nat, 5);
    lemma_uleb_read_step(data, start, 0, 0, v as nat, v as nat);
}

/// Encode `value` as ULEB128, appending to `out`.
pub fn write_uleb128(out: &mut Vec<u8>, value: u64)
    ensures
        final(out)@ == old(out)@ + uleb(value as nat),
{
    let ghost v0 = value;
    let mut value = value;
    loop
        invariant_except_break
            out@ + uleb(value as nat) == old(out)@ + uleb(v0 as nat),
        ensures
            out@ == old(out)@ + uleb(v0 as nat),
        decreases value,
    {
        let ghost prev = out@;
        let mut byte = (value % 128) as u8;
        let rest = value / 128;
        if rest != 0 {
            byte = byte + 128;
        }
        out.push(byte);
        if rest == 0 {
            assert(out@ =~= prev + uleb(value as nat));
            break;
        }
        assert(uleb(value as nat) == seq![byte] + uleb(rest as nat));
        assert(out@ + uleb(rest as nat) =~= prev + uleb(value as nat));
        value = rest;
    }
}

/// Decode the varint that starts at offset `start` of `data`.
pub fn read_uleb128_at(data: &[u8], start: usize) -> (r: Result<(u64, usize), ContainerError>)
    ensures
        r == uleb_read(data@, start as nat),
        r matches Ok((_, n)) ==> 1 <= n <= 5 && start + n <= data@.len(),
{
    proof {
        lemma_pow128_small();
    }
    if start >= data.len() {
        return Err(ContainerError::TruncatedVarint);
    }
    let avail = data.len() - start;
    let mut acc: u64 = 0;
    let mut mult: u64 = 1;
    let mut k: usize = 0;
    while k < 5
        invariant
            k <= 5,
            start < data@.len(),
            avail == data@.len() - start,
            data@.len() == data.len(),
            mult == pow128(k as nat),
            acc < pow128(k as nat),
            uleb_read(data@, start as nat) == uleb_read_from(data@, start as nat, k as nat, acc as nat),
        decreases 5 - k,
    {
        if k >= avail {
            return Err(ContainerError::TruncatedVarint);
        }
        let byte = data[start + k];
        assert(mult <= 268435456) by {
            lemma_pow128_small();
            if k == 0 {} else if k == 1 {} else if k == 2 {} else if k == 3 {} else {}
        }
        assert(pow128((k + 1) as nat) == 128 * pow128(k as nat));
        assert(acc + (byte % 128) as nat * mult < pow128((k + 1) as nat)) by (nonlinear_arith)
            requires
                acc < mult,
                mult <= 268435456,
                byte % 128 <= 127,
                pow128((k + 1) as nat) == 128 * mult,
        ;
        assert((byte % 128) as u64 * mult <= 127 * 268435456) by (nonlinear_arith)
            requires
                mult <= 268435456,
                byte % 128 <= 127,
        ;
        acc = acc + (byte % 128) as u64 * mult;
        if byte < 128 {
            if acc > 0xFFFF_FFFF {
                return Err(ContainerError::VarintOverflow);
            }
            return Ok((acc, k + 1));
        }
        mult = mult * 128;
        k = k + 1;
    }
    Err(ContainerError::TruncatedVarint)
}

/// Decode a ULEB128 at the start of `data`. Returns (value, bytes consumed).
pub fn read_uleb128(data: &[u8]) -> (r: Result<(u64, usize), ContainerError>)
    ensures
        r == uleb_read(data@, 0),
        r matches Ok((_, n)) ==> 1 <= n <= 5 && n <= data@.len(),
{
    read_uleb128_at(data, 0)
}

/// Append `bytes` to `out`.
pub(crate) fn append_bytes(out: &mut Vec<u8>, bytes: &[u8])
    ensures
        final(out)@ == old(out)@ + bytes@,
{
    let mut i: usize = 0;
    while i < bytes.len()
        invariant
            i <= bytes@.len(),
            out@ == old(out)@ + bytes@.subrange(0, i as int),
        decreases bytes@.len() - i,
    {
        out.push(bytes[i]);
        i = i + 1;
        assert(out@ =~= old(out)@ + bytes@.subrange(0, i as int));
    }
    assert(bytes@.subrange(0, i as int) =~= bytes@);
}

// ── Header ──

pub open spec fn magic_bytes() -> Seq<u8> {
    seq![0x53u8, 0x4C, 0x42, 0x43]
}

pub open spec fn version_bytes() -> Seq<u8> {
    seq![0x00u8, 0x00, 0x00, 0x0A]
}

/// The flag byte for the three options a builder may set.
pub open spec fn flag_byte(has_lipi: bool, has_meta: bool, interleaved: bool) -> u8 {
    (if has_lipi {
        0x80u8
    } else {
        0u8
    }) | (if has_meta {
        0x40u8
    } else {
        0u8
    }) | (if interleaved {
        0x20u8
    } else {
        0u8
    })
}

/// The 14 header bytes: magic, version, three reserved zeros, flags, and a
/// zero extended-header length.
pub open spec fn header_bytes(has_lipi: bool, has_meta: bool, interleaved: bool) -> Seq<u8> {
    magic_bytes() + version_bytes() + seq![0u8, 0, 0, flag_byte(has_lipi, has_meta, interleaved), 0, 0]
}

/// Build a 14-byte container header.
pub fn build_header(has_lipi: bool, has_meta_markers: bool, interleaved: bool) -> (r: [u8; 14])
    ensures
        r@ == header_bytes(has_lipi, has_meta_markers, interleaved),
{
    let flags: u8 = (if has_lipi {
        FLAG_HAS_LIPI
    } else {
        0
    }) | (if has_meta_markers {
        FLAG_HAS_META
    } else {
        0
    }) | (if interleaved {
        FLAG_INTERLEAVED
    } else {
        0
    });
    let header: [u8; 14] = [
        MAGIC[0],
        MAGIC[1],
        MAGIC[2],
        MAGIC[3],
        VERSION[0],
        VERSION[1],
        VERSION[2],
        VERSION[3],
        0,
        0,
        0,
        flags,
        0,
        0,
    ];
    assert(header@ =~= header_bytes(has_lipi, has_meta_markers, interleaved));
    header
}

// ── Chunks ──

/// The bytes of one chunk: type, varint payload length, payload.
pub open spec fn chunk_bytes(chunk_type: u8, payload: Seq<u8>) -> Seq<u8> {
    seq![chunk_type] + uleb(payload.len()) + payload
}

/// Write a chunk: type + ULEB128 payload length + payload bytes.
pub fn write_chunk(out: &mut Vec<u8>, chunk_type: u8, payload: &[u8])
    ensures
        final(out)@ == old(out)@ + chunk_bytes(chunk_type, payload@),
{
    out.push(chunk_type);
    write_uleb128(out, payload.len() as u64);
    append_bytes(out, payload);
    assert(final(out)@ =~= old(out)@ + chunk_bytes(chunk_type, payload@));
}

/// Write the EOF chunk (type 0xFF, length 0).
pub fn write_eof(out: &mut Vec<u8>)
    ensures
        final(out)@ == old(out)@ + chunk_bytes(CHUNK_EOF, seq![]),
{
    out.push(CHUNK_EOF);
    out.push(0x00);
    assert(final(out)@ =~= old(out)@ + chunk_bytes(CHUNK_EOF, seq![]));
}

/// A complete container around one PHON payload, with HAS_LIPI, HAS_META and
/// INTERLEAVED set.
pub open spec fn container_bytes(payload: Seq<u8>) -> Seq<u8> {
    header_bytes(true, true, true) + chunk_bytes(CHUNK_PHON, payload) + chunk_bytes(
        CHUNK_EOF,
        seq![],
    )
}

/// Build a complete container from a PHON payload (recitation mode).
pub fn build_slbc(phon_payload: &[u8]) -> (r: Vec<u8>)
    ensures
        r@ == container_bytes(phon_payload@),
{
    let mut out: Vec<u8> = Vec::new();
    let header = build_header(true, true, true);
    append_bytes(&mut out, header.as_slice());
    write_chunk(&mut out, CHUNK_PHON, phon_payload);
    write_eof(&mut out);
    assert(out@ =~= container_bytes(phon_payload@));
    out
}

// ── Parsing ──

/// A parsed container header.
#[derive(Debug, Clone, Copy)]
pub struct SlbcHeader {
    pub version: [u8; 4],
    pub flags: u8,
    pub extended_header_len: u16,
}

pub ghost struct HeaderModel {
    pub version: Seq<u8>,
    pub flags: u8,
    pub extended_header_len: u16,
}

impl View for SlbcHeader {
    type V = HeaderModel;

    open spec fn view(&self) -> HeaderModel {
        HeaderModel {
            version: self.version@,
            flags: self.flags,
            extended_header_len: self.extended_header_len,
        }
    }
}

impl SlbcHeader {
    pub fn has_lipi(&self) -> (r: bool)
        ensures
            r == (self.flags & FLAG_HAS_LIPI != 0),
    {
        self.flags & FLAG_HAS_LIPI != 0
    }

    pub fn has_meta(&self) -> (r: bool)
        ensures
            r == (self.flags & FLAG_HAS_META != 0),
    {
        self.flags & FLAG_HAS_META != 0
    }

    pub fn is_interleaved(&self) -> (r: bool)
        ensures
            r == (self.flags & FLAG_INTERLEAVED != 0),
    {
        self.flags & FLAG_INTERLEAVED != 0
    }

    pub fn is_vedic(&self) -> (r: bool)
        ensures
            r == (self.flags & FLAG_VEDIC != 0),
    {
        self.flags & FLAG_VEDIC != 0
    }

    pub fn has_vya(&self) -> (r: bool)
        ensures
            r == (self.flags & FLAG_VYA != 0),
    {
        self.flags & FLAG_VYA != 0
    }
}

/// A parsed chunk.
#[derive(Debug)]
pub struct Chunk {
    pub chunk_type: u8,
    pub payload: Vec<u8>,
}

pub ghost struct ChunkModel {
    pub chunk_type: u8,
    pub payload: Seq<u8>,
}

impl View for Chunk {
    type V = ChunkModel;

    open spec fn view(&self) -> ChunkModel {
        ChunkModel { chunk_type: self.chunk_type, payload: self.payload@ }
    }
}

pub open spec fn chunks_view(chunks: Seq<Chunk>) -> Seq<ChunkModel> {
    chunks.map_values(|c: Chunk| c@)
}

/// The chunks from offset `pos` on: each is read in turn until the buffer
/// ends or an EOF chunk has been read.
pub open spec fn parse_chunks(data: Seq<u8>, pos: nat) -> Result<Seq<ChunkModel>, ContainerError>
    decreases data.len() - pos,
{
    if pos >= data.len() {
        Ok(seq![])
    } else {
        match uleb_read(data, pos + 1) {
            Err(e) => Err(e),
            Ok((n, c)) => {
                let p = pos + 1 + c;
                if p + n > data.len() {
                    Err(ContainerError::ChunkPayloadOverflow { offset: p as usize, len: n })
                } else {
                    let chunk = ChunkModel {
                        chunk_type: data[pos as int],
                        payload: data.subrange(p as int, p + n),
                    };
                    if data[pos as int] == CHUNK_EOF {
                        Ok(seq![chunk])
                    } else {
                        match parse_chunks(data, (p + n) as nat) {
                            Ok(rest) => Ok(seq![chunk] + rest),
                            Err(e) => Err(e),
                        }
                    }
                }
            },
        }
    }
}

/// The extended-header length: bytes 12–13, little-endian.
pub open spec fn ext_len_of(data: Seq<u8>) -> u16 {
    (data[12] + 256 * data[13]) as u16
}

/// The header and chunk list held by a container, or the first error.
pub open spec fn parse_spec(data: Seq<u8>) -> Result<(HeaderModel, Seq<ChunkModel>), ContainerError> {
    if data.len() < 14 {
        Err(ContainerError::HeaderTooShort)
    } else if data.subrange(0, 4) != magic_bytes() {
        Err(ContainerError::BadMagic)
    } else {
        let header = HeaderModel {
            version: data.subrange(4, 8),
            flags: data[11],
            extended_header_len: ext_len_of(data),
        };
        match parse_chunks(data, (14 + ext_len_of(data)) as nat) {
            Ok(chunks) => Ok((header, chunks)),
            Err(e) => Err(e),
        }
    }
}

/// Parse a container into header + chunks.
pub fn parse_slbc(data: &[u8]) -> (r: Result<(SlbcHeader, Vec<Chunk>), ContainerError>)
    ensures
        match r {
            Ok((h, chunks)) => parse_spec(data@) == Ok::<_, ContainerError>(
                (h@, chunks_view(chunks@)),
            ),
            Err(e) => parse_spec(data@) == Err::<(HeaderModel, Seq<ChunkModel>), _>(e),
        },
{
    if data.len() < 14 {
        return Err(ContainerError::HeaderTooShort);
    }
    if data[0] != MAGIC[0] || data[1] != MAGIC[1] || data[2] != MAGIC[2] || data[3] != MAGIC[3] {
        assert(data@.subrange(0, 4) != magic_bytes()) by {
            if data@.subrange(0, 4) == magic_bytes() {
                assert(data@.subrange(0, 4)[0] == data@[0]);
                assert(data@.subrange(0, 4)[1] == data@[1]);
                assert(data@.subrange(0, 4)[2] == data@[2]);
                assert(data@.subrange(0, 4)[3] == data@[3]);
            }
        }
        return Err(ContainerError::BadMagic);
    }
    assert(data@.subrange(0, 4) =~= magic_bytes());
    let version: [u8; 4] = [data[4], data[5], data[6], data[7]];
    let flags = data[11];
    let ext_len: u16 = data[12] as u16 + 256 * (data[13] as u16);
    let header = SlbcHeader { version, flags, extended_header_len: ext_len };
    assert(header@.version =~= data@.subrange(4, 8));

    let mut pos: usize = 14 + ext_len as usize;
    let mut chunks: Vec<Chunk> = Vec::new();
    let ghost start = pos as nat;
    assert(parse_spec(data@) == match parse_chunks(data@, start) {
        Ok(cs) => Ok((header@, cs)),
        Err(e) => Err::<(HeaderModel, Seq<ChunkModel>), ContainerError>(e),
    });
    while pos < data.len()
        invariant
            data@.len() == data.len(),
            parse_spec(data@) == match parse_chunks(data@, start) {
                Ok(cs) => Ok((header@, cs)),
                Err(e) => Err::<(HeaderModel, Seq<ChunkModel>), ContainerError>(e),
            },
            parse_chunks(data@, start) == match parse_chunks(data@, pos as nat) {
                Ok(rest) => Ok(chunks_view(chunks@) + rest),
                Err(e) => Err(e),
            },
        decreases data@.len() - pos,
    {
        let chunk_type = data[pos];
        let (payload_len, consumed) = match read_uleb128_at(data, pos + 1) {
            Ok(v) => v,
            Err(e) => {
                return Err(e);
            },
        };
        let p = pos + 1 + consumed;
        if payload_len > (data.len() - p) as u64 {
            return Err(ContainerError::ChunkPayloadOverflow { offset: p, len: payload_len });
        }
        let end = p + payload_len as usize;
        let payload = slice_to_vec(slice_subrange(data, p, end));
        let ghost before = chunks@;
        let is_eof = chunk_type == CHUNK_EOF;
        let chunk = Chunk { chunk_type, payload };
        let ghost cm = chunk@;
        assert(cm == ChunkModel {
            chunk_type: data@[pos as int],
            payload: data@.subrange(p as int, end as int),
        });
        chunks.push(chunk);
        assert(chunks_view(chunks@) =~= chunks_view(before) + seq![cm]);
        if !is_eof {
            assert(parse_chunks(data@, pos as nat) == match parse_chunks(data@, end as nat) {
                Ok(rest) => Ok(seq![cm] + rest),
                Err(e) => Err(e),
            });
            proof {
                match parse_chunks(data@, end as nat) {
                    Ok(rest) => {
                        assert(chunks_view(before) + (seq![cm] + rest) =~= chunks_view(chunks@)
                            + rest);
                    },
                    Err(e) => {},
                }
            }
        } else {
            assert(parse_chunks(data@, pos as nat) == Ok::<_, ContainerError>(seq![cm]));
        }
        if is_eof {
            return Ok((header, chunks));
        }
        pos = end;
    }
    assert(chunks_view(chunks@) + seq![] =~= chunks_view(chunks@));
    Ok((header, chunks))
}

/// Parsing a container that was built from a payload gives back a header
/// with HAS_LIPI set and exactly two chunks: PHON with the payload, then EOF.
pub proof fn lemma_container_round_trip(payload: Seq<u8>)
    requires
        payload.len() <= 0xFFFF_FFFF,
    ensures
        parse_spec(container_bytes(payload)) matches Ok((h, chunks)) && h.flags & FLAG_HAS_LIPI != 0
            && chunks == seq![
                ChunkModel { chunk_type: CHUNK_PHON, payload },
                ChunkModel { chunk_type: CHUNK_EOF, payload: seq![] },
            ],
{
    let data = container_bytes(payload);
    let h = header_bytes(true, true, true);
    let c1 = chunk_bytes(CHUNK_PHON, payload);
    let c2 = chunk_bytes(CHUNK_EOF, seq![]);
    let n = payload.len() as int;
    let len_bytes = uleb(n as nat);
    let l = len_bytes.len() as int;
    let q = 15 + l + n;
    assert(uleb(0) == seq![0u8]);
    assert(c2 =~= seq![CHUNK_EOF, 0u8]);
    assert(h.len() == 14);
    assert(data.len() == q + 2);
    assert((0x80u8 | 0x40u8 | 0x20u8) == 0xE0u8 && 0xE0u8 & 0x80u8 != 0) by (bit_vector);
    assert(data[11] == 0xE0) by {
        assert(data[11] == h[11]);
    }
    assert(data.subrange(0, 4) =~= magic_bytes()) by {
        assert forall|i: int| 0 <= i < 4 implies data[i] == h[i] by {}
    }
    assert(ext_len_of(data) == 0) by {
        assert(data[12] == h[12] && data[13] == h[13]);
    }
    assert(data[14] == CHUNK_PHON) by {
        assert(data[14] == c1[0]);
    }
    assert(data.subrange(15, 15 + l) =~= len_bytes) by {
        assert forall|i: int| 0 <= i < l implies data[15 + i] == len_bytes[i] by {
            assert(data[15 + i] == c1[1 + i]);
        }
    }
    lemma_uleb_round_trip(n as u64, data, 15);
    assert(data.subrange(15 + l, q) =~= payload) by {
        assert forall|i: int| 0 <= i < n implies data[15 + l + i] == payload[i] by {
            assert(data[15 + l + i] == c1[1 + l + i]);
        }
    }
    assert(data[q] == CHUNK_EOF && data[q + 1] == 0u8) by {
        assert(data[q] == c2[0] && data[q + 1] == c2[1]);
    }
    assert(data.subrange(q + 1, q + 2) =~= uleb(0));
    lemma_uleb_round_trip(0, data, (q + 1) as nat);
    assert(data.subrange(q + 2, q + 2) =~= Seq::<u8>::empty());
    let eof = ChunkModel { chunk_type: CHUNK_EOF, payload: seq![] };
    let phon = ChunkModel { chunk_type: CHUNK_PHON, payload };
    assert(parse_chunks(data, q as nat) == Ok::<_, ContainerError>(seq![eof]));
    assert(parse_chunks(data, 14) == Ok::<_, ContainerError>(seq![phon] + seq![eof]));
    assert(seq![phon] + seq![eof] =~= seq![phon, eof]);
}

} // verus!
