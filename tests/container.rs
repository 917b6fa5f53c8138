use slbc::container::{
    build_header, build_slbc, parse_slbc, read_uleb128, read_uleb128_at, write_chunk, write_eof,
    write_uleb128, ContainerError,
};
use slbc::types::{CHUNK_EOF, CHUNK_PHON};

#[test]
fn test_uleb128_roundtrip() {
    for val in [0u64, 1, 127, 128, 300, 16383, 16384, 100_000] {
        let mut buf = Vec::new();
        write_uleb128(&mut buf, val);
        let (decoded, consumed) = read_uleb128(&buf).unwrap();
        assert_eq!(decoded, val);
        assert_eq!(consumed, buf.len());
    }
}

#[test]
fn test_header_magic() {
    let header = build_header(true, true, true);
    assert_eq!(&header[0..4], b"SLBC");
}

#[test]
fn test_roundtrip_container() {
    let payload = vec![0x26, 0x00, 0x40, 0x2E]; // PADA_START ka a PADA_END
    let slbc = build_slbc(&payload);
    let (header, chunks) = parse_slbc(&slbc).unwrap();
    assert!(header.has_lipi());
    assert_eq!(chunks.len(), 2); // PHON + EOF
    assert_eq!(chunks[0].chunk_type, CHUNK_PHON);
    assert_eq!(chunks[0].payload, payload);
    assert_eq!(chunks[1].chunk_type, CHUNK_EOF);
}

#[test]
fn uleb128_exact_bytes() {
    let mut buf = Vec::new();
    write_uleb128(&mut buf, 300);
    assert_eq!(buf, vec![0xAC, 0x02]);
    let mut buf = Vec::new();
    write_uleb128(&mut buf, 0);
    assert_eq!(buf, vec![0x00]);
    let mut buf = vec![0x99];
    write_uleb128(&mut buf, 16384);
    assert_eq!(buf, vec![0x99, 0x80, 0x80, 0x01]);
}

#[test]
fn uleb128_u32_max_round_trip() {
    let mut buf = Vec::new();
    write_uleb128(&mut buf, 0xFFFF_FFFF);
    assert_eq!(buf.len(), 5);
    assert_eq!(read_uleb128(&buf), Ok((0xFFFF_FFFF, 5)));
}

#[test]
fn uleb128_at_offset_with_trailing_bytes() {
    let data = [0xFF, 0xAC, 0x02, 0x07];
    assert_eq!(read_uleb128_at(&data, 1), Ok((300, 2)));
}

#[test]
fn uleb128_truncated() {
    assert_eq!(read_uleb128(&[]), Err(ContainerError::TruncatedVarint));
    assert_eq!(read_uleb128(&[0x80, 0x80]), Err(ContainerError::TruncatedVarint));
    // Five continuation groups never terminate within the limit.
    assert_eq!(
        read_uleb128(&[0x80, 0x80, 0x80, 0x80, 0x80, 0x01]),
        Err(ContainerError::TruncatedVarint)
    );
}

#[test]
fn uleb128_overflow() {
    // 2^32 terminates in five groups but exceeds 32 bits.
    assert_eq!(
        read_uleb128(&[0x80, 0x80, 0x80, 0x80, 0x10]),
        Err(ContainerError::VarintOverflow)
    );
}

#[test]
fn header_layout_and_flags() {
    let h = build_header(true, false, true);
    assert_eq!(
        h,
        [0x53, 0x4C, 0x42, 0x43, 0x00, 0x00, 0x00, 0x0A, 0, 0, 0, 0xA0, 0, 0]
    );
    let h = build_header(false, false, false);
    assert_eq!(h[11], 0x00);
    let h = build_header(false, true, false);
    assert_eq!(h[11], 0x40);
}

#[test]
fn chunk_and_eof_bytes() {
    let mut out = Vec::new();
    write_chunk(&mut out, 0x03, &[9, 8, 7]);
    write_eof(&mut out);
    assert_eq!(out, vec![0x03, 0x03, 9, 8, 7, 0xFF, 0x00]);
}

#[test]
fn build_slbc_exact_bytes() {
    let c = build_slbc(&[0x26, 0x2E]);
    assert_eq!(
        c,
        vec![
            0x53, 0x4C, 0x42, 0x43, 0, 0, 0, 0x0A, 0, 0, 0, 0xE0, 0, 0, 0x01, 0x02, 0x26, 0x2E,
            0xFF, 0x00
        ]
    );
}

#[test]
fn parse_header_fields() {
    let c = build_slbc(&[]);
    let (h, chunks) = parse_slbc(&c).unwrap();
    assert_eq!(h.version, [0, 0, 0, 0x0A]);
    assert_eq!(h.flags, 0xE0);
    assert_eq!(h.extended_header_len, 0);
    assert!(h.has_lipi() && h.has_meta() && h.is_interleaved());
    assert!(!h.is_vedic() && !h.has_vya());
    assert_eq!(chunks.len(), 2);
    assert!(chunks[0].payload.is_empty());
}

#[test]
fn parse_too_short() {
    assert_eq!(parse_slbc(&[0x53, 0x4C]).unwrap_err(), ContainerError::HeaderTooShort);
}

#[test]
fn parse_bad_magic() {
    let mut c = build_slbc(&[1, 2]);
    c[2] = b'X';
    assert_eq!(parse_slbc(&c).unwrap_err(), ContainerError::BadMagic);
}

#[test]
fn parse_payload_overflow() {
    let mut c = build_slbc(&[]);
    c.truncate(14);
    c.extend_from_slice(&[0x01, 0x05, 0xAA, 0xBB]);
    assert_eq!(
        parse_slbc(&c).unwrap_err(),
        ContainerError::ChunkPayloadOverflow { offset: 16, len: 5 }
    );
}

#[test]
fn parse_truncated_chunk_length() {
    let mut c = build_slbc(&[]);
    c.truncate(14);
    c.push(0x01);
    assert_eq!(parse_slbc(&c).unwrap_err(), ContainerError::TruncatedVarint);
}

#[test]
fn parse_skips_extended_header_and_stops_at_eof() {
    let mut c = build_slbc(&[]);
    c.truncate(14);
    c[12] = 2;
    c.extend_from_slice(&[0xEE, 0xEE]); // extended header
    c.extend_from_slice(&[0x04, 0x01, 0x33]); // META chunk
    c.extend_from_slice(&[0xFF, 0x00]); // EOF
    c.extend_from_slice(&[0x01, 0x7F]); // never read
    let (h, chunks) = parse_slbc(&c).unwrap();
    assert_eq!(h.extended_header_len, 2);
    assert_eq!(chunks.len(), 2);
    assert_eq!(chunks[0].chunk_type, 0x04);
    assert_eq!(chunks[0].payload, vec![0x33]);
    assert_eq!(chunks[1].chunk_type, 0xFF);
}

#[test]
fn parse_without_eof_reads_to_end() {
    let mut c = build_slbc(&[]);
    c.truncate(14);
    c.extend_from_slice(&[0x01, 0x00, 0x02, 0x01, 0x09]);
    let (_, chunks) = parse_slbc(&c).unwrap();
    assert_eq!(chunks.len(), 2);
    assert_eq!(chunks[1].chunk_type, 0x02);
    assert_eq!(chunks[1].payload, vec![0x09]);
}
