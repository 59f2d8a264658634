use pcie::byte_order::read_u16;
use pcie::byte_order::read_u32;
use pcie::byte_order::read_u64;
use pcie::byte_order::u32_from_byte_array;
use pcie::byte_order::u32_to_byte_array;
use pcie::byte_order::Endianness;
use pcie::mcfg::parse_mcfg;
use pcie::mcfg::parse_mcfg_with_endianness;
use pcie::mcfg::Header;
use pcie::mcfg::McfgHeader;
use pcie::mcfg::McfgSegmentBusRange;
use pcie::mcfg::ParseMcfgError;
use pcie::mcfg::MCFG_REVISION;
use pcie::topology::PcieHostBridge;

fn push_u16(v: &mut Vec<u8>, x: u16, big: bool) {
    if big { v.extend_from_slice(&x.to_be_bytes()) } else { v.extend_from_slice(&x.to_le_bytes()) }
}
fn push_u32(v: &mut Vec<u8>, x: u32, big: bool) {
    if big { v.extend_from_slice(&x.to_be_bytes()) } else { v.extend_from_slice(&x.to_le_bytes()) }
}
fn push_u64(v: &mut Vec<u8>, x: u64, big: bool) {
    if big { v.extend_from_slice(&x.to_be_bytes()) } else { v.extend_from_slice(&x.to_le_bytes()) }
}

/// An MCFG table with the given entries; `length` overrides the stated length.
fn table(entries: &[(u64, u16, u8, u8)], extra: &[u8], length: Option<u32>, big: bool) -> Vec<u8> {
    let mut t = Vec::new();
    t.extend_from_slice(b"MCFG");
    push_u32(&mut t, 0, big);
    t.push(MCFG_REVISION);
    t.push(0x5A);
    t.extend_from_slice(b"OEMID1");
    push_u64(&mut t, 0x0102_0304_0506_0708, big);
    push_u32(&mut t, 7, big);
    push_u32(&mut t, 0x4D53_4654, big);
    push_u32(&mut t, 9, big);
    push_u64(&mut t, 0, big);
    for &(base, segment, start, end) in entries {
        push_u64(&mut t, base, big);
        push_u16(&mut t, segment, big);
        t.push(start);
        t.push(end);
        push_u32(&mut t, 0, big);
    }
    t.extend_from_slice(extra);
    let len = length.unwrap_or(t.len() as u32);
    let bytes = if big { len.to_be_bytes() } else { len.to_le_bytes() };
    t[4..8].copy_from_slice(&bytes);
    t
}

#[test]
fn constructors_zero_reserved_fields() {
    assert_eq!(McfgHeader::new().rsvd, 0);
    let r = McfgSegmentBusRange::new(0xE000_0000, 1, 2, 3);
    assert_eq!((r.ecam_base, r.segment, r.start_bus, r.end_bus, r.rsvd), (0xE000_0000, 1, 2, 3, 0));
}

#[test]
fn parses_table_with_two_entries() {
    let raw = table(&[(0xE000_0000, 0, 0, 0xFF), (0xF000_0000, 1, 0x10, 0x1F)], &[], None, false);
    let mut ranges = Vec::new();
    let (header, mcfg) = parse_mcfg(&raw, &mut ranges).unwrap();
    assert_eq!(&header.signature, b"MCFG");
    assert_eq!(header.length, 60 + 16);
    assert_eq!(header.revision, 1);
    assert_eq!(header.checksum, 0x5A);
    assert_eq!(&header.oem_id, b"OEMID1");
    assert_eq!(header.oem_tableid, 0x0102_0304_0506_0708);
    assert_eq!(header.oem_revision, 7);
    assert_eq!(header.creator_id, 0x4D53_4654);
    assert_eq!(header.creator_revision, 9);
    assert_eq!(mcfg.rsvd, 0);
    assert_eq!(ranges.len(), 2);
    assert_eq!((ranges[0].ecam_base, ranges[0].segment, ranges[0].start_bus, ranges[0].end_bus), (0xE000_0000, 0, 0, 0xFF));
    assert_eq!((ranges[1].ecam_base, ranges[1].segment, ranges[1].start_bus, ranges[1].end_bus), (0xF000_0000, 1, 0x10, 0x1F));
}

#[test]
fn parses_table_without_entries() {
    let raw = table(&[], &[], None, false);
    let mut ranges = Vec::new();
    assert!(parse_mcfg(&raw, &mut ranges).is_ok());
    assert!(ranges.is_empty());
}

#[test]
fn parses_big_endian_table_in_big_endian_order() {
    let raw = table(&[(0x1_2345_6000, 7, 1, 2)], &[], None, true);
    let mut ranges = Vec::new();
    let (header, _) = parse_mcfg_with_endianness(&raw, Endianness::Big, &mut ranges).unwrap();
    assert_eq!(header.length, 60);
    assert_eq!((ranges[0].ecam_base, ranges[0].segment), (0x1_2345_6000, 7));
    // Read in the other order, the stated length no longer matches.
    let mut others = Vec::new();
    let r = parse_mcfg_with_endianness(&raw, Endianness::Little, &mut others);
    assert!(matches!(r, Err(ParseMcfgError::MismatchedLength { in_header: 0x3C00_0000, actual: 60 })));
    assert!(others.is_empty());
}

#[test]
fn rejects_short_table() {
    let raw = table(&[], &[], None, false);
    let mut ranges = Vec::new();
    assert!(matches!(parse_mcfg(&raw[..35], &mut ranges), Err(ParseMcfgError::MissingAcpiHeader)));
    assert!(matches!(parse_mcfg(&[], &mut ranges), Err(ParseMcfgError::MissingAcpiHeader)));
}

#[test]
fn rejects_wrong_signature() {
    let mut raw = table(&[], &[], None, false);
    raw[0..4].copy_from_slice(b"APIC");
    let mut ranges = Vec::new();
    match parse_mcfg(&raw, &mut ranges) {
        Err(ParseMcfgError::InvalidSignature(sig)) => assert_eq!(&sig, b"APIC"),
        _ => panic!("expected an invalid signature"),
    }
}

#[test]
fn rejects_mismatched_length() {
    let raw = table(&[(0, 0, 0, 0)], &[], Some(100), false);
    let mut ranges = Vec::new();
    assert!(matches!(
        parse_mcfg(&raw, &mut ranges),
        Err(ParseMcfgError::MismatchedLength { in_header: 100, actual: 60 })
    ));
    assert!(ranges.is_empty());
}

#[test]
fn rejects_missing_fixed_header() {
    let mut raw = table(&[], &[], None, false);
    raw.truncate(40);
    raw[4..8].copy_from_slice(&40u32.to_le_bytes());
    let mut ranges = Vec::new();
    assert!(matches!(parse_mcfg(&raw, &mut ranges), Err(ParseMcfgError::MissingFixedHeader)));
}

#[test]
fn partial_entry_is_rejected_after_complete_ones() {
    let raw = table(&[(0xE000_0000, 0, 0, 0xFF)], &[1, 2, 3], None, false);
    let mut ranges = Vec::new();
    assert!(matches!(parse_mcfg(&raw, &mut ranges), Err(ParseMcfgError::BadSegmentBusRange)));
    assert_eq!(ranges.len(), 1);
    assert_eq!(ranges[0].ecam_base, 0xE000_0000);
}

#[test]
fn entries_are_appended_to_what_was_there() {
    let raw = table(&[(0x10, 1, 2, 3)], &[], None, false);
    let mut ranges = vec![McfgSegmentBusRange::new(0x99, 9, 9, 9)];
    parse_mcfg(&raw, &mut ranges).unwrap();
    assert_eq!(ranges.len(), 2);
    assert_eq!(ranges[0].ecam_base, 0x99);
    assert_eq!(ranges[1].ecam_base, 0x10);
}

#[test]
fn byte_order_reads() {
    let b = [0x01u8, 0x02, 0x03, 0x04, 0x05, 0x06, 0x07, 0x08];
    assert_eq!(read_u16(&b, 1, Endianness::Little), 0x0302);
    assert_eq!(read_u16(&b, 1, Endianness::Big), 0x0203);
    assert_eq!(read_u32(&b, 0, Endianness::Little), 0x0403_0201);
    assert_eq!(read_u32(&b, 4, Endianness::Big), 0x0506_0708);
    assert_eq!(read_u64(&b, 0, Endianness::Little), 0x0807_0605_0403_0201);
    assert_eq!(read_u64(&b, 0, Endianness::Big), 0x0102_0304_0506_0708);
    assert_eq!(u32_to_byte_array(0x0403_0201, Endianness::Little), [1, 2, 3, 4]);
    assert_eq!(u32_to_byte_array(0x0403_0201, Endianness::Big), [4, 3, 2, 1]);
    assert_eq!(u32_from_byte_array([1, 2, 3, 4], Endianness::Big), 0x0102_0304);
}

#[test]
fn host_bridge_holds_its_fields() {
    let hb = PcieHostBridge {
        index: 0,
        segment: 1,
        start_bus: 0,
        end_bus: 0xFF,
        ecam_base: 0xE000_0000,
        low_mmio_base: 0xC000_0000,
        low_mmio_size: 0x1000_0000,
        high_mmio_base: 0x10_0000_0000,
        high_mmio_size: 0x1_0000_0000,
    };
    assert_eq!(hb.ecam_base + ((hb.end_bus as u64 + 1) << 20), 0xF000_0000);
    assert_eq!(hb.segment, 1);
}

#[test]
fn encoded_table_parses_back() {
    for e in [Endianness::Little, Endianness::Big] {
        let ranges = [
            McfgSegmentBusRange::new(0xE000_0000, 0, 0, 0xFF),
            McfgSegmentBusRange::new(0x1_0000_0000, 1, 0x20, 0x3F),
        ];
        let header = Header {
            signature: *b"MCFG",
            length: 44 + 16 * ranges.len() as u32,
            revision: MCFG_REVISION,
            checksum: 0x12,
            oem_id: *b"VERUS ",
            oem_tableid: 0x1122_3344_5566_7788,
            oem_revision: 3,
            creator_id: 4,
            creator_revision: 5,
        };
        let mut raw = header.to_bytes(e);
        assert_eq!(raw.len(), 36);
        raw.extend_from_slice(&McfgHeader::new().to_bytes(e));
        for r in &ranges {
            let bytes = r.to_bytes(e);
            assert_eq!(bytes.len(), 16);
            raw.extend_from_slice(&bytes);
        }
        let mut parsed = Vec::new();
        let (h, m) = parse_mcfg_with_endianness(&raw, e, &mut parsed).unwrap();
        assert_eq!((h.signature, h.length, h.revision, h.checksum, h.oem_id), (header.signature, header.length, 1, 0x12, header.oem_id));
        assert_eq!((h.oem_tableid, h.oem_revision, h.creator_id, h.creator_revision), (0x1122_3344_5566_7788, 3, 4, 5));
        assert_eq!(m.rsvd, 0);
        assert_eq!(parsed.len(), 2);
        for (p, r) in parsed.iter().zip(ranges.iter()) {
            assert_eq!((p.ecam_base, p.segment, p.start_bus, p.end_bus, p.rsvd), (r.ecam_base, r.segment, r.start_bus, r.end_bus, r.rsvd));
        }
    }
}

#[test]
fn entry_bytes_are_laid_out_in_order() {
    let r = McfgSegmentBusRange::new(0x0102_0304_0506_0708, 0x090A, 0x0B, 0x0C);
    assert_eq!(
        r.to_bytes(Endianness::Little),
        vec![8, 7, 6, 5, 4, 3, 2, 1, 0x0A, 0x09, 0x0B, 0x0C, 0, 0, 0, 0]
    );
    assert_eq!(
        r.to_bytes(Endianness::Big),
        vec![1, 2, 3, 4, 5, 6, 7, 8, 0x09, 0x0A, 0x0B, 0x0C, 0, 0, 0, 0]
    );
}
