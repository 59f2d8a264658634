//! The ACPI MCFG table, which tells the guest where the ECAM windows of its
//! PCI Express segments lie.

use crate::byte_order::{
    lemma_u16_bytes_roundtrip, lemma_u32_bytes_roundtrip, lemma_u64_bytes_roundtrip,
    native_endianness, push_u16, push_u32, push_u64, read_u16, read_u32, read_u64, u16_from_bytes,
    u16_to_bytes, u32_from_bytes, u32_to_bytes, u64_from_bytes, u64_to_bytes, Endianness,
};
use vstd::prelude::*;

verus! {

/// Length in bytes of the standard ACPI table header.
pub const ACPI_HEADER_SIZE: usize = 36;

/// Length in bytes of the fixed MCFG header that follows the ACPI header.
pub const MCFG_HEADER_SIZE: usize = 8;

/// Length in bytes of one segment bus range entry.
pub const MCFG_SEGMENT_BUS_RANGE_SIZE: usize = 16;

/// Revision of the MCFG table.
pub const MCFG_REVISION: u8 = 1;

/// The signature of the MCFG table: the bytes of "MCFG".
pub const MCFG_SIGNATURE: [u8; 4] = [0x4d, 0x43, 0x46, 0x47];

/// The signature of the MCFG table, as a sequence of bytes.
pub open spec fn mcfg_signature() -> Seq<u8> {
    MCFG_SIGNATURE@
}

/// The standard header that starts every ACPI system description table.
#[derive(Clone, Copy, Debug)]
pub struct Header {
    pub signature: [u8; 4],
    pub length: u32,
    pub revision: u8,
    pub checksum: u8,
    pub oem_id: [u8; 6],
    pub oem_tableid: u64,
    pub oem_revision: u32,
    pub creator_id: u32,
    pub creator_revision: u32,
}

/// The fixed MCFG header that follows the ACPI header.
#[derive(Clone, Copy, Debug)]
pub struct McfgHeader {
    pub rsvd: u64,
}

/// One entry of the MCFG table: the ECAM window of a range of buses of a
/// segment.
#[derive(Clone, Copy, Debug)]
pub struct McfgSegmentBusRange {
    pub ecam_base: u64,
    pub segment: u16,
    pub start_bus: u8,
    pub end_bus: u8,
    pub rsvd: u32,
}

/// Why an MCFG table could not be parsed.
#[derive(Debug)]
pub enum ParseMcfgError {
    /// The table is too short to hold the standard ACPI header.
    MissingAcpiHeader,
    /// The signature is not "MCFG"; it carries the signature found.
    InvalidSignature([u8; 4]),
    /// The length in the header is not the length of the table.
    MismatchedLength { in_header: usize, actual: usize },
    /// The table is too short to hold the fixed MCFG header.
    MissingFixedHeader,
    /// The table ends inside a segment bus range entry.
    BadSegmentBusRange,
}

impl McfgHeader {
    /// A fixed MCFG header with its reserved field zero.
    pub fn new() -> (h: McfgHeader)
        ensures
            h.rsvd == 0,
    {
        McfgHeader { rsvd: 0 }
    }
}

impl McfgSegmentBusRange {
    /// The entry that maps buses `start_bus..=end_bus` of `segment` at
    /// `ecam_base`, with its reserved field zero.
    pub fn new(ecam_base: u64, segment: u16, start_bus: u8, end_bus: u8) -> (r: Self)
        ensures
            r.ecam_base == ecam_base,
            r.segment == segment,
            r.start_bus == start_bus,
            r.end_bus == end_bus,
            r.rsvd == 0,
    {
        Self { ecam_base, segment, start_bus, end_bus, rsvd: 0 }
    }
}

/// `h` is the ACPI header held by the first 36 bytes of `raw`.
pub open spec fn header_decodes(h: Header, raw: Seq<u8>, e: Endianness) -> bool {
    &&& h.signature@ == raw.subrange(0, 4)
    &&& h.length == u32_from_bytes(raw.subrange(4, 8), e)
    &&& h.revision == raw[8]
    &&& h.checksum == raw[9]
    &&& h.oem_id@ == raw.subrange(10, 16)
    &&& h.oem_tableid == u64_from_bytes(raw.subrange(16, 24), e)
    &&& h.oem_revision == u32_from_bytes(raw.subrange(24, 28), e)
    &&& h.creator_id == u32_from_bytes(raw.subrange(28, 32), e)
    &&& h.creator_revision == u32_from_bytes(raw.subrange(32, 36), e)
}

/// The segment bus range entry held by `raw[at..at + 16]`.
pub open spec fn range_at(raw: Seq<u8>, at: int, e: Endianness) -> McfgSegmentBusRange {
    McfgSegmentBusRange {
        ecam_base: u64_from_bytes(raw.subrange(at, at + 8), e),
        segment: u16_from_bytes(raw.subrange(at + 8, at + 10), e),
        start_bus: raw[at + 10],
        end_bus: raw[at + 11],
        rsvd: u32_from_bytes(raw.subrange(at + 12, at + 16), e),
    }
}

/// The length that the ACPI header of `raw` states.
pub open spec fn stated_length(raw: Seq<u8>, e: Endianness) -> u32 {
    u32_from_bytes(raw.subrange(4, 8), e)
}

/// `raw` holds an ACPI header with the MCFG signature whose stated length is
/// the length of `raw`, and room for the fixed MCFG header after it.
pub open spec fn has_mcfg_headers(raw: Seq<u8>, e: Endianness) -> bool {
    &&& raw.len() >= 44
    &&& raw.subrange(0, 4) == mcfg_signature()
    &&& stated_length(raw, e) == raw.len()
}

/// The segment bus range entries that a parse of `raw` hands out, in table
/// order: every complete 16-byte entry after the headers, if the headers are
/// sound; none otherwise.
pub open spec fn delivered_ranges(raw: Seq<u8>, e: Endianness) -> Seq<McfgSegmentBusRange> {
    if has_mcfg_headers(raw, e) {
        Seq::new(((raw.len() - 44) / 16) as nat, |i: int| range_at(raw, 44 + 16 * i, e))
    } else {
        Seq::empty()
    }
}

/// The outcome of parsing `raw` in byte order `e`: `result` is what the
/// parse returns, and `after` is `before` with the delivered entries
/// appended.
pub open spec fn parse_outcome(
    raw: Seq<u8>,
    e: Endianness,
    result: Result<(Header, McfgHeader), ParseMcfgError>,
    before: Seq<McfgSegmentBusRange>,
    after: Seq<McfgSegmentBusRange>,
) -> bool {
    &&& after == before + delivered_ranges(raw, e)
    &&& match result {
        Err(ParseMcfgError::MissingAcpiHeader) => raw.len() < 36,
        Err(ParseMcfgError::InvalidSignature(sig)) => {
            &&& raw.len() >= 36
            &&& raw.subrange(0, 4) != mcfg_signature()
            &&& sig@ == raw.subrange(0, 4)
        },
        Err(ParseMcfgError::MismatchedLength { in_header, actual }) => {
            &&& raw.len() >= 36
            &&& raw.subrange(0, 4) == mcfg_signature()
            &&& in_header == stated_length(raw, e)
            &&& actual == raw.len()
            &&& in_header != actual
        },
        Err(ParseMcfgError::MissingFixedHeader) => {
            &&& 36 <= raw.len() < 44
            &&& raw.subrange(0, 4) == mcfg_signature()
            &&& stated_length(raw, e) == raw.len()
        },
        Err(ParseMcfgError::BadSegmentBusRange) => {
            &&& has_mcfg_headers(raw, e)
            &&& (raw.len() - 44) % 16 != 0
        },
        Ok((header, mcfg_header)) => {
            &&& has_mcfg_headers(raw, e)
            &&& (raw.len() - 44) % 16 == 0
            &&& header_decodes(header, raw, e)
            &&& mcfg_header.rsvd == u64_from_bytes(raw.subrange(36, 44), e)
        },
    }
}

fn read_header(raw: &[u8], e: Endianness) -> (h: Header)
    requires
        raw@.len() >= 36,
    ensures
        header_decodes(h, raw@, e),
{
    let h = Header {
        signature: [raw[0], raw[1], raw[2], raw[3]],
        length: read_u32(raw, 4, e),
        revision: raw[8],
        checksum: raw[9],
        oem_id: [raw[10], raw[11], raw[12], raw[13], raw[14], raw[15]],
        oem_tableid: read_u64(raw, 16, e),
        oem_revision: read_u32(raw, 24, e),
        creator_id: read_u32(raw, 28, e),
        creator_revision: read_u32(raw, 32, e),
    };
    assert(h.signature@ =~= raw@.subrange(0, 4));
    assert(h.oem_id@ =~= raw@.subrange(10, 16));
    h
}

fn read_segment_bus_range(raw: &[u8], at: usize, e: Endianness) -> (r: McfgSegmentBusRange)
    requires
        at + 16 <= raw@.len(),
    ensures
        r == range_at(raw@, at as int, e),
{
    let len = raw.len();
    assert(at + 16 <= len);
    McfgSegmentBusRange {
        ecam_base: read_u64(raw, at, e),
        segment: read_u16(raw, at + 8, e),
        start_bus: raw[at + 10],
        end_bus: raw[at + 11],
        rsvd: read_u32(raw, at + 12, e),
    }
}

/// Parses the MCFG table `raw_mcfg`, whose multi-byte fields are laid out in
/// byte order `e`. Every segment bus range entry met before the parse ends is
/// appended to `segment_bus_ranges`, in table order, even if an incomplete
/// entry then ends the parse with an error.
pub fn parse_mcfg_with_endianness(
    raw_mcfg: &[u8],
    e: Endianness,
    segment_bus_ranges: &mut Vec<McfgSegmentBusRange>,
) -> (r: Result<(Header, McfgHeader), ParseMcfgError>)
    ensures
        parse_outcome(raw_mcfg@, e, r, old(segment_bus_ranges)@, final(segment_bus_ranges)@),
{
    let raw_mcfg_len = raw_mcfg.len();
    if raw_mcfg_len < ACPI_HEADER_SIZE {
        return Err(ParseMcfgError::MissingAcpiHeader);
    }
    let acpi_header = read_header(raw_mcfg, e);
    let signature = MCFG_SIGNATURE;
    if !(raw_mcfg[0] == signature[0] && raw_mcfg[1] == signature[1] && raw_mcfg[2] == signature[2]
        && raw_mcfg[3] == signature[3]) {
        assert(raw_mcfg@.subrange(0, 4) != mcfg_signature()) by {
            if raw_mcfg@.subrange(0, 4) == mcfg_signature() {
                assert(raw_mcfg@.subrange(0, 4)[0] == raw_mcfg@[0]);
                assert(raw_mcfg@.subrange(0, 4)[1] == raw_mcfg@[1]);
                assert(raw_mcfg@.subrange(0, 4)[2] == raw_mcfg@[2]);
                assert(raw_mcfg@.subrange(0, 4)[3] == raw_mcfg@[3]);
            }
        }
        return Err(ParseMcfgError::InvalidSignature(acpi_header.signature));
    }
    assert(raw_mcfg@.subrange(0, 4) =~= mcfg_signature());
    if acpi_header.length as usize != raw_mcfg_len {
        return Err(
            ParseMcfgError::MismatchedLength {
                in_header: acpi_header.length as usize,
                actual: raw_mcfg_len,
            },
        );
    }
    if raw_mcfg_len - ACPI_HEADER_SIZE < MCFG_HEADER_SIZE {
        return Err(ParseMcfgError::MissingFixedHeader);
    }
    let mcfg_header = McfgHeader { rsvd: read_u64(raw_mcfg, ACPI_HEADER_SIZE, e) };

    let ghost before = old(segment_bus_ranges)@;
    let mut offset: usize = ACPI_HEADER_SIZE + MCFG_HEADER_SIZE;
    let ghost mut count: int = 0;
    while offset < raw_mcfg_len
        invariant
            raw_mcfg_len == raw_mcfg@.len(),
            has_mcfg_headers(raw_mcfg@, e),
            before == old(segment_bus_ranges)@,
            offset == 44 + 16 * count,
            0 <= count,
            offset <= raw_mcfg_len,
            segment_bus_ranges@ == before + Seq::new(
                count as nat,
                |i: int| range_at(raw_mcfg@, 44 + 16 * i, e),
            ),
        decreases raw_mcfg_len - offset,
    {
        if raw_mcfg_len - offset < MCFG_SEGMENT_BUS_RANGE_SIZE {
            assert((raw_mcfg_len - 44) / 16 == count && (raw_mcfg_len - 44) % 16 != 0);
            assert(delivered_ranges(raw_mcfg@, e) =~= Seq::new(
                count as nat,
                |i: int| range_at(raw_mcfg@, 44 + 16 * i, e),
            ));
            return Err(ParseMcfgError::BadSegmentBusRange);
        }
        let range = read_segment_bus_range(raw_mcfg, offset, e);
        segment_bus_ranges.push(range);
        offset = offset + MCFG_SEGMENT_BUS_RANGE_SIZE;
        proof {
            count = count + 1;
        }
        assert(segment_bus_ranges@ =~= before + Seq::new(
            count as nat,
            |i: int| range_at(raw_mcfg@, 44 + 16 * i, e),
        ));
    }
    assert((raw_mcfg_len - 44) / 16 == count && (raw_mcfg_len - 44) % 16 == 0);
    assert(delivered_ranges(raw_mcfg@, e) =~= Seq::new(
        count as nat,
        |i: int| range_at(raw_mcfg@, 44 + 16 * i, e),
    ));
    Ok((acpi_header, mcfg_header))
}

/// Parses the MCFG table `raw_mcfg`, whose multi-byte fields are laid out in
/// the byte order of this machine. Every segment bus range entry met before
/// the parse ends is appended to `segment_bus_ranges`, in table order, even
/// if an incomplete entry then ends the parse with an error.
pub fn parse_mcfg(raw_mcfg: &[u8], segment_bus_ranges: &mut Vec<McfgSegmentBusRange>) -> (r: Result<
    (Header, McfgHeader),
    ParseMcfgError,
>)
    ensures
        exists|e: Endianness|
            #[trigger] parse_outcome(
                raw_mcfg@,
                e,
                r,
                old(segment_bus_ranges)@,
                final(segment_bus_ranges)@,
            ),
{
    let e = native_endianness();
    parse_mcfg_with_endianness(raw_mcfg, e, segment_bus_ranges)
}

/// The 36 bytes that hold the ACPI header `h`.
pub open spec fn header_bytes(h: Header, e: Endianness) -> Seq<u8> {
    h.signature@ + u32_to_bytes(h.length, e) + seq![h.revision, h.checksum] + h.oem_id@
        + u64_to_bytes(h.oem_tableid, e) + u32_to_bytes(h.oem_revision, e) + u32_to_bytes(
        h.creator_id,
        e,
    ) + u32_to_bytes(h.creator_revision, e)
}

/// The 8 bytes that hold the fixed MCFG header `m`.
pub open spec fn mcfg_header_bytes(m: McfgHeader, e: Endianness) -> Seq<u8> {
    u64_to_bytes(m.rsvd, e)
}

/// The 16 bytes that hold the segment bus range entry `r`.
pub open spec fn range_bytes(r: McfgSegmentBusRange, e: Endianness) -> Seq<u8> {
    u64_to_bytes(r.ecam_base, e) + u16_to_bytes(r.segment, e) + seq![r.start_bus, r.end_bus]
        + u32_to_bytes(r.rsvd, e)
}

/// The bytes that hold the entries `rs`, one after another.
pub open spec fn ranges_bytes(rs: Seq<McfgSegmentBusRange>, e: Endianness) -> Seq<u8>
    decreases rs.len(),
{
    if rs.len() == 0 {
        Seq::empty()
    } else {
        ranges_bytes(rs.drop_last(), e) + range_bytes(rs.last(), e)
    }
}

impl Header {
    /// The bytes that hold this header in a table laid out in order `e`.
    pub fn to_bytes(&self, e: Endianness) -> (b: Vec<u8>)
        ensures
            b@ == header_bytes(*self, e),
    {
        let mut b: Vec<u8> = Vec::new();
        b.push(self.signature[0]);
        b.push(self.signature[1]);
        b.push(self.signature[2]);
        b.push(self.signature[3]);
        push_u32(&mut b, self.length, e);
        b.push(self.revision);
        b.push(self.checksum);
        let mut i: usize = 0;
        while i < 6
            invariant
                0 <= i <= 6,
                b@ == self.signature@ + u32_to_bytes(self.length, e) + seq![
                    self.revision,
                    self.checksum,
                ] + self.oem_id@.take(i as int),
            decreases 6 - i,
        {
            b.push(self.oem_id[i]);
            i = i + 1;
            assert(b@ =~= self.signature@ + u32_to_bytes(self.length, e) + seq![
                self.revision,
                self.checksum,
            ] + self.oem_id@.take(i as int));
        }
        assert(self.oem_id@.take(6) =~= self.oem_id@);
        push_u64(&mut b, self.oem_tableid, e);
        push_u32(&mut b, self.oem_revision, e);
        push_u32(&mut b, self.creator_id, e);
        push_u32(&mut b, self.creator_revision, e);
        assert(self.signature@ =~= seq![
            self.signature[0],
            self.signature[1],
            self.signature[2],
            self.signature[3],
        ]);
        assert(b@ =~= header_bytes(*self, e));
        b
    }
}

impl McfgHeader {
    /// The bytes that hold this header in a table laid out in order `e`.
    pub fn to_bytes(&self, e: Endianness) -> (b: Vec<u8>)
        ensures
            b@ == mcfg_header_bytes(*self, e),
    {
        let mut b: Vec<u8> = Vec::new();
        push_u64(&mut b, self.rsvd, e);
        assert(b@ =~= mcfg_header_bytes(*self, e));
        b
    }
}

impl McfgSegmentBusRange {
    /// The bytes that hold this entry in a table laid out in order `e`.
    pub fn to_bytes(&self, e: Endianness) -> (b: Vec<u8>)
        ensures
            b@ == range_bytes(*self, e),
    {
        let mut b: Vec<u8> = Vec::new();
        push_u64(&mut b, self.ecam_base, e);
        push_u16(&mut b, self.segment, e);
        b.push(self.start_bus);
        b.push(self.end_bus);
        push_u32(&mut b, self.rsvd, e);
        assert(b@ =~= range_bytes(*self, e));
        b
    }
}

/// The bytes of the entries lie one after another, 16 bytes each.
proof fn lemma_ranges_bytes(rs: Seq<McfgSegmentBusRange>, e: Endianness, i: int)
    requires
        0 <= i < rs.len(),
    ensures
        ranges_bytes(rs, e).len() == 16 * rs.len(),
        ranges_bytes(rs, e).subrange(16 * i, 16 * i + 16) == range_bytes(rs[i], e),
    decreases rs.len(),
{
    lemma_ranges_bytes_len(rs, e);
    let rest = rs.drop_last();
    lemma_ranges_bytes_len(rest, e);
    lemma_range_bytes_len(rs.last(), e);
    if i == rs.len() - 1 {
        assert(ranges_bytes(rs, e).subrange(16 * i, 16 * i + 16) =~= range_bytes(rs[i], e));
    } else {
        lemma_ranges_bytes(rest, e, i);
        assert(ranges_bytes(rs, e).subrange(16 * i, 16 * i + 16) =~= ranges_bytes(rest, e).subrange(
            16 * i,
            16 * i + 16,
        ));
    }
}

proof fn lemma_range_bytes_len(r: McfgSegmentBusRange, e: Endianness)
    ensures
        range_bytes(r, e).len() == 16,
{
    lemma_u64_bytes_roundtrip(r.ecam_base, e);
    lemma_u16_bytes_roundtrip(r.segment, e);
    lemma_u32_bytes_roundtrip(r.rsvd, e);
}

proof fn lemma_ranges_bytes_len(rs: Seq<McfgSegmentBusRange>, e: Endianness)
    ensures
        ranges_bytes(rs, e).len() == 16 * rs.len(),
    decreases rs.len(),
{
    if rs.len() > 0 {
        lemma_ranges_bytes_len(rs.drop_last(), e);
        lemma_range_bytes_len(rs.last(), e);
    }
}

/// The entry held by the 16 bytes of `r` at `at` is `r`.
proof fn lemma_range_at_bytes(raw: Seq<u8>, at: int, r: McfgSegmentBusRange, e: Endianness)
    requires
        0 <= at,
        at + 16 <= raw.len(),
        raw.subrange(at, at + 16) == range_bytes(r, e),
    ensures
        range_at(raw, at, e) == r,
{
    lemma_u64_bytes_roundtrip(r.ecam_base, e);
    lemma_u16_bytes_roundtrip(r.segment, e);
    lemma_u32_bytes_roundtrip(r.rsvd, e);
    let rb = range_bytes(r, e);
    assert(raw.subrange(at, at + 8) =~= rb.subrange(0, 8));
    assert(rb.subrange(0, 8) =~= u64_to_bytes(r.ecam_base, e));
    assert(raw.subrange(at + 8, at + 10) =~= rb.subrange(8, 10));
    assert(rb.subrange(8, 10) =~= u16_to_bytes(r.segment, e));
    assert(raw[at + 10] == rb[10]);
    assert(raw[at + 11] == rb[11]);
    assert(raw.subrange(at + 12, at + 16) =~= rb.subrange(12, 16));
    assert(rb.subrange(12, 16) =~= u32_to_bytes(r.rsvd, e));
}

/// Parsing a table made of the bytes of an ACPI header with the MCFG
/// signature and the table's own length, of a fixed MCFG header and of some
/// entries gives back both headers and exactly those entries, in order.
pub proof fn law_parse_encoded_table(
    h: Header,
    m: McfgHeader,
    rs: Seq<McfgSegmentBusRange>,
    e: Endianness,
    result: Result<(Header, McfgHeader), ParseMcfgError>,
    before: Seq<McfgSegmentBusRange>,
    after: Seq<McfgSegmentBusRange>,
)
    requires
        h.signature@ == mcfg_signature(),
        h.length == 44 + 16 * rs.len(),
        parse_outcome(
            header_bytes(h, e) + mcfg_header_bytes(m, e) + ranges_bytes(rs, e),
            e,
            result,
            before,
            after,
        ),
    ensures
        result matches Ok((h2, m2)) && h2 == h && m2 == m,
        after == before + rs,
{
    let hb = header_bytes(h, e);
    let mb = mcfg_header_bytes(m, e);
    let rb = ranges_bytes(rs, e);
    let raw = hb + mb + rb;
    lemma_u32_bytes_roundtrip(h.length, e);
    lemma_u32_bytes_roundtrip(h.oem_revision, e);
    lemma_u32_bytes_roundtrip(h.creator_id, e);
    lemma_u32_bytes_roundtrip(h.creator_revision, e);
    lemma_u64_bytes_roundtrip(h.oem_tableid, e);
    lemma_u64_bytes_roundtrip(m.rsvd, e);
    lemma_ranges_bytes_len(rs, e);
    assert(hb.len() == 36);
    assert(raw.len() == 44 + 16 * rs.len());
    assert(raw.subrange(0, 4) =~= h.signature@);
    assert(raw.subrange(4, 8) =~= u32_to_bytes(h.length, e));
    assert(raw.subrange(16, 24) =~= u64_to_bytes(h.oem_tableid, e));
    assert(raw.subrange(24, 28) =~= u32_to_bytes(h.oem_revision, e));
    assert(raw.subrange(28, 32) =~= u32_to_bytes(h.creator_id, e));
    assert(raw.subrange(32, 36) =~= u32_to_bytes(h.creator_revision, e));
    assert(raw.subrange(36, 44) =~= u64_to_bytes(m.rsvd, e));
    assert(raw.subrange(10, 16) =~= h.oem_id@);
    assert(raw[8] == h.revision && raw[9] == h.checksum);
    assert(has_mcfg_headers(raw, e));
    assert((raw.len() - 44) % 16 == 0);
    let (h2, m2) = result->Ok_0;
    assert(h2.signature@ == h.signature@);
    assert(h2.oem_id@ == h.oem_id@);
    assert(h2.signature == h.signature);
    assert(h2.oem_id == h.oem_id);
    assert forall|i: int| 0 <= i < rs.len() implies range_at(raw, 44 + 16 * i, e) == rs[i] by {
        lemma_ranges_bytes(rs, e, i);
        assert(raw.subrange(44 + 16 * i, 44 + 16 * i + 16) =~= rb.subrange(16 * i, 16 * i + 16));
        lemma_range_at_bytes(raw, 44 + 16 * i, rs[i], e);
    }
    assert(delivered_ranges(raw, e) =~= rs);
}

/// A table parses successfully exactly when it has the MCFG signature, states
/// its own length, has room for both headers and ends on an entry boundary;
/// the entries handed out are then exactly its complete entries, in order.
pub proof fn law_parse_succeeds_iff(
    raw: Seq<u8>,
    e: Endianness,
    result: Result<(Header, McfgHeader), ParseMcfgError>,
    before: Seq<McfgSegmentBusRange>,
    after: Seq<McfgSegmentBusRange>,
)
    requires
        parse_outcome(raw, e, result, before, after),
    ensures
        result is Ok <==> has_mcfg_headers(raw, e) && (raw.len() - 44) % 16 == 0,
        result is Ok ==> after.len() == before.len() + (raw.len() - 44) / 16,
        result is Ok ==> forall|i: int|
            0 <= i < (raw.len() - 44) / 16 ==> #[trigger] after[before.len() + i] == range_at(
                raw,
                44 + 16 * i,
                e,
            ),
{
}

/// The outcome of a parse is determined by the table and the byte order: two
/// parses of one table report the same error, or the same headers, and hand
/// out the same entries.
pub proof fn law_parse_outcome_unique(
    raw: Seq<u8>,
    e: Endianness,
    r1: Result<(Header, McfgHeader), ParseMcfgError>,
    r2: Result<(Header, McfgHeader), ParseMcfgError>,
    before: Seq<McfgSegmentBusRange>,
    after1: Seq<McfgSegmentBusRange>,
    after2: Seq<McfgSegmentBusRange>,
)
    requires
        parse_outcome(raw, e, r1, before, after1),
        parse_outcome(raw, e, r2, before, after2),
    ensures
        after1 == after2,
        r1 == r2,
{
    match (r1, r2) {
        (Err(ParseMcfgError::InvalidSignature(s1)), Err(ParseMcfgError::InvalidSignature(s2))) => {
            assert(s1@ == s2@);
            assert(s1 == s2);
        },
        (Ok((h1, m1)), Ok((h2, m2))) => {
            assert(h1.signature@ == h2.signature@);
            assert(h1.oem_id@ == h2.oem_id@);
            assert(h1.signature == h2.signature);
            assert(h1.oem_id == h2.oem_id);
        },
        _ => {},
    }
}

} // verus!
