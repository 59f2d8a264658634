//! Byte order of multi-byte integers as they sit in memory.

use vstd::prelude::*;
use zerocopy::byteorder::ByteOrder as ZerocopyByteOrder;

verus! {

/// The order in which the bytes of an integer are laid out in memory.
#[derive(Clone, Copy, Debug, PartialEq, Eq, Structural)]
pub enum Endianness {
    /// Least significant byte first.
    Little,
    /// Most significant byte first.
    Big,
}

/// The byte order of the machine this code runs on.
///
/// Trusted wrapper around `zerocopy::byteorder::NativeEndian`'s
/// `ByteOrder::ORDER`: it only converts zerocopy's `Order` into
/// `Endianness`, variant for variant. Which order comes back depends on the
/// target machine, so nothing is promised of it.
#[verifier::external_body]
pub(crate) fn native_endianness() -> (e: Endianness) {
    match <zerocopy::byteorder::NativeEndian as ZerocopyByteOrder>::ORDER {
        zerocopy::byteorder::Order::LittleEndian => Endianness::Little,
        zerocopy::byteorder::Order::BigEndian => Endianness::Big,
    }
}

/// The 16-bit value stored in the two bytes `b[0], b[1]`.
pub open spec fn u16_from_bytes(b: Seq<u8>, e: Endianness) -> u16 {
    match e {
        Endianness::Little => ((b[0] as u16) | ((b[1] as u16) << 8u16)),
        Endianness::Big => (((b[0] as u16) << 8u16) | (b[1] as u16)),
    }
}

/// The 32-bit value stored in the four bytes `b[0..4]`.
pub open spec fn u32_from_bytes(b: Seq<u8>, e: Endianness) -> u32 {
    match e {
        Endianness::Little => ((b[0] as u32) | ((b[1] as u32) << 8u32) | ((b[2] as u32) << 16u32)
            | ((b[3] as u32) << 24u32)),
        Endianness::Big => (((b[0] as u32) << 24u32) | ((b[1] as u32) << 16u32) | ((b[2] as u32)
            << 8u32) | (b[3] as u32)),
    }
}

/// The 64-bit value stored in the eight bytes `b[0..8]`: the two 32-bit
/// halves in the given order.
pub open spec fn u64_from_bytes(b: Seq<u8>, e: Endianness) -> u64 {
    let first = u32_from_bytes(b.subrange(0, 4), e) as u64;
    let second = u32_from_bytes(b.subrange(4, 8), e) as u64;
    match e {
        Endianness::Little => (first | (second << 32u64)),
        Endianness::Big => ((first << 32u64) | second),
    }
}

/// The four bytes that hold `v` in memory.
pub open spec fn u32_to_bytes(v: u32, e: Endianness) -> Seq<u8> {
    let b0 = (v & 0xff) as u8;
    let b1 = ((v >> 8u32) & 0xff) as u8;
    let b2 = ((v >> 16u32) & 0xff) as u8;
    let b3 = ((v >> 24u32) & 0xff) as u8;
    match e {
        Endianness::Little => seq![b0, b1, b2, b3],
        Endianness::Big => seq![b3, b2, b1, b0],
    }
}

/// Reads the 16-bit value stored at `bytes[at..at + 2]`.
pub fn read_u16(bytes: &[u8], at: usize, e: Endianness) -> (v: u16)
    requires
        at + 2 <= bytes@.len(),
    ensures
        v == u16_from_bytes(bytes@.subrange(at as int, at + 2), e),
{
    let b0 = bytes[at] as u16;
    let b1 = bytes[at + 1] as u16;
    match e {
        Endianness::Little => b0 | (b1 << 8u16),
        Endianness::Big => (b0 << 8u16) | b1,
    }
}

/// Reads the 32-bit value stored at `bytes[at..at + 4]`.
pub fn read_u32(bytes: &[u8], at: usize, e: Endianness) -> (v: u32)
    requires
        at + 4 <= bytes@.len(),
    ensures
        v == u32_from_bytes(bytes@.subrange(at as int, at + 4), e),
{
    let b0 = bytes[at] as u32;
    let b1 = bytes[at + 1] as u32;
    let b2 = bytes[at + 2] as u32;
    let b3 = bytes[at + 3] as u32;
    match e {
        Endianness::Little => b0 | (b1 << 8u32) | (b2 << 16u32) | (b3 << 24u32),
        Endianness::Big => (b0 << 24u32) | (b1 << 16u32) | (b2 << 8u32) | b3,
    }
}

/// Reads the 64-bit value stored at `bytes[at..at + 8]`.
pub fn read_u64(bytes: &[u8], at: usize, e: Endianness) -> (v: u64)
    requires
        at + 8 <= bytes@.len(),
    ensures
        v == u64_from_bytes(bytes@.subrange(at as int, at + 8), e),
{
    let len = bytes.len();
    assert(at + 8 <= len);
    let first = read_u32(bytes, at, e) as u64;
    let second = read_u32(bytes, at + 4, e) as u64;
    assert(bytes@.subrange(at as int, at + 8).subrange(0, 4) =~= bytes@.subrange(at as int, at + 4));
    assert(bytes@.subrange(at as int, at + 8).subrange(4, 8) =~= bytes@.subrange(at + 4, at + 8));
    match e {
        Endianness::Little => first | (second << 32u64),
        Endianness::Big => (first << 32u64) | second,
    }
}

/// The four bytes that hold `v` in memory, laid out in order `e`.
pub fn u32_to_byte_array(v: u32, e: Endianness) -> (b: [u8; 4])
    ensures
        b@ == u32_to_bytes(v, e),
{
    let b0 = (v & 0xff) as u8;
    let b1 = ((v >> 8u32) & 0xff) as u8;
    let b2 = ((v >> 16u32) & 0xff) as u8;
    let b3 = ((v >> 24u32) & 0xff) as u8;
    let b = match e {
        Endianness::Little => [b0, b1, b2, b3],
        Endianness::Big => [b3, b2, b1, b0],
    };
    assert(b@ =~= u32_to_bytes(v, e));
    b
}

/// The 32-bit value held by the four bytes of `b`, laid out in order `e`.
pub fn u32_from_byte_array(b: [u8; 4], e: Endianness) -> (v: u32)
    ensures
        v == u32_from_bytes(b@, e),
{
    let b0 = b[0] as u32;
    let b1 = b[1] as u32;
    let b2 = b[2] as u32;
    let b3 = b[3] as u32;
    match e {
        Endianness::Little => b0 | (b1 << 8u32) | (b2 << 16u32) | (b3 << 24u32),
        Endianness::Big => (b0 << 24u32) | (b1 << 16u32) | (b2 << 8u32) | b3,
    }
}

/// The two bytes that hold `v` in memory.
pub open spec fn u16_to_bytes(v: u16, e: Endianness) -> Seq<u8> {
    let b0 = (v & 0xff) as u8;
    let b1 = ((v >> 8u16) & 0xff) as u8;
    match e {
        Endianness::Little => seq![b0, b1],
        Endianness::Big => seq![b1, b0],
    }
}

/// The eight bytes that hold `v` in memory: its two 32-bit halves in the
/// given order.
pub open spec fn u64_to_bytes(v: u64, e: Endianness) -> Seq<u8> {
    let low = (v & 0xffff_ffff) as u32;
    let high = (v >> 32u64) as u32;
    match e {
        Endianness::Little => u32_to_bytes(low, e) + u32_to_bytes(high, e),
        Endianness::Big => u32_to_bytes(high, e) + u32_to_bytes(low, e),
    }
}

/// Appends the two bytes that hold `v` to `out`.
pub fn push_u16(out: &mut Vec<u8>, v: u16, e: Endianness)
    ensures
        final(out)@ == old(out)@ + u16_to_bytes(v, e),
{
    let b0 = (v & 0xff) as u8;
    let b1 = ((v >> 8u16) & 0xff) as u8;
    match e {
        Endianness::Little => {
            out.push(b0);
            out.push(b1);
        },
        Endianness::Big => {
            out.push(b1);
            out.push(b0);
        },
    }
    assert(out@ =~= old(out)@ + u16_to_bytes(v, e));
}

/// Appends the four bytes that hold `v` to `out`.
pub fn push_u32(out: &mut Vec<u8>, v: u32, e: Endianness)
    ensures
        final(out)@ == old(out)@ + u32_to_bytes(v, e),
{
    let b = u32_to_byte_array(v, e);
    out.push(b[0]);
    out.push(b[1]);
    out.push(b[2]);
    out.push(b[3]);
    assert(out@ =~= old(out)@ + u32_to_bytes(v, e));
}

/// Appends the eight bytes that hold `v` to `out`.
pub fn push_u64(out: &mut Vec<u8>, v: u64, e: Endianness)
    ensures
        final(out)@ == old(out)@ + u64_to_bytes(v, e),
{
    let low = (v & 0xffff_ffff) as u32;
    let high = (v >> 32u64) as u32;
    match e {
        Endianness::Little => {
            push_u32(out, low, e);
            push_u32(out, high, e);
        },
        Endianness::Big => {
            push_u32(out, high, e);
            push_u32(out, low, e);
        },
    }
    assert(out@ =~= old(out)@ + u64_to_bytes(v, e));
}

/// Decoding the bytes that hold a 16-bit `v` gives `v` back.
pub proof fn lemma_u16_bytes_roundtrip(v: u16, e: Endianness)
    ensures
        u16_to_bytes(v, e).len() == 2,
        u16_from_bytes(u16_to_bytes(v, e), e) == v,
{
    let b0 = (v & 0xff) as u8;
    let b1 = ((v >> 8u16) & 0xff) as u8;
    assert((b0 as u16) | ((b1 as u16) << 8u16) == v && ((b1 as u16) << 8u16) | (b0 as u16) == v)
        by (bit_vector)
        requires
            b0 == (v & 0xff) as u8,
            b1 == ((v >> 8u16) & 0xff) as u8,
    ;
}

/// Decoding the bytes that hold a 64-bit `v` gives `v` back.
pub proof fn lemma_u64_bytes_roundtrip(v: u64, e: Endianness)
    ensures
        u64_to_bytes(v, e).len() == 8,
        u64_from_bytes(u64_to_bytes(v, e), e) == v,
{
    let low = (v & 0xffff_ffff) as u32;
    let high = (v >> 32u64) as u32;
    lemma_u32_bytes_roundtrip(low, e);
    lemma_u32_bytes_roundtrip(high, e);
    let b = u64_to_bytes(v, e);
    match e {
        Endianness::Little => {
            assert(b.subrange(0, 4) =~= u32_to_bytes(low, e));
            assert(b.subrange(4, 8) =~= u32_to_bytes(high, e));
            assert((low as u64) | ((high as u64) << 32u64) == v) by (bit_vector)
                requires
                    low == (v & 0xffff_ffff) as u32,
                    high == (v >> 32u64) as u32,
            ;
        },
        Endianness::Big => {
            assert(b.subrange(0, 4) =~= u32_to_bytes(high, e));
            assert(b.subrange(4, 8) =~= u32_to_bytes(low, e));
            assert(((high as u64) << 32u64) | (low as u64) == v) by (bit_vector)
                requires
                    low == (v & 0xffff_ffff) as u32,
                    high == (v >> 32u64) as u32,
            ;
        },
    }
}

/// Decoding the bytes that hold `v` gives `v` back.
pub proof fn lemma_u32_bytes_roundtrip(v: u32, e: Endianness)
    ensures
        u32_to_bytes(v, e).len() == 4,
        u32_from_bytes(u32_to_bytes(v, e), e) == v,
{
    let b0 = (v & 0xff) as u8;
    let b1 = ((v >> 8u32) & 0xff) as u8;
    let b2 = ((v >> 16u32) & 0xff) as u8;
    let b3 = ((v >> 24u32) & 0xff) as u8;
    assert((b0 as u32) | ((b1 as u32) << 8u32) | ((b2 as u32) << 16u32) | ((b3 as u32) << 24u32)
        == v) by (bit_vector)
        requires
            b0 == (v & 0xff) as u8,
            b1 == ((v >> 8u32) & 0xff) as u8,
            b2 == ((v >> 16u32) & 0xff) as u8,
            b3 == ((v >> 24u32) & 0xff) as u8,
    ;
    assert(((b3 as u32) << 24u32) | ((b2 as u32) << 16u32) | ((b1 as u32) << 8u32) | (b0 as u32)
        == v) by (bit_vector)
        requires
            b0 == (v & 0xff) as u8,
            b1 == ((v >> 8u32) & 0xff) as u8,
            b2 == ((v >> 16u32) & 0xff) as u8,
            b3 == ((v >> 24u32) & 0xff) as u8,
    ;
}

/// Encoding the value held by four bytes gives those bytes back.
pub proof fn lemma_u32_value_roundtrip(b: Seq<u8>, e: Endianness)
    requires
        b.len() == 4,
    ensures
        u32_to_bytes(u32_from_bytes(b, e), e) == b,
{
    let (b0, b1, b2, b3) = (b[0], b[1], b[2], b[3]);
    let le = (b0 as u32) | ((b1 as u32) << 8u32) | ((b2 as u32) << 16u32) | ((b3 as u32) << 24u32);
    assert((le & 0xff) as u8 == b0 && ((le >> 8u32) & 0xff) as u8 == b1 && ((le >> 16u32) & 0xff)
        as u8 == b2 && ((le >> 24u32) & 0xff) as u8 == b3) by (bit_vector)
        requires
            le == (b0 as u32) | ((b1 as u32) << 8u32) | ((b2 as u32) << 16u32) | ((b3 as u32)
                << 24u32),
    ;
    let be = ((b0 as u32) << 24u32) | ((b1 as u32) << 16u32) | ((b2 as u32) << 8u32) | (b3 as u32);
    assert((be & 0xff) as u8 == b3 && ((be >> 8u32) & 0xff) as u8 == b2 && ((be >> 16u32) & 0xff)
        as u8 == b1 && ((be >> 24u32) & 0xff) as u8 == b0) by (bit_vector)
        requires
            be == ((b0 as u32) << 24u32) | ((b1 as u32) << 16u32) | ((b2 as u32) << 8u32) | (b3
                as u32),
    ;
    assert(u32_to_bytes(u32_from_bytes(b, e), e) =~= b);
}

} // verus!
