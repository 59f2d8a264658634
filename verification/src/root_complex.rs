//! A generic PCI Express root complex emulator: it decodes accesses to its
//! ECAM (enhanced configuration access mechanism) window and routes them to
//! the root ports on its internal root bus.

use crate::byte_order::{
    lemma_u32_value_roundtrip, native_endianness, u32_from_byte_array, u32_from_bytes, u32_to_byte_array, u32_to_bytes,
    Endianness,
};
use crate::root_port::{
    law_cfg_read_after_write, law_cfg_write_elsewhere_ignored, GenericPcieRootPort, IoError, IoResult, RootPortState,
    CAPABILITIES_LIST_STATUS,
};
use std::collections::HashMap;
use vstd::prelude::*;

verus! {

broadcast use vstd::std_specs::hash::group_hash_axioms;

/// Bytes of ECAM space that one bus takes: 256 functions of 4 KiB each.
pub const ECAM_BYTES_PER_BUS: u64 = 0x10_0000;

/// The state of a root complex, as the contracts speak of it.
pub struct RootComplexState {
    /// The segment number on which the root complex resides.
    pub segment: u16,
    /// The lowest valid bus number under the root complex.
    pub start_bus: u8,
    /// The highest valid bus number under the root complex.
    pub end_bus: u8,
    /// Guest physical address where the ECAM window starts.
    pub ecam_base: u64,
    /// Length in bytes of the ECAM window.
    pub ecam_size: u64,
    /// The root ports on the root bus, by combined device and function number.
    pub ports: Map<u8, RootPortState>,
    /// Byte order in which register values meet the bytes of an access.
    pub endianness: Endianness,
}

/// The bus, combined device/function number and configuration-space offset
/// that an offset into the ECAM window names.
pub open spec fn ecam_target(offset: u64) -> (u8, u8, u16) {
    (
        ((offset >> 20u64) & 0xff) as u8,
        ((offset >> 12u64) & 0xff) as u8,
        (offset & 0xfff) as u16,
    )
}

/// The error that an access of `len` bytes at `addr` is refused with, if any:
/// only 1, 2 and 4 byte accesses are served, and 2 and 4 byte ones must be
/// naturally aligned.
pub open spec fn access_error(addr: u64, len: nat) -> Option<IoError> {
    if !(len == 1 || len == 2 || len == 4) {
        Some(IoError::InvalidAccessSize)
    } else if !((len == 4 && addr & 3 == 0) || (len == 2 && addr & 1 == 0) || len == 1) {
        Some(IoError::UnalignedAccess)
    } else {
        None
    }
}

/// Bit position, within its dword, of the byte at configuration offset
/// `cfg_offset`.
pub open spec fn byte_shift(cfg_offset: u16) -> u16 {
    ((cfg_offset & 3u16) * 8) as u16
}

/// The low `len` bytes all set.
pub open spec fn low_mask(len: nat) -> u32 {
    if len == 0 {
        0
    } else if len == 1 {
        0xff
    } else if len == 2 {
        0xffff
    } else {
        0xff_ffff
    }
}

/// What a read of `len` bytes at `cfg_offset` returns out of the dword
/// `value` that holds them.
pub open spec fn shifted_read(cfg_offset: u16, len: nat, value: u32) -> u32 {
    if len == 4 {
        value
    } else if len == 2 {
        (value >> byte_shift(cfg_offset)) & 0xffff
    } else {
        (value >> byte_shift(cfg_offset)) & 0xff
    }
}

/// The dword `old_value` with the `len` bytes at `cfg_offset` replaced by
/// `new_value`.
pub open spec fn merged_write(cfg_offset: u16, old_value: u32, new_value: u32, len: nat) -> u32 {
    (old_value & !(low_mask(len) << byte_shift(cfg_offset))) | (new_value << byte_shift(cfg_offset))
}

/// `data` padded with zero bytes to four bytes.
pub open spec fn zero_extended(data: Seq<u8>) -> Seq<u8> {
    data + Seq::new((4 - data.len()) as nat, |i: int| 0u8)
}

impl RootComplexState {
    /// The bus range is not empty and the ECAM window covers exactly it.
    pub open spec fn wf(self) -> bool {
        &&& self.start_bus <= self.end_bus
        &&& self.ecam_size == (self.end_bus - self.start_bus + 1) * ECAM_BYTES_PER_BUS
    }

    /// `addr` lies in the ECAM window.
    pub open spec fn in_ecam(self, addr: u64) -> bool {
        self.ecam_base <= addr < self.ecam_base + self.ecam_size
    }

    /// The bus, device/function and configuration offset that `addr` names.
    pub open spec fn target(self, addr: u64) -> (u8, u8, u16) {
        ecam_target((addr - self.ecam_base) as u64)
    }

    /// `addr` reaches a root port: its bus is the root bus and a port sits at
    /// its device/function number.
    pub open spec fn routes_to_port(self, addr: u64) -> bool {
        let (bus, device_function, cfg_offset) = self.target(addr);
        bus == self.start_bus && self.ports.contains_key(device_function)
    }

    /// The configuration dword that holds the bytes at `addr`: the port's
    /// register if the access reaches a port, all bits set otherwise.
    pub open spec fn config_dword(self, addr: u64) -> u32 {
        let (bus, device_function, cfg_offset) = self.target(addr);
        if self.routes_to_port(addr) {
            self.ports[device_function].cfg_read(cfg_offset & 0xfffc)
        } else {
            0xffff_ffff
        }
    }

    /// The bytes that a read of `len` bytes at `addr` returns.
    pub open spec fn read_bytes(self, addr: u64, len: nat) -> Seq<u8> {
        let (bus, device_function, cfg_offset) = self.target(addr);
        u32_to_bytes(shifted_read(cfg_offset, len, self.config_dword(addr)), self.endianness).take(
            len as int,
        )
    }

    /// The state after `data` is written at `addr`: a write that reaches a
    /// port merges the bytes into the dword that holds them (reading the rest
    /// of it from the port) and writes the dword back; other writes are
    /// dropped.
    pub open spec fn after_write(self, addr: u64, data: Seq<u8>) -> RootComplexState {
        let (bus, device_function, cfg_offset) = self.target(addr);
        if self.routes_to_port(addr) {
            let port = self.ports[device_function];
            let rounded_offset = cfg_offset & 0xfffc;
            let write_value = u32_from_bytes(zero_extended(data), self.endianness);
            let merged_value = if data.len() == 4 {
                write_value
            } else {
                merged_write(cfg_offset, port.cfg_read(rounded_offset), write_value, data.len())
            };
            RootComplexState {
                ports: self.ports.insert(
                    device_function,
                    port.cfg_write(rounded_offset, merged_value),
                ),
                ..self
            }
        } else {
            self
        }
    }
}

/// A generic PCI Express root complex emulator.
pub struct GenericPcieRootComplex {
    /// The segment number on which the root complex resides.
    segment: u16,
    /// The lowest valid bus number under the root complex.
    start_bus: u8,
    /// The highest valid bus number under the root complex.
    end_bus: u8,
    /// Base address of the ECAM MMIO region.
    ecam_base: u64,
    /// Length of the ECAM MMIO region.
    ecam_size: u64,
    /// Map of root ports attached to the root complex, indexed by combined device and function numbers.
    ports: HashMap<u8, GenericPcieRootPort>,
    /// Byte order of the machine, which lays out register values in memory.
    endianness: Endianness,
}

impl View for GenericPcieRootComplex {
    type V = RootComplexState;

    closed spec fn view(&self) -> RootComplexState {
        RootComplexState {
            segment: self.segment,
            start_bus: self.start_bus,
            end_bus: self.end_bus,
            ecam_base: self.ecam_base,
            ecam_size: self.ecam_size,
            ports: self.ports@.map_values(|p: GenericPcieRootPort| p@),
            endianness: self.endianness,
        }
    }
}

/// Returns the `len` bytes at `cfg_offset` out of the dword `value` that
/// holds them.
pub fn shift_read_value(cfg_offset: u16, len: usize, value: u32) -> (r: u32)
    requires
        len == 1 || len == 2 || len == 4,
    ensures
        r == shifted_read(cfg_offset, len as nat, value),
{
    assert((cfg_offset & 0x3u16) <= 3u16) by (bit_vector);
    let shift = (cfg_offset & 0x3) * 8;
    match len {
        4 => value,
        2 => value >> shift & 0xFFFF,
        _ => value >> shift & 0xFF,
    }
}

/// Returns `old_value` with its `len` bytes at `cfg_offset` replaced by
/// `new_value`.
pub fn combine_old_new_values(cfg_offset: u16, old_value: u32, new_value: u32, len: usize) -> (r:
    u32)
    requires
        len <= 3,
    ensures
        r == merged_write(cfg_offset, old_value, new_value, len as nat),
{
    assert((cfg_offset & 0x3u16) <= 3u16) by (bit_vector);
    let shift = (cfg_offset & 0x3) * 8;
    let bits = (len * 8) as u32;
    assert(1u32 << bits >= 1 && (1u32 << bits) - 1 == low_mask(len as nat)) by {
        if len == 0 {
            assert(bits == 0);
            assert(1u32 << 0u32 == 1u32) by (bit_vector);
        } else if len == 1 {
            assert(bits == 8);
            assert(1u32 << 8u32 == 0x100u32) by (bit_vector);
        } else if len == 2 {
            assert(bits == 16);
            assert(1u32 << 16u32 == 0x1_0000u32) by (bit_vector);
        } else {
            assert(bits == 24);
            assert(1u32 << 24u32 == 0x100_0000u32) by (bit_vector);
        }
    }
    let mask: u32 = (1u32 << bits) - 1;
    (old_value & !(mask << shift)) | (new_value << shift)
}

/// Returns the error that an access of `len` bytes at `addr` is refused
/// with, if any.
pub fn check_access(addr: u64, len: usize) -> (r: Option<IoError>)
    ensures
        r == access_error(addr, len as nat),
{
    if !(len == 1 || len == 2 || len == 4) {
        return Some(IoError::InvalidAccessSize);
    }
    if !((len == 4 && addr & 3 == 0) || (len == 2 && addr & 1 == 0) || len == 1) {
        return Some(IoError::UnalignedAccess);
    }
    None
}

impl GenericPcieRootComplex {
    /// Constructs a new `GenericPcieRootComplex` emulator for the buses
    /// `start_bus..=end_bus` of `segment`, whose ECAM window starts at
    /// `ecam_base` and spans one megabyte per bus. Whoever routes MMIO to the
    /// device maps that window and hands it the accesses that fall in it.
    pub fn new(
        segment: u16,
        start_bus: u8,
        end_bus: u8,
        ecam_base: u64,
        ports: HashMap<u8, GenericPcieRootPort>,
    ) -> (rc: Self)
        requires
            start_bus <= end_bus,
        ensures
            rc@.wf(),
            rc@.segment == segment,
            rc@.start_bus == start_bus,
            rc@.end_bus == end_bus,
            rc@.ecam_base == ecam_base,
            rc@.ecam_size == (end_bus - start_bus + 1) * ECAM_BYTES_PER_BUS,
            rc@.ports == ports@.map_values(|p: GenericPcieRootPort| p@),
    {
        let bus_count = (end_bus as u16) - (start_bus as u16) + 1;
        let ecam_size = (bus_count as u64) * 256 * 4096;
        let endianness = native_endianness();
        GenericPcieRootComplex { segment, start_bus, end_bus, ecam_base, ecam_size, ports, endianness }
    }

    /// The lowest valid bus number under the root complex: its root bus.
    pub fn start_bus(&self) -> (b: u8)
        ensures
            b == self@.start_bus,
    {
        self.start_bus
    }

    /// The highest valid bus number under the root complex.
    pub fn end_bus(&self) -> (b: u8)
        ensures
            b == self@.end_bus,
    {
        self.end_bus
    }

    /// The offset of `addr` into the ECAM window, if it lies in the window.
    pub fn ecam_offset_of(&self, addr: u64) -> (r: Option<u64>)
        ensures
            r == if self@.in_ecam(addr) {
                Some((addr - self@.ecam_base) as u64)
            } else {
                None::<u64>
            },
    {
        if addr >= self.ecam_base && addr - self.ecam_base < self.ecam_size {
            Some(addr - self.ecam_base)
        } else {
            None
        }
    }

    /// The bus, combined device/function number and configuration-space
    /// offset that `addr` names.
    pub fn decode_ecam_access(&self, addr: u64) -> (r: (u8, u8, u16))
        requires
            self@.in_ecam(addr),
        ensures
            r == self@.target(addr),
    {
        let ecam_offset = self.ecam_offset_of(addr).unwrap();
        let cfg_offset = (ecam_offset % 4096) as u16;
        let bdf = (ecam_offset / 4096) & 0xFFFF;
        assert(ecam_offset % 4096 == ecam_offset & 0xfff && (bdf & 0xFF00) >> 8u64 == (ecam_offset
            >> 20u64) & 0xff && bdf & 0xFF == (ecam_offset >> 12u64) & 0xff) by (bit_vector)
            requires
                bdf == (ecam_offset / 4096) & 0xFFFF,
        ;
        let bus = ((bdf & 0xFF00) >> 8) as u8;
        let device_function = (bdf & 0xFF) as u8;
        (bus, device_function, cfg_offset)
    }

    /// Serves a read of `data.len()` bytes at `addr` in the ECAM window.
    pub fn mmio_read(&mut self, addr: u64, data: &mut [u8]) -> (r: IoResult)
        requires
            access_error(addr, old(data)@.len()) is None ==> old(self)@.in_ecam(addr),
        ensures
            *final(self) == *old(self),
            match access_error(addr, old(data)@.len()) {
                Some(e) => r == IoResult::Failure(e) && final(data)@ == old(data)@,
                None => r == IoResult::Success && final(data)@ == old(self)@.read_bytes(
                    addr,
                    old(data)@.len(),
                ),
            },
    {
        let len = data.len();
        if let Some(e) = check_access(addr, len) {
            return IoResult::Failure(e);
        }
        let (bus, device_function, cfg_offset) = self.decode_ecam_access(addr);

        let mut value: u32 = !0;
        assert(!0u32 == 0xffff_ffffu32) by (bit_vector);
        assert(cfg_offset & !3u16 == cfg_offset & 0xfffcu16) by (bit_vector);
        if bus == self.start_bus {
            // Access on the internal "root bus" of the root complex.
            if let Some(port) = self.ports.get(&device_function) {
                let _ = port.pci_cfg_read(cfg_offset & !3, &mut value);
            }
        }
        // Accesses to the other buses of the root complex are not forwarded
        // down the ports, and read as all ones.

        let value = shift_read_value(cfg_offset, len, value);
        let bytes = u32_to_byte_array(value, self.endianness);
        let mut i: usize = 0;
        while i < len
            invariant
                len == data@.len(),
                len <= 4,
                bytes@.len() == 4,
                i <= len,
                data@.subrange(0, i as int) == bytes@.subrange(0, i as int),
            decreases len - i,
        {
            data[i] = bytes[i];
            i += 1;
            assert(data@.subrange(0, i as int) =~= bytes@.subrange(0, i as int));
        }
        assert(data@ =~= bytes@.take(len as int));
        IoResult::Success
    }

    /// Serves a write of the bytes of `data` at `addr` in the ECAM window.
    pub fn mmio_write(&mut self, addr: u64, data: &[u8]) -> (r: IoResult)
        requires
            access_error(addr, data@.len()) is None ==> old(self)@.in_ecam(addr),
        ensures
            match access_error(addr, data@.len()) {
                Some(e) => r == IoResult::Failure(e) && *final(self) == *old(self),
                None => r == IoResult::Success && final(self)@ == old(self)@.after_write(
                    addr,
                    data@,
                ),
            },
            final(self)@.wf() == old(self)@.wf(),
    {
        let len = data.len();
        if let Some(e) = check_access(addr, len) {
            return IoResult::Failure(e);
        }
        let (bus, device_function, cfg_offset) = self.decode_ecam_access(addr);

        let write_value = {
            let mut temp: [u8; 4] = [0u8, 0u8, 0u8, 0u8];
            let mut i: usize = 0;
            while i < len
                invariant
                    len == data@.len(),
                    len <= 4,
                    i <= len,
                    temp@ == data@.subrange(0, i as int) + Seq::new(
                        (4 - i) as nat,
                        |j: int| 0u8,
                    ),
                decreases len - i,
            {
                temp[i] = data[i];
                i += 1;
                assert(temp@ =~= data@.subrange(0, i as int) + Seq::new(
                    (4 - i) as nat,
                    |j: int| 0u8,
                ));
            }
            assert(temp@ =~= zero_extended(data@));
            u32_from_byte_array(temp, self.endianness)
        };

        assert(cfg_offset & !3u16 == cfg_offset & 0xfffcu16) by (bit_vector);
        if bus == self.start_bus {
            // Access on the internal "root bus" of the root complex.
            let found = match self.ports.get(&device_function) {
                Some(port) => Some(*port),
                None => None,
            };
            if let Some(port) = found {
                let mut port = port;
                let rounded_offset = cfg_offset & !3;
                let merged_value = if len == 4 {
                    write_value
                } else {
                    let mut temp: u32 = 0;
                    let _ = port.pci_cfg_read(rounded_offset, &mut temp);
                    combine_old_new_values(cfg_offset, temp, write_value, len)
                };
                let _ = port.pci_cfg_write(rounded_offset, merged_value);
                let ghost old_ports = self.ports@;
                self.ports.insert(device_function, port);
                assert(self.ports@.map_values(|p: GenericPcieRootPort| p@) =~= old_ports.map_values(
                    |p: GenericPcieRootPort| p@,
                ).insert(device_function, port@));
            }
        }
        // Writes to the other buses of the root complex are not forwarded
        // down the ports, and are dropped.

        IoResult::Success
    }
}

/// The saved state of a root complex. Saving is not supported, so it holds
/// nothing.
pub struct SaveState {}

/// Why a device's state could not be saved.
#[derive(Clone, Copy, Debug, PartialEq, Eq, Structural)]
pub enum SaveError {
    /// The device does not support saving its state.
    NotSupported,
}

/// Why a device's state could not be restored.
#[derive(Debug)]
pub enum RestoreError {
    /// The saved state cannot be restored; the message says why.
    InvalidSavedState(String),
}

impl GenericPcieRootComplex {
    /// Starts the device. The emulator has nothing to start.
    pub fn start(&mut self)
        ensures
            *final(self) == *old(self),
    {
    }

    /// Stops the device. The emulator has nothing to stop.
    pub fn stop(&mut self)
        ensures
            *final(self) == *old(self),
    {
    }

    /// Resets the device. The emulator keeps its ports' registers as they are.
    pub fn reset(&mut self)
        ensures
            *final(self) == *old(self),
    {
    }

    /// Saving the state of the root complex is not supported.
    pub fn save(&mut self) -> (r: Result<SaveState, SaveError>)
        ensures
            *final(self) == *old(self),
            r == Err::<SaveState, SaveError>(SaveError::NotSupported),
    {
        Err(SaveError::NotSupported)
    }

    /// Restoring the state of the root complex is not supported.
    pub fn restore(&mut self, _state: SaveState) -> (r: Result<(), RestoreError>)
        ensures
            *final(self) == *old(self),
            r matches Err(RestoreError::InvalidSavedState(message)) && message@ == "not supported"@,
    {
        Err(RestoreError::InvalidSavedState("not supported".to_owned()))
    }
}

/// `byte_shift` is the bit position of one of the four bytes of a dword.
proof fn lemma_byte_shift(cfg_offset: u16)
    ensures
        byte_shift(cfg_offset) as u32 == 8 * (cfg_offset & 3u16),
        cfg_offset & 3u16 <= 3,
{
    assert(cfg_offset & 3u16 <= 3u16) by (bit_vector);
}

/// Replacing the window of `len` bytes at bit `shift` of `old_value` by
/// `value` puts `value` in the window and keeps every bit outside it.
proof fn lemma_window(old_value: u32, value: u32, shift: u32, len: nat)
    requires
        len == 1 || len == 2,
        shift == 0 || shift == 8 || shift == 16 || shift == 24,
        shift + 8 * len <= 32,
        value <= low_mask(len),
    ensures
        ((((old_value & !(low_mask(len) << shift)) | (value << shift)) >> shift) & low_mask(len))
            == value,
        ((old_value & !(low_mask(len) << shift)) | (value << shift)) & !(low_mask(len) << shift)
            == old_value & !(low_mask(len) << shift),
{
    if len == 1 {
        assert(((((old_value & !(0xffu32 << shift)) | (value << shift)) >> shift) & 0xffu32)
            == value && ((old_value & !(0xffu32 << shift)) | (value << shift)) & !(0xffu32
            << shift) == old_value & !(0xffu32 << shift)) by (bit_vector)
            requires
                shift <= 24u32,
                value <= 0xffu32,
        ;
    } else {
        assert(((((old_value & !(0xffffu32 << shift)) | (value << shift)) >> shift) & 0xffffu32)
            == value && ((old_value & !(0xffffu32 << shift)) | (value << shift)) & !(0xffffu32
            << shift) == old_value & !(0xffffu32 << shift)) by (bit_vector)
            requires
                shift <= 16u32,
                value <= 0xffffu32,
        ;
    }
}

/// A 1 or 2 byte access, zero-extended and read little-endian, gives a value
/// that fits in the access and whose bytes are the access's bytes.
proof fn lemma_small_little_endian(data: Seq<u8>)
    requires
        data.len() == 1 || data.len() == 2,
    ensures
        u32_from_bytes(zero_extended(data), Endianness::Little) <= low_mask(data.len()),
        u32_to_bytes(u32_from_bytes(zero_extended(data), Endianness::Little), Endianness::Little).take(
            data.len() as int,
        ) == data,
{
    let z = zero_extended(data);
    assert(z.len() == 4);
    lemma_u32_value_roundtrip(z, Endianness::Little);
    assert(z.take(data.len() as int) =~= data);
    let (b0, b1) = (z[0], z[1]);
    assert(z[2] == 0 && z[3] == 0);
    if data.len() == 1 {
        assert(z[1] == 0);
        assert((b0 as u32) | ((0u8 as u32) << 8u32) | ((0u8 as u32) << 16u32) | ((0u8 as u32)
            << 24u32) <= 0xffu32) by (bit_vector);
    } else {
        assert((b0 as u32) | ((b1 as u32) << 8u32) | ((0u8 as u32) << 16u32) | ((0u8 as u32)
            << 24u32) <= 0xffffu32) by (bit_vector);
    }
}

/// Merging `value` into the window of `len` bytes at `cfg_offset` of a dword
/// and then reading that window gives `value` back, and every bit outside
/// the window keeps its old value; this holds whenever the window lies within
/// the dword and `value` fits in it.
pub proof fn law_merge_then_read(cfg_offset: u16, old_value: u32, value: u32, len: nat)
    requires
        len == 1 || len == 2,
        (cfg_offset & 3u16) + len <= 4,
        value <= low_mask(len),
    ensures
        shifted_read(cfg_offset, len, merged_write(cfg_offset, old_value, value, len)) == value,
        merged_write(cfg_offset, old_value, value, len) & !(low_mask(len) << byte_shift(cfg_offset))
            == old_value & !(low_mask(len) << byte_shift(cfg_offset)),
{
    lemma_byte_shift(cfg_offset);
    lemma_window(old_value, value, byte_shift(cfg_offset) as u32, len);
}

/// What a read gives back of a write: once `data` is written to a register of
/// a root port (other than the command register), a read of the same bytes
/// returns `data`. This holds for every 4 byte access, and for 1 and 2 byte
/// accesses on a little-endian machine whose bytes lie within one dword.
pub proof fn law_read_after_write(s: RootComplexState, addr: u64, data: Seq<u8>)
    requires
        access_error(addr, data.len()) is None,
        s.routes_to_port(addr),
        RootPortState::is_writable(s.target(addr).2 & 0xfffc),
        s.target(addr).2 & 0xfffc != 0x04,
        data.len() == 4 || (s.endianness == Endianness::Little && (s.target(addr).2 & 3u16)
            + data.len() <= 4),
    ensures
        s.after_write(addr, data).read_bytes(addr, data.len()) == data,
{
    let (bus, device_function, cfg_offset) = s.target(addr);
    let rounded = cfg_offset & 0xfffc;
    let port = s.ports[device_function];
    let e = s.endianness;
    let write_value = u32_from_bytes(zero_extended(data), e);
    let t = s.after_write(addr, data);
    assert(t.target(addr) == s.target(addr));
    assert(t.routes_to_port(addr));
    if data.len() == 4 {
        assert(zero_extended(data) =~= data);
        law_cfg_read_after_write(port, rounded, write_value);
        assert(t.config_dword(addr) == write_value);
        lemma_u32_value_roundtrip(data, e);
        assert(u32_to_bytes(write_value, e).take(4) =~= data);
    } else {
        let old_value = port.cfg_read(rounded);
        let merged = merged_write(cfg_offset, old_value, write_value, data.len());
        law_cfg_read_after_write(port, rounded, merged);
        assert(t.config_dword(addr) == merged);
        lemma_small_little_endian(data);
        lemma_byte_shift(cfg_offset);
        let shift = byte_shift(cfg_offset) as u32;
        lemma_window(old_value, write_value, shift, data.len());
        assert(shifted_read(cfg_offset, data.len(), merged) == write_value);
    }
}

/// The command register reports the capability-list status bit on top of
/// what was last written to it with a 4 byte access.
pub proof fn law_command_register_read_after_write(s: RootComplexState, addr: u64, data: Seq<u8>)
    requires
        access_error(addr, data.len()) is None,
        data.len() == 4,
        s.routes_to_port(addr),
        s.target(addr).2 & 0xfffc == 0x04,
    ensures
        s.after_write(addr, data).read_bytes(addr, 4) == u32_to_bytes(
            u32_from_bytes(data, s.endianness) | CAPABILITIES_LIST_STATUS,
            s.endianness,
        ),
{
    let (bus, device_function, cfg_offset) = s.target(addr);
    let t = s.after_write(addr, data);
    assert(zero_extended(data) =~= data);
    assert(t.target(addr) == s.target(addr));
    law_cfg_read_after_write(s.ports[device_function], 0x04, u32_from_bytes(data, s.endianness));
    let v = u32_from_bytes(data, s.endianness) | CAPABILITIES_LIST_STATUS;
    assert(u32_to_bytes(v, s.endianness).take(4) =~= u32_to_bytes(v, s.endianness));
}

/// A partial write keeps the bytes of the dword that lie outside it: after
/// a 1 or 2 byte write within one dword on a little-endian machine, the
/// configuration dword that holds it reads as before outside the written
/// bytes, whatever the register (the command/status dword included) and
/// whether or not the write reaches a port.
pub proof fn law_partial_write_keeps_other_bytes(s: RootComplexState, addr: u64, data: Seq<u8>)
    requires
        data.len() == 1 || data.len() == 2,
        s.endianness == Endianness::Little,
        (s.target(addr).2 & 3u16) + data.len() <= 4,
    ensures
        s.after_write(addr, data).config_dword(addr) & !(low_mask(data.len()) << byte_shift(
            s.target(addr).2,
        )) == s.config_dword(addr) & !(low_mask(data.len()) << byte_shift(s.target(addr).2)),
{
    let (bus, device_function, cfg_offset) = s.target(addr);
    let t = s.after_write(addr, data);
    assert(t.target(addr) == s.target(addr));
    if !s.routes_to_port(addr) {
        return;
    }
    let rounded = cfg_offset & 0xfffc;
    let port = s.ports[device_function];
    let write_value = u32_from_bytes(zero_extended(data), Endianness::Little);
    let old_value = port.cfg_read(rounded);
    let merged = merged_write(cfg_offset, old_value, write_value, data.len());
    lemma_small_little_endian(data);
    lemma_byte_shift(cfg_offset);
    let shift = byte_shift(cfg_offset) as u32;
    lemma_window(old_value, write_value, shift, data.len());
    let w = !(low_mask(data.len()) << byte_shift(cfg_offset));
    assert(w == !(low_mask(data.len()) << shift));
    if !RootPortState::is_writable(rounded) {
        law_cfg_write_elsewhere_ignored(port, rounded, merged);
        assert(t.ports[device_function] == port);
    } else if rounded != 0x04 {
        law_cfg_read_after_write(port, rounded, merged);
    } else {
        law_cfg_read_after_write(port, rounded, merged);
        assert(t.config_dword(addr) == merged | CAPABILITIES_LIST_STATUS);
        assert(old_value == port.command_status | CAPABILITIES_LIST_STATUS);
        assert(merged & w == old_value & w);
        let command = port.command_status;
        assert(old_value | CAPABILITIES_LIST_STATUS == old_value) by (bit_vector)
            requires
                old_value == command | CAPABILITIES_LIST_STATUS,
        ;
        assert((merged | CAPABILITIES_LIST_STATUS) & w == old_value & w) by (bit_vector)
            requires
                merged & w == old_value & w,
                old_value | CAPABILITIES_LIST_STATUS == old_value,
        ;
    }
}

/// A 1 or 2 byte read within one dword on a little-endian machine returns
/// the matching bytes of the 4 byte read of that dword, for every register
/// and whether or not the read reaches a port.
pub proof fn law_partial_read_matches_dword_read(s: RootComplexState, addr: u64, len: nat)
    requires
        len == 1 || len == 2,
        s.endianness == Endianness::Little,
        s.in_ecam(addr),
        (s.target(addr).2 & 3u16) + len <= 4,
    ensures
        ({
            let k = (s.target(addr).2 & 3u16) as int;
            s.read_bytes(addr, len) == s.read_bytes((addr - k) as u64, 4).subrange(k, k + len)
        }),
{
    let (bus, device_function, cfg_offset) = s.target(addr);
    let k16 = cfg_offset & 3u16;
    let k = k16 as int;
    let o = (addr - s.ecam_base) as u64;
    assert(cfg_offset == (o & 0xfff) as u16);
    let o4 = o & !3u64;
    assert(k16 == (o & 3) as u16 && (o & 3) < 4 && o4 + (o & 3) == o && (o4 >> 20u64) & 0xff == (o >> 20u64)
        & 0xff && (o4 >> 12u64) & 0xff == (o >> 12u64) & 0xff && (o4 & 0xfff) as u16 & 0xfffc == (o
        & 0xfff) as u16 & 0xfffc) by (bit_vector)
        requires
            k16 == ((o & 0xfff) as u16) & 3u16,
            o4 == o & !3u64,
    ;
    let addr4 = (addr - k) as u64;
    assert(addr4 - s.ecam_base == o4);
    let (bus4, df4, off4) = s.target(addr4);
    assert(bus4 == bus && df4 == device_function && off4 & 0xfffc == cfg_offset & 0xfffc);
    assert(s.config_dword(addr4) == s.config_dword(addr));
    let v = s.config_dword(addr);
    lemma_byte_shift(cfg_offset);
    let shift = byte_shift(cfg_offset) as u32;
    let r = shifted_read(cfg_offset, len, v);
    let full = u32_to_bytes(v, Endianness::Little);
    let part = u32_to_bytes(r, Endianness::Little);
    if len == 1 {
        assert(r == (v >> shift) & 0xff);
        assert(((r & 0xff) as u8) == if shift == 0 {
            (v & 0xff) as u8
        } else if shift == 8 {
            ((v >> 8u32) & 0xff) as u8
        } else if shift == 16 {
            ((v >> 16u32) & 0xff) as u8
        } else {
            ((v >> 24u32) & 0xff) as u8
        }) by (bit_vector)
            requires
                r == (v >> shift) & 0xff,
                shift == 0 || shift == 8 || shift == 16 || shift == 24,
        ;
    } else {
        assert(r == (v >> shift) & 0xffff);
        assert(((r & 0xff) as u8) == if shift == 0 {
            (v & 0xff) as u8
        } else if shift == 8 {
            ((v >> 8u32) & 0xff) as u8
        } else {
            ((v >> 16u32) & 0xff) as u8
        } && ((r >> 8u32) & 0xff) as u8 == if shift == 0 {
            ((v >> 8u32) & 0xff) as u8
        } else if shift == 8 {
            ((v >> 16u32) & 0xff) as u8
        } else {
            ((v >> 24u32) & 0xff) as u8
        }) by (bit_vector)
            requires
                r == (v >> shift) & 0xffff,
                shift == 0 || shift == 8 || shift == 16,
        ;
    }
    assert(s.read_bytes(addr4, 4) =~= full);
    assert(s.read_bytes(addr, len) =~= full.subrange(k, k + len));
}

/// A read that reaches no root port sees every bit set. This holds for every
/// 4 byte read, and for 1 and 2 byte reads on a little-endian machine whose
/// bytes lie within one dword.
pub proof fn law_unrouted_read_all_ones(s: RootComplexState, addr: u64, len: nat)
    requires
        access_error(addr, len) is None,
        !s.routes_to_port(addr),
        len == 4 || (s.endianness == Endianness::Little && (s.target(addr).2 & 3u16) + len <= 4),
    ensures
        s.read_bytes(addr, len) == Seq::new(len, |i: int| 0xffu8),
{
    let cfg_offset = s.target(addr).2;
    lemma_byte_shift(cfg_offset);
    let shift = byte_shift(cfg_offset) as u32;
    assert(s.config_dword(addr) == 0xffff_ffffu32);
    if len == 2 {
        assert((0xffff_ffffu32 >> shift) & 0xffffu32 == 0xffffu32) by (bit_vector)
            requires
                shift <= 16u32,
        ;
    } else if len == 1 {
        assert((0xffff_ffffu32 >> shift) & 0xffu32 == 0xffu32) by (bit_vector)
            requires
                shift <= 24u32,
        ;
    }
    let v = shifted_read(cfg_offset, len, 0xffff_ffffu32);
    assert(((v & 0xff) as u8) == 0xffu8 && ((v >> 8u32) & 0xff) as u8 == if len >= 2 {
        0xffu8
    } else {
        0u8
    }) by {
        if len == 1 {
            assert(v == 0xffu32);
            assert((0xffu32 & 0xff) as u8 == 0xffu8 && ((0xffu32 >> 8u32) & 0xff) as u8 == 0u8)
                by (bit_vector);
        } else if len == 2 {
            assert(v == 0xffffu32);
            assert((0xffffu32 & 0xff) as u8 == 0xffu8 && ((0xffffu32 >> 8u32) & 0xff) as u8
                == 0xffu8) by (bit_vector);
        } else {
            assert(v == 0xffff_ffffu32);
            assert((0xffff_ffffu32 & 0xff) as u8 == 0xffu8 && ((0xffff_ffffu32 >> 8u32) & 0xff)
                as u8 == 0xffu8) by (bit_vector);
        }
    }
    if len == 4 {
        assert(((0xffff_ffffu32 >> 16u32) & 0xff) as u8 == 0xffu8 && ((0xffff_ffffu32 >> 24u32)
            & 0xff) as u8 == 0xffu8) by (bit_vector);
    }
    assert(s.read_bytes(addr, len) =~= Seq::new(len, |i: int| 0xffu8));
}

/// A write that reaches no root port is dropped.
pub proof fn law_unrouted_write_dropped(s: RootComplexState, addr: u64, data: Seq<u8>)
    requires
        !s.routes_to_port(addr),
    ensures
        s.after_write(addr, data) == s,
{
}

/// The ECAM window of a well-formed root complex names, at
/// `ecam_base + bus * 1 MiB + device_function * 4 KiB + offset`, the
/// configuration offset `offset` of function `device_function` on the
/// `bus`th bus of the window.
pub proof fn law_ecam_decoding(s: RootComplexState, bus: u8, device_function: u8, offset: u16, addr: u64)
    requires
        s.wf(),
        bus <= s.end_bus - s.start_bus,
        offset < 4096,
        addr == s.ecam_base + bus * ECAM_BYTES_PER_BUS + device_function * 0x1000 + offset,
    ensures
        s.in_ecam(addr),
        s.target(addr) == (bus, device_function, offset),
{
    let o = (addr - s.ecam_base) as u64;
    let b = bus as u64;
    let d = device_function as u64;
    let c = offset as u64;
    assert(o == b * 0x10_0000 + d * 0x1000 + c);
    assert(((o >> 20u64) & 0xff) == b && ((o >> 12u64) & 0xff) == d && (o & 0xfff) == c)
        by (bit_vector)
        requires
            o == b * 0x10_0000 + d * 0x1000 + c,
            b <= 0xff,
            d <= 0xff,
            c < 0x1000,
    ;
}

/// Writes never add or remove ports, never touch a port other than the one
/// they address, and never move the ECAM window or the bus range.
pub proof fn law_write_keeps_layout(s: RootComplexState, addr: u64, data: Seq<u8>, other: u8)
    requires
        other != s.target(addr).1,
    ensures
        s.after_write(addr, data).wf() == s.wf(),
        s.after_write(addr, data).ports.dom() == s.ports.dom(),
        s.ports.contains_key(other) ==> s.after_write(addr, data).ports[other] == s.ports[other],
        s.after_write(addr, data).segment == s.segment,
        s.after_write(addr, data).start_bus == s.start_bus,
        s.after_write(addr, data).end_bus == s.end_bus,
        s.after_write(addr, data).ecam_base == s.ecam_base,
        s.after_write(addr, data).ecam_size == s.ecam_size,
        s.after_write(addr, data).endianness == s.endianness,
{
    if s.routes_to_port(addr) {
        let device_function = s.target(addr).1;
        assert(s.after_write(addr, data).ports.dom() =~= s.ports.dom());
    }
}

} // verus!
