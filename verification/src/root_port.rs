//! A minimal PCI Express root port: the type 1 configuration space that
//! Linux and Windows need to enumerate the port.

use vstd::prelude::*;

verus! {

/// Errors that a device access can report.
#[derive(Clone, Copy, Debug, PartialEq, Eq, Structural)]
pub enum IoError {
    /// The access is not 1, 2 or 4 bytes wide.
    InvalidAccessSize,
    /// The address is not aligned to the width of the access.
    UnalignedAccess,
}

/// The outcome of a device access.
#[derive(Clone, Copy, Debug, PartialEq, Eq, Structural)]
pub enum IoResult {
    /// The access completed.
    Success,
    /// The access was refused.
    Failure(IoError),
}

/// The emulated registers of a root port, as the contracts speak of them.
pub struct RootPortState {
    pub command_status: u32,
    pub bus_numbers: u32,
    pub memory_limit: u32,
    pub prefetch_limit: u32,
    pub prefetch_base_upper: u32,
    pub prefetch_limit_upper: u32,
}

/// Status bit that reports a capability list (bit 4 of the status register).
pub const CAPABILITIES_LIST_STATUS: u32 = 0x0010_0000;

/// Value of every configuration-space dword the port does not implement.
pub const UNIMPLEMENTED_REGISTER: u32 = 0xFFFF;

impl RootPortState {
    /// The dword read from configuration space at `offset`.
    pub open spec fn cfg_read(self, offset: u16) -> u32 {
        if offset == 0x00 {
            0xF111_1414
        } else if offset == 0x04 {
            self.command_status | CAPABILITIES_LIST_STATUS
        } else if offset == 0x08 {
            0x0604_0000
        } else if offset == 0x0C {
            0x0001_0000
        } else if offset == 0x18 {
            self.bus_numbers
        } else if offset == 0x20 {
            self.memory_limit
        } else if offset == 0x24 {
            self.prefetch_limit
        } else if offset == 0x28 {
            self.prefetch_base_upper
        } else if offset == 0x2C {
            self.prefetch_limit_upper
        } else if offset == 0x34 {
            0x0000_0040
        } else if offset == 0x40 {
            0x0142_0010
        } else if offset == 0x50 {
            0x0011_0000
        } else if offset == 0x10 || offset == 0x14 || offset == 0x1C || offset == 0x30 || offset
            == 0x38 || offset == 0x3C || (0x44 <= offset <= 0x78 && offset % 4 == 0) {
            0
        } else {
            UNIMPLEMENTED_REGISTER
        }
    }

    /// True when `offset` names a register that configuration writes change.
    pub open spec fn is_writable(offset: u16) -> bool {
        offset == 0x04 || offset == 0x18 || offset == 0x20 || offset == 0x24 || offset == 0x28
            || offset == 0x2C
    }

    /// The registers after `value` is written to configuration space at
    /// `offset`; writes elsewhere change nothing.
    pub open spec fn cfg_write(self, offset: u16, value: u32) -> RootPortState {
        if offset == 0x04 {
            RootPortState { command_status: value, ..self }
        } else if offset == 0x18 {
            RootPortState { bus_numbers: value, ..self }
        } else if offset == 0x20 {
            RootPortState { memory_limit: value, ..self }
        } else if offset == 0x24 {
            RootPortState { prefetch_limit: value, ..self }
        } else if offset == 0x28 {
            RootPortState { prefetch_base_upper: value, ..self }
        } else if offset == 0x2C {
            RootPortState { prefetch_limit_upper: value, ..self }
        } else {
            self
        }
    }
}

/// A generic PCI Express root port emulator, to be used
/// in conjunction with the generic root complex.
#[derive(Clone, Copy, Debug)]
pub struct GenericPcieRootPort {
    command_status_register: u32,
    bus_number_registers: u32,
    memory_limit_registers: u32,
    prefetch_limit_registers: u32,
    prefetch_base_upper_register: u32,
    prefetch_limit_upper_register: u32,
}

impl View for GenericPcieRootPort {
    type V = RootPortState;

    closed spec fn view(&self) -> RootPortState {
        RootPortState {
            command_status: self.command_status_register,
            bus_numbers: self.bus_number_registers,
            memory_limit: self.memory_limit_registers,
            prefetch_limit: self.prefetch_limit_registers,
            prefetch_base_upper: self.prefetch_base_upper_register,
            prefetch_limit_upper: self.prefetch_limit_upper_register,
        }
    }
}

impl GenericPcieRootPort {
    /// Constructs a new `GenericPcieRootPort` emulator.
    pub fn new() -> (port: Self)
        ensures
            port@ == (RootPortState {
                command_status: 0,
                bus_numbers: 0,
                memory_limit: 0,
                prefetch_limit: 0,
                prefetch_base_upper: 0,
                prefetch_limit_upper: 0,
            }),
            port@.cfg_read(0x04) == 0x0010_0000,
            port@.cfg_read(0x18) == 0,
            port@.cfg_read(0x20) == 0,
            port@.cfg_read(0x24) == 0,
            port@.cfg_read(0x28) == 0,
            port@.cfg_read(0x2C) == 0,
    {
        assert(0u32 | 0x0010_0000u32 == 0x0010_0000u32) by (bit_vector);
        GenericPcieRootPort {
            command_status_register: 0,
            bus_number_registers: 0,
            memory_limit_registers: 0,
            prefetch_limit_registers: 0,
            prefetch_base_upper_register: 0,
            prefetch_limit_upper_register: 0,
        }
    }

    /// Reads the configuration-space dword at `offset` into `value`.
    pub fn pci_cfg_read(&self, offset: u16, value: &mut u32) -> (r: IoResult)
        ensures
            *final(value) == self@.cfg_read(offset),
            r == IoResult::Success,
    {
        *value = match offset {
            0x00 => 0xF111_1414,  // Device and Vendor IDs
            0x04 => self.command_status_register | CAPABILITIES_LIST_STATUS,
            0x08 => 0x0604_0000,  // Class code and revision
            0x0C => 0x0001_0000,  // Header type 1
            0x10 => 0x0000_0000,  // BAR0
            0x14 => 0x0000_0000,  // BAR1
            0x18 => self.bus_number_registers,
            0x1C => 0x0000_0000,  // Secondary status and I/O range
            0x20 => self.memory_limit_registers,
            0x24 => self.prefetch_limit_registers,
            0x28 => self.prefetch_base_upper_register,
            0x2C => self.prefetch_limit_upper_register,
            0x30 => 0x0000_0000,  // I/O base and limit 16 bit
            0x34 => 0x0000_0040,  // Reserved and Capability pointer
            0x38 => 0x0000_0000,  // Expansion ROM
            0x3C => 0x0000_0000,  // Bridge control, interrupt pin/line
            // PCI Express capability structure
            0x40 => 0x0142_0010,  // Capability header and PCI Express capabilities register
            0x44 => 0x0000_0000,  // Device capabilities register
            0x48 => 0x0000_0000,  // Device control and status registers
            0x4C => 0x0000_0000,  // Link capabilities register
            0x50 => 0x0011_0000,  // Link control and status registers
            0x54 => 0x0000_0000,  // Slot capabilities register
            0x58 => 0x0000_0000,  // Slot status and control registers
            0x5C => 0x0000_0000,  // Root capabilities and control registers
            0x60 => 0x0000_0000,  // Root status register
            0x64 => 0x0000_0000,  // Device capabilities 2 register
            0x68 => 0x0000_0000,  // Device status 2 and control 2 registers
            0x6C => 0x0000_0000,  // Link capabilities 2 register
            0x70 => 0x0000_0000,  // Link status 2 and control 2 registers
            0x74 => 0x0000_0000,  // Slot capabilities 2 register
            0x78 => 0x0000_0000,  // Slot status 2 and control 2 registers
            _ => UNIMPLEMENTED_REGISTER,
        };
        IoResult::Success
    }

    /// Writes `value` to the configuration-space dword at `offset`.
    pub fn pci_cfg_write(&mut self, offset: u16, value: u32) -> (r: IoResult)
        ensures
            final(self)@ == old(self)@.cfg_write(offset, value),
            r == IoResult::Success,
    {
        match offset {
            0x04 => { self.command_status_register = value },
            0x18 => { self.bus_number_registers = value },
            0x20 => { self.memory_limit_registers = value },
            0x24 => { self.prefetch_limit_registers = value },
            0x28 => { self.prefetch_base_upper_register = value },
            0x2C => { self.prefetch_limit_upper_register = value },
            _ => {},
        };
        IoResult::Success
    }
}

/// Whatever the port's state, it reports its identity and the PCI Express
/// capability with fixed values: vendor 0x1414 and device 0xF111, a PCI-to-PCI
/// bridge (class 06, subclass 04) with a type 1 header, a capability list
/// starting at 0x40 that holds a PCI Express root port capability (version 2),
/// a link at speed 1 and width 1, and nothing else.
pub proof fn law_fixed_registers(port: RootPortState)
    ensures
        port.cfg_read(0x00) == 0xF111_1414,
        port.cfg_read(0x08) == 0x0604_0000,
        port.cfg_read(0x0C) == 0x0001_0000,
        port.cfg_read(0x10) == 0,
        port.cfg_read(0x14) == 0,
        port.cfg_read(0x1C) == 0,
        port.cfg_read(0x30) == 0,
        port.cfg_read(0x34) == 0x0000_0040,
        port.cfg_read(0x38) == 0,
        port.cfg_read(0x3C) == 0,
        port.cfg_read(0x40) == 0x0142_0010,
        port.cfg_read(0x50) == 0x0011_0000,
{
}

/// Every register of the PCI Express capability structure other than its
/// header (0x40) and the link control and status register (0x50) reads 0,
/// whatever the port's state.
pub proof fn law_pcie_capability_registers_read_zero(port: RootPortState, offset: u16)
    requires
        0x44 <= offset <= 0x78,
        offset % 4 == 0,
        offset != 0x50,
    ensures
        port.cfg_read(offset) == 0,
{
}

/// Offsets past the PCI Express capability structure, and offsets that are
/// not dword aligned, read 0xFFFF.
pub proof fn law_unimplemented_registers_read_ffff(port: RootPortState, offset: u16)
    requires
        offset > 0x78 || offset % 4 != 0,
    ensures
        port.cfg_read(offset) == 0xFFFF,
{
}

/// A write to a register of the port is seen by the next read of it; the
/// command register also reports the capability-list status bit.
pub proof fn law_cfg_read_after_write(port: RootPortState, offset: u16, value: u32)
    requires
        RootPortState::is_writable(offset),
    ensures
        port.cfg_write(offset, value).cfg_read(offset) == if offset == 0x04 {
            value | CAPABILITIES_LIST_STATUS
        } else {
            value
        },
{
}

/// A write to any other offset leaves every register as it was.
pub proof fn law_cfg_write_elsewhere_ignored(port: RootPortState, offset: u16, value: u32)
    requires
        !RootPortState::is_writable(offset),
    ensures
        port.cfg_write(offset, value) == port,
{
}

/// A write to one register leaves what every other offset reads unchanged.
pub proof fn law_cfg_write_is_local(port: RootPortState, offset: u16, value: u32, other: u16)
    requires
        other != offset,
    ensures
        port.cfg_write(offset, value).cfg_read(other) == port.cfg_read(other),
{
}

} // verus!
