use pcie::root_complex::check_access;
use pcie::root_complex::combine_old_new_values;
use pcie::root_complex::shift_read_value;
use pcie::root_complex::GenericPcieRootComplex;
use pcie::root_complex::RestoreError;
use pcie::root_complex::SaveError;
use pcie::root_complex::SaveState;
use pcie::root_port::GenericPcieRootPort;
use pcie::root_port::IoError;
use pcie::root_port::IoResult;
use std::collections::HashMap;

const ECAM_BASE: u64 = 0xE000_0000;

fn ecam_addr(bus: u64, device_function: u64, offset: u64) -> u64 {
    ECAM_BASE + (bus << 20) + (device_function << 12) + offset
}

fn root_complex(start_bus: u8, end_bus: u8) -> GenericPcieRootComplex {
    let mut ports = HashMap::new();
    ports.insert(0u8, GenericPcieRootPort::new());
    ports.insert(8u8, GenericPcieRootPort::new());
    GenericPcieRootComplex::new(0, start_bus, end_bus, ECAM_BASE, ports)
}

fn read(rc: &mut GenericPcieRootComplex, addr: u64, len: usize) -> (IoResult, Vec<u8>) {
    let mut data = vec![0xAAu8; len];
    let r = rc.mmio_read(addr, &mut data);
    (r, data)
}

#[test]
fn no_op() {
    assert_eq!(1, 1);
}

#[test]
fn port_reads_identity_and_capability_registers() {
    let port = GenericPcieRootPort::new();
    let mut v = 0u32;
    assert_eq!(port.pci_cfg_read(0x00, &mut v), IoResult::Success);
    assert_eq!(v, 0xF111_1414);
    port.pci_cfg_read(0x04, &mut v);
    assert_eq!(v, 0x0010_0000);
    port.pci_cfg_read(0x08, &mut v);
    assert_eq!(v, 0x0604_0000);
    port.pci_cfg_read(0x0C, &mut v);
    assert_eq!(v, 0x0001_0000);
    port.pci_cfg_read(0x34, &mut v);
    assert_eq!(v, 0x40);
    port.pci_cfg_read(0x40, &mut v);
    assert_eq!(v, 0x0142_0010);
    port.pci_cfg_read(0x50, &mut v);
    assert_eq!(v, 0x0011_0000);
    port.pci_cfg_read(0x78, &mut v);
    assert_eq!(v, 0);
    port.pci_cfg_read(0x7C, &mut v);
    assert_eq!(v, 0xFFFF);
    port.pci_cfg_read(0x100, &mut v);
    assert_eq!(v, 0xFFFF);
}

#[test]
fn port_writable_registers_read_back() {
    let mut port = GenericPcieRootPort::new();
    let mut v = 0u32;
    for (offset, value) in [
        (0x18u16, 0x0001_0100u32),
        (0x20, 0xFFF0_FFF0),
        (0x24, 0x1234_5678),
        (0x28, 0xDEAD_BEEF),
        (0x2C, 0x0BAD_F00D),
    ] {
        assert_eq!(port.pci_cfg_write(offset, value), IoResult::Success);
        port.pci_cfg_read(offset, &mut v);
        assert_eq!(v, value);
    }
    port.pci_cfg_write(0x04, 0x0000_0007);
    port.pci_cfg_read(0x04, &mut v);
    assert_eq!(v, 0x0010_0007);
}

#[test]
fn port_read_only_registers_ignore_writes() {
    let mut port = GenericPcieRootPort::new();
    let mut v = 0u32;
    port.pci_cfg_write(0x00, 0x1234_5678);
    port.pci_cfg_read(0x00, &mut v);
    assert_eq!(v, 0xF111_1414);
    port.pci_cfg_write(0x10, 0xFFFF_FFFF);
    port.pci_cfg_read(0x10, &mut v);
    assert_eq!(v, 0);
    port.pci_cfg_read(0x18, &mut v);
    assert_eq!(v, 0);
}

#[test]
fn shift_read_value_picks_bytes() {
    assert_eq!(shift_read_value(0x0, 4, 0x1122_3344), 0x1122_3344);
    assert_eq!(shift_read_value(0x3, 4, 0x1122_3344), 0x1122_3344);
    assert_eq!(shift_read_value(0x0, 2, 0x1122_3344), 0x3344);
    assert_eq!(shift_read_value(0x2, 2, 0x1122_3344), 0x1122);
    assert_eq!(shift_read_value(0x1, 1, 0x1122_3344), 0x33);
    assert_eq!(shift_read_value(0x7, 1, 0x1122_3344), 0x11);
}

#[test]
fn combine_old_new_values_replaces_window() {
    assert_eq!(combine_old_new_values(0x0, 0x1122_3344, 0xAB, 1), 0x1122_33AB);
    assert_eq!(combine_old_new_values(0x2, 0x1122_3344, 0xAB, 1), 0x11AB_3344);
    assert_eq!(combine_old_new_values(0x3, 0x1122_3344, 0xAB, 1), 0xAB22_3344);
    assert_eq!(combine_old_new_values(0x2, 0x1122_3344, 0xBEEF, 2), 0xBEEF_3344);
    assert_eq!(combine_old_new_values(0x1, 0x1122_3344, 0xABCD, 3), 0x00AB_CD44);
    assert_eq!(combine_old_new_values(0x1, 0x1122_3344, 0xAB, 0), 0x1122_BB44);
}

#[test]
fn ecam_read_of_port_identity() {
    let mut rc = root_complex(0, 0);
    assert_eq!(read(&mut rc, ecam_addr(0, 0, 0), 4), (IoResult::Success, vec![0x14, 0x14, 0x11, 0xF1]));
    assert_eq!(read(&mut rc, ecam_addr(0, 8, 0), 2), (IoResult::Success, vec![0x14, 0x14]));
    assert_eq!(read(&mut rc, ecam_addr(0, 8, 2), 2), (IoResult::Success, vec![0x11, 0xF1]));
    assert_eq!(read(&mut rc, ecam_addr(0, 0, 3), 1), (IoResult::Success, vec![0xF1]));
    assert_eq!(read(&mut rc, ecam_addr(0, 0, 0x0A), 2), (IoResult::Success, vec![0x04, 0x06]));
}

#[test]
fn ecam_read_without_port_is_all_ones() {
    let mut rc = root_complex(0, 1);
    assert_eq!(read(&mut rc, ecam_addr(0, 1, 0), 4), (IoResult::Success, vec![0xFF; 4]));
    assert_eq!(read(&mut rc, ecam_addr(1, 0, 0), 4), (IoResult::Success, vec![0xFF; 4]));
    assert_eq!(read(&mut rc, ecam_addr(1, 0, 2), 2), (IoResult::Success, vec![0xFF; 2]));
}

#[test]
fn ecam_bus_number_is_taken_from_the_window_offset() {
    // The bus number comes from the offset into the ECAM window, so with a
    // root bus other than 0 no access within the window reaches a port.
    let mut rc = root_complex(2, 3);
    assert_eq!(read(&mut rc, ecam_addr(0, 0, 0), 4), (IoResult::Success, vec![0xFF; 4]));
    assert_eq!(read(&mut rc, ecam_addr(1, 8, 0), 4), (IoResult::Success, vec![0xFF; 4]));
    assert_eq!(rc.ecam_offset_of(ecam_addr(2, 0, 0)), None);
    assert_eq!(rc.ecam_offset_of(ecam_addr(1, 8, 4)), Some((1 << 20) + (8 << 12) + 4));
    assert_eq!(rc.decode_ecam_access(ecam_addr(1, 8, 4)), (1, 8, 4));
}

#[test]
fn ecam_unimplemented_register_reads_ffff() {
    let mut rc = root_complex(0, 0);
    assert_eq!(read(&mut rc, ecam_addr(0, 0, 0x80), 4), (IoResult::Success, vec![0xFF, 0xFF, 0, 0]));
}

#[test]
fn ecam_rejects_bad_sizes_and_alignment() {
    let mut rc = root_complex(0, 0);
    let (r, data) = read(&mut rc, ecam_addr(0, 0, 0), 3);
    assert_eq!(r, IoResult::Failure(IoError::InvalidAccessSize));
    assert_eq!(data, vec![0xAA; 3]);
    let (r, _) = read(&mut rc, ecam_addr(0, 0, 0), 8);
    assert_eq!(r, IoResult::Failure(IoError::InvalidAccessSize));
    let (r, data) = read(&mut rc, ecam_addr(0, 0, 2), 4);
    assert_eq!(r, IoResult::Failure(IoError::UnalignedAccess));
    assert_eq!(data, vec![0xAA; 4]);
    let (r, _) = read(&mut rc, ecam_addr(0, 0, 1), 2);
    assert_eq!(r, IoResult::Failure(IoError::UnalignedAccess));
    assert_eq!(rc.mmio_write(ecam_addr(0, 0, 0x18), &[1, 2, 3]), IoResult::Failure(IoError::InvalidAccessSize));
    assert_eq!(rc.mmio_write(ecam_addr(0, 0, 0x19), &[1, 2]), IoResult::Failure(IoError::UnalignedAccess));
    assert_eq!(read(&mut rc, ecam_addr(0, 0, 0x18), 4), (IoResult::Success, vec![0; 4]));
}

#[test]
fn ecam_write_then_read_returns_data() {
    let mut rc = root_complex(0, 0);
    let addr = ecam_addr(0, 8, 0x18);
    assert_eq!(rc.mmio_write(addr, &[0x00, 0x01, 0x05, 0x00]), IoResult::Success);
    assert_eq!(read(&mut rc, addr, 4), (IoResult::Success, vec![0x00, 0x01, 0x05, 0x00]));
    // The other port is untouched.
    assert_eq!(read(&mut rc, ecam_addr(0, 0, 0x18), 4), (IoResult::Success, vec![0; 4]));
}

#[test]
fn ecam_partial_write_merges() {
    let mut rc = root_complex(0, 0);
    let addr = ecam_addr(0, 0, 0x24);
    rc.mmio_write(addr, &[0x11, 0x22, 0x33, 0x44]);
    rc.mmio_write(addr + 1, &[0xAB]);
    assert_eq!(read(&mut rc, addr, 4), (IoResult::Success, vec![0x11, 0xAB, 0x33, 0x44]));
    rc.mmio_write(addr + 2, &[0xCD, 0xEF]);
    assert_eq!(read(&mut rc, addr, 4), (IoResult::Success, vec![0x11, 0xAB, 0xCD, 0xEF]));
    assert_eq!(read(&mut rc, addr + 2, 2), (IoResult::Success, vec![0xCD, 0xEF]));
}

#[test]
fn ecam_command_register_keeps_status_bit() {
    let mut rc = root_complex(0, 0);
    let addr = ecam_addr(0, 0, 0x04);
    rc.mmio_write(addr, &[0x06, 0x00, 0x00, 0x00]);
    assert_eq!(read(&mut rc, addr, 4), (IoResult::Success, vec![0x06, 0x00, 0x10, 0x00]));
    // A byte write reads the status bit back in and stores it.
    rc.mmio_write(addr, &[0x07]);
    assert_eq!(read(&mut rc, addr, 4), (IoResult::Success, vec![0x07, 0x00, 0x10, 0x00]));
}

#[test]
fn ecam_writes_off_the_root_bus_are_dropped() {
    let mut rc = root_complex(0, 1);
    assert_eq!(rc.mmio_write(ecam_addr(1, 0, 0x18), &[1, 2, 3, 4]), IoResult::Success);
    assert_eq!(rc.mmio_write(ecam_addr(0, 3, 0x18), &[1, 2, 3, 4]), IoResult::Success);
    assert_eq!(read(&mut rc, ecam_addr(0, 0, 0x18), 4), (IoResult::Success, vec![0; 4]));
    assert_eq!(read(&mut rc, ecam_addr(0, 8, 0x18), 4), (IoResult::Success, vec![0; 4]));
}

#[test]
fn lifecycle_keeps_registers() {
    let mut rc = root_complex(0, 0);
    let addr = ecam_addr(0, 0, 0x20);
    rc.mmio_write(addr, &[1, 2, 3, 4]);
    rc.start();
    rc.stop();
    rc.reset();
    assert_eq!(read(&mut rc, addr, 4), (IoResult::Success, vec![1, 2, 3, 4]));
}

#[test]
fn save_and_restore_are_not_supported() {
    let mut rc = root_complex(0, 0);
    assert!(matches!(rc.save(), Err(SaveError::NotSupported)));
    match rc.restore(SaveState {}) {
        Err(RestoreError::InvalidSavedState(message)) => assert_eq!(message, "not supported"),
        _ => panic!("expected restore to be refused"),
    }
}

#[test]
fn merged_bytes_read_back() {
    let old = 0x8899_AABB;
    for (offset, len, value) in [(0u16, 1usize, 0x12u32), (1, 1, 0x34), (3, 1, 0x56), (0, 2, 0x789A), (2, 2, 0xBCDE)] {
        let merged = combine_old_new_values(offset, old, value, len);
        assert_eq!(shift_read_value(offset, len, merged), value);
        let shift = (offset & 3) * 8;
        let mask: u32 = ((1u64 << (len * 8)) - 1) as u32;
        assert_eq!(merged & !(mask << shift), old & !(mask << shift));
    }
}

#[test]
fn access_checks() {
    assert_eq!(check_access(0x1000, 4), None);
    assert_eq!(check_access(0x1002, 2), None);
    assert_eq!(check_access(0x1003, 1), None);
    assert_eq!(check_access(0x1002, 4), Some(IoError::UnalignedAccess));
    assert_eq!(check_access(0x1001, 2), Some(IoError::UnalignedAccess));
    assert_eq!(check_access(0x1000, 0), Some(IoError::InvalidAccessSize));
    assert_eq!(check_access(0x1000, 8), Some(IoError::InvalidAccessSize));
}
