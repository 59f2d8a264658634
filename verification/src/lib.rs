//! PCI Express root complex emulation, the ACPI MCFG table that describes it,
//! and the topology types that tie the two together.

pub mod byte_order;
pub mod root_port;
pub mod root_complex;
pub mod mcfg;
pub mod topology;
pub mod resolver;
