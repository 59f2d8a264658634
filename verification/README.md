# pcie

A verified PCI Express root complex emulator and the ACPI MCFG table that
describes it.

- `src/root_port.rs`: the type 1 configuration space of a root port.
- `src/root_complex.rs`: decoding of ECAM accesses and their routing to the
  root ports, with the laws that tie reads to earlier writes.
- `src/mcfg.rs`: the MCFG table parser and encoders, with the law that an
  encoded table parses back to what was encoded.
- `src/byte_order.rs`: how register values meet the bytes of an access.
  The byte order of the machine is read once (through zerocopy) and carried
  as a value, so every contract is stated for both orders.
- `src/resolver.rs`: hands the PCI Express functions that devices ask for to
  the root complexes of their buses, and reports conflicts. Root complexes
  keep a record of what they were handed (`handovers`, in specifications
  only), which the contract of `resolve` speaks of.
- `src/topology.rs`: the description of a host bridge.
- `app/lib.rs`: the displayable parse error, the callback form of the MCFG
  parser, and traced ECAM accesses.
