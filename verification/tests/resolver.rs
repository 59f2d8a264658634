use pcie::resolver::BusResolverWeakMutexPcie;
use pcie::resolver::HandoverLog;
use pcie::resolver::PcieConflict;
use pcie::resolver::PcieConflictReason;
use pcie::resolver::RegisterWeakMutexPcie;
use pcie::resolver::Rid;
use pcie::resolver::WeakMutexPcieEntry;
use std::collections::HashMap;
use std::sync::Arc;
use std::sync::Mutex;

/// A root complex that takes each routing ID once.
struct TestRootComplex {
    taken: HashMap<Rid, Arc<str>>,
}

impl RegisterWeakMutexPcie<u32> for TestRootComplex {
    // The record of hand-overs lives in specifications only.
    fn handovers(&self) -> HandoverLog<u32> {
        unreachable!()
    }

    fn add_pcie_function(&mut self, rid: Rid, name: Arc<str>, _dev: u32) -> Result<(), PcieConflict> {
        if let Some(owner) = self.taken.get(&rid) {
            return Err(PcieConflict {
                rid,
                conflict_dev: name,
                reason: PcieConflictReason::RidInUse { in_use_by: owner.clone() },
            });
        }
        self.taken.insert(rid, name);
        Ok(())
    }
}

fn entry(bus: u8, device_function: u8, name: &str) -> WeakMutexPcieEntry<u32> {
    WeakMutexPcieEntry { rid: Rid { bus, device_function }, name: name.into(), dev: 0 }
}

#[test]
fn empty_resolver_resolves() {
    let r: BusResolverWeakMutexPcie<u64, TestRootComplex, u32> = BusResolverWeakMutexPcie::default();
    assert!(r.resolve().is_ok());
}

#[test]
fn functions_on_served_buses_resolve() {
    let mut r: BusResolverWeakMutexPcie<u64, TestRootComplex, u32> = BusResolverWeakMutexPcie::default();
    r.root_complexes.insert(1, TestRootComplex { taken: HashMap::new() });
    r.functions.insert(1, vec![entry(0, 0, "a"), entry(0, 8, "b")]);
    assert!(r.resolve().is_ok());
}

#[test]
fn functions_on_missing_bus_are_reported() {
    let mut r: BusResolverWeakMutexPcie<u64, TestRootComplex, u32> = BusResolverWeakMutexPcie::default();
    r.root_complexes.insert(1, TestRootComplex { taken: HashMap::new() });
    r.functions.insert(1, vec![entry(0, 0, "a")]);
    r.functions.insert(2, vec![entry(0, 0, "b"), entry(0, 1, "c")]);
    let errs = r.resolve().unwrap_err();
    assert_eq!(errs.len(), 2);
    for (e, name, df) in [(&errs[0], "b", 0), (&errs[1], "c", 1)] {
        assert_eq!(&*e.conflict_dev, name);
        assert_eq!(e.rid, Rid { bus: 0, device_function: df });
        assert!(matches!(e.reason, PcieConflictReason::MissingBus));
    }
}

#[test]
fn conflicts_from_root_complex_are_reported() {
    let mut r: BusResolverWeakMutexPcie<u64, TestRootComplex, u32> = BusResolverWeakMutexPcie::default();
    r.root_complexes.insert(1, TestRootComplex { taken: HashMap::new() });
    r.functions.insert(1, vec![entry(0, 0, "a"), entry(0, 0, "b"), entry(0, 1, "c")]);
    let errs = r.resolve().unwrap_err();
    assert_eq!(errs.len(), 1);
    assert_eq!(&*errs[0].conflict_dev, "b");
    match &errs[0].reason {
        PcieConflictReason::RidInUse { in_use_by } => assert_eq!(&**in_use_by, "a"),
        _ => panic!("expected a routing ID conflict"),
    }
}

/// A root complex that refuses every function.
struct FullRootComplex;

impl RegisterWeakMutexPcie<u32> for FullRootComplex {
    fn handovers(&self) -> HandoverLog<u32> {
        unreachable!()
    }

    fn add_pcie_function(&mut self, rid: Rid, name: Arc<str>, _dev: u32) -> Result<(), PcieConflict> {
        Err(PcieConflict { rid, conflict_dev: name, reason: PcieConflictReason::RidInUse { in_use_by: "full".into() } })
    }
}

#[test]
fn boxed_root_complexes_of_different_kinds() {
    let mut r: BusResolverWeakMutexPcie<u64, Box<dyn RegisterWeakMutexPcie<u32>>, u32> =
        BusResolverWeakMutexPcie::default();
    r.root_complexes.insert(1, Box::new(TestRootComplex { taken: HashMap::new() }));
    r.root_complexes.insert(2, Box::new(FullRootComplex));
    r.functions.insert(1, vec![entry(0, 0, "a")]);
    r.functions.insert(2, vec![entry(0, 0, "b")]);
    let errs = r.resolve().unwrap_err();
    assert_eq!(errs.len(), 1);
    assert_eq!(&*errs[0].conflict_dev, "b");
}

/// A root complex that records, in a shared list, each function it is handed
/// and refuses those whose name starts with "x".
struct RecordingRootComplex {
    seen: Arc<Mutex<Vec<String>>>,
}

impl RegisterWeakMutexPcie<u32> for RecordingRootComplex {
    fn handovers(&self) -> HandoverLog<u32> {
        unreachable!()
    }

    fn add_pcie_function(&mut self, rid: Rid, name: Arc<str>, _dev: u32) -> Result<(), PcieConflict> {
        self.seen.lock().unwrap().push(name.to_string());
        if name.starts_with('x') {
            return Err(PcieConflict { rid, conflict_dev: name, reason: PcieConflictReason::RidInUse { in_use_by: "other".into() } });
        }
        Ok(())
    }
}

#[test]
fn every_function_is_handed_over_in_order_despite_failures() {
    let seen = Arc::new(Mutex::new(Vec::new()));
    let mut r: BusResolverWeakMutexPcie<u64, RecordingRootComplex, u32> = BusResolverWeakMutexPcie::default();
    r.root_complexes.insert(1, RecordingRootComplex { seen: seen.clone() });
    r.functions.insert(1, vec![entry(0, 0, "a"), entry(0, 1, "x1"), entry(0, 2, "b"), entry(0, 3, "x2")]);
    r.functions.insert(7, vec![entry(0, 0, "m")]);
    let errs = r.resolve().unwrap_err();
    assert_eq!(*seen.lock().unwrap(), vec!["a", "x1", "b", "x2"]);
    assert_eq!(errs.len(), 3);
    let names: Vec<&str> = errs.iter().map(|e| &*e.conflict_dev).collect();
    assert!(names.contains(&"m"));
    let served: Vec<&str> = names.iter().copied().filter(|n| *n != "m").collect();
    assert_eq!(served, vec!["x1", "x2"]);
}

/// A root complex that records hand-overs and its own drop in a shared list.
struct DropRecordingRootComplex {
    id: &'static str,
    events: Arc<Mutex<Vec<String>>>,
}

impl RegisterWeakMutexPcie<u32> for DropRecordingRootComplex {
    fn handovers(&self) -> HandoverLog<u32> {
        unreachable!()
    }

    fn add_pcie_function(&mut self, _rid: Rid, name: Arc<str>, _dev: u32) -> Result<(), PcieConflict> {
        self.events.lock().unwrap().push(format!("add {}", name));
        Ok(())
    }
}

impl Drop for DropRecordingRootComplex {
    fn drop(&mut self) {
        self.events.lock().unwrap().push(format!("drop {}", self.id));
    }
}

#[test]
fn root_complexes_are_kept_until_resolution_ends() {
    let events = Arc::new(Mutex::new(Vec::new()));
    let mut r: BusResolverWeakMutexPcie<u64, DropRecordingRootComplex, u32> = BusResolverWeakMutexPcie::default();
    r.root_complexes.insert(1, DropRecordingRootComplex { id: "one", events: events.clone() });
    r.root_complexes.insert(2, DropRecordingRootComplex { id: "two", events: events.clone() });
    r.functions.insert(1, vec![entry(0, 0, "a")]);
    r.functions.insert(2, vec![entry(0, 0, "b")]);
    assert!(r.resolve().is_ok());
    let events = events.lock().unwrap();
    assert_eq!(events.len(), 4);
    assert!(events[..2].iter().all(|e| e.starts_with("add ")));
    assert!(events[2..].iter().all(|e| e.starts_with("drop ")));
}
