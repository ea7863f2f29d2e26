use emu::cfg::CyclesConfig;
use emu::cpu::proc::AccessCounts;
use emu::mem::{Dram, Endpoint, MemoryController, PhysAddr};
use emu::telemetry::TelemetryTracker;

#[test]
fn cycles_add_up_per_module() {
    let mut t = TelemetryTracker::new();
    t.register_module("cache");
    t.register_module("dram");
    t.log_cycles("cache", 4);
    t.log_cycles("cache", 3);
    t.log_cycles("dram", 100);
    assert_eq!(t.tally("cache"), Some(7));
    assert_eq!(t.tally("dram"), Some(100));
    assert_eq!(t.tally("cpu"), None);
    assert_eq!(t.total(), Some(107));
    assert_eq!(t.len(), 2);
    assert_eq!(t.module(0), ("cache".to_string(), 7));
    assert_eq!(t.module(1), ("dram".to_string(), 100));
}

#[test]
fn registering_again_resets_a_module() {
    let mut t = TelemetryTracker::new();
    t.register_module("cpu");
    t.log_cycles("cpu", 5);
    t.register_module("cpu");
    assert_eq!(t.tally("cpu"), Some(0));
    assert_eq!(t.len(), 1);
}

#[test]
fn total_reports_overflow() {
    let mut t = TelemetryTracker::new();
    t.register_module("a");
    t.register_module("b");
    t.log_cycles("a", usize::MAX);
    t.log_cycles("b", 1);
    assert_eq!(t.total(), None);
    assert_eq!(TelemetryTracker::new().total(), Some(0));
}

#[test]
fn cycle_report_prices_each_use() {
    let counts = AccessCounts { steps: 3, cache_reads: 10, cache_writes: 2 };
    let mut mc = MemoryController::new();
    mc.reg_mem_ep(Endpoint::Dram(Dram::new()));
    for a in 0..4u16 {
        mc.read(PhysAddr::new(a));
    }
    mc.write(PhysAddr::new(0), 1);
    mc.write(PhysAddr::new(1), 2);
    assert_eq!((mc.reads(), mc.writes()), (4, 2));
    let cycles = CyclesConfig { l1_cache_read: 1, l1_cache_write: 2, dram_read: 10, dram_write: 20 };
    let t = emu::telemetry::cycle_report(&counts, &mc, &cycles).unwrap();
    assert_eq!(t.len(), 3);
    assert_eq!(t.module(0), ("dram".to_string(), 80));
    assert_eq!(t.module(1), ("cpu".to_string(), 3));
    assert_eq!(t.module(2), ("cache".to_string(), 14));
    assert_eq!(t.total(), Some(97));
    let dear = CyclesConfig { dram_read: usize::MAX, ..cycles };
    assert!(emu::telemetry::cycle_report(&counts, &mc, &dear).is_none());
}
