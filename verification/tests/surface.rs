//! Exercises the caller-visible surface: handle lifecycle, section
//! enumeration, and the raw-access decisions.

use memsession::handles::HandleTable;
use memsession::memory::compute_effective_address;
use memsession::sections::build_sections;
use memsession::sections::coalesce_sections;
use memsession::sections::Section;
use memsession::sections::TranslationEntry;
use memsession::session::processes_to_emit;
use memsession::session::Module;
use memsession::session::ProcessCandidate;
use memsession::session::Session;

fn entry(base: u64, size: u64) -> TranslationEntry {
    TranslationEntry { base, size }
}

#[test]
fn open_absent_pid_returns_null() {
    let mut s = Session::new(true);
    let live: Vec<u32> = vec![4, 1234, 5678];
    assert_eq!(s.open_remote_process(999, &live), None);
    assert!(!s.is_process_valid(999, &live));
}

#[test]
fn open_pid_zero_refused() {
    // Zero denotes "no handle", so the idle process can never be opened.
    let mut s = Session::new(true);
    let live: Vec<u32> = vec![0, 4];
    assert_eq!(s.open_remote_process(0, &live), None);
}

#[test]
fn open_then_valid_until_exit() {
    let mut s = Session::new(true);
    let live: Vec<u32> = vec![4, 1234];
    let h = s.open_remote_process(1234, &live).unwrap();
    assert_eq!(h, 1234);
    assert!(s.is_process_valid(h, &live));
    // The process exits: the handle is still in the table but no longer valid.
    let live_after_exit: Vec<u32> = vec![4];
    assert!(!s.is_process_valid(h, &live_after_exit));
}

#[test]
fn close_invalidates_and_is_idempotent() {
    let mut s = Session::new(true);
    let live: Vec<u32> = vec![77];
    let h = s.open_remote_process(77, &live).unwrap();
    assert!(s.is_process_valid(h, &live));
    s.close_remote_process(h);
    assert!(!s.is_process_valid(h, &live));
    // Closing again is a silent no-op.
    s.close_remote_process(h);
    assert!(!s.is_process_valid(h, &live));
}

#[test]
fn close_unknown_handle_is_noop() {
    let mut s = Session::new(true);
    let live: Vec<u32> = vec![5, 6];
    let h = s.open_remote_process(5, &live).unwrap();
    s.close_remote_process(31337);
    assert!(s.is_process_valid(h, &live));
}

#[test]
fn reopen_hands_back_same_handle() {
    let mut s = Session::new(true);
    let live: Vec<u32> = vec![42];
    let h1 = s.open_remote_process(42, &live).unwrap();
    let h2 = s.open_remote_process(42, &live).unwrap();
    assert_eq!(h1, h2);
    assert!(s.is_process_valid(h2, &live));
}

#[test]
fn handle_table_tracks_contexts() {
    let mut t = HandleTable::new();
    let live: Vec<u32> = vec![10, 20];
    assert_eq!(t.open_process(10, &live), Some(10));
    assert_eq!(t.open_process(20, &live), Some(20));
    assert_eq!(t.open_process(30, &live), None);
    assert_eq!(t.get_process(10).unwrap().pid, 10);
    assert!(t.get_process(30).is_none());
    t.close_process(10);
    assert!(t.get_process(10).is_none());
    assert_eq!(t.get_process(20).unwrap().pid, 20);
}

#[test]
fn coalesce_merges_adjacent_and_holds_last_run() {
    // Two adjacent entries merge into one section; the trailing run at
    // 0x5000 stays in the accumulator and is never emitted.
    let v = vec![entry(0x1000, 0x1000), entry(0x2000, 0x1000), entry(0x5000, 0x1000)];
    let r = coalesce_sections(&v);
    assert_eq!(r, vec![Section { base: 0x1000, size: 0x2000 }]);
}

#[test]
fn coalesce_empty_map_emits_nothing() {
    let r = coalesce_sections(&Vec::new());
    assert!(r.is_empty());
}

#[test]
fn coalesce_single_entry_emits_nothing() {
    let r = coalesce_sections(&vec![entry(0x4000, 0x1000)]);
    assert!(r.is_empty());
}

#[test]
fn coalesce_gap_starts_new_section() {
    let v = vec![
        entry(0x1000, 0x1000),
        entry(0x2000, 0x1000),
        entry(0x4000, 0x1000),
        entry(0x9000, 0x1000),
    ];
    let r = coalesce_sections(&v);
    assert_eq!(
        r,
        vec![Section { base: 0x1000, size: 0x2000 }, Section { base: 0x4000, size: 0x1000 }]
    );
}

#[test]
fn coalesce_zero_base_extends_initial_accumulator() {
    // A run starting at address zero extends the empty accumulator, which
    // also sits at base zero with size zero.
    let v = vec![entry(0x0, 0x1000), entry(0x1000, 0x1000), entry(0x3000, 0x1000)];
    let r = coalesce_sections(&v);
    assert_eq!(r, vec![Section { base: 0x0, size: 0x2000 }]);
}

#[test]
fn build_sections_sorts_before_coalescing() {
    let v = vec![entry(0x5000, 0x1000), entry(0x2000, 0x1000), entry(0x1000, 0x1000)];
    let r = build_sections(v);
    assert_eq!(r, vec![Section { base: 0x1000, size: 0x2000 }]);
}

#[test]
fn build_sections_drops_kernel_space_entries() {
    let v = vec![
        entry(0xFFFF_0000_0000_0000, 0x1000),
        entry(0x2000, 0x1000),
        entry(0x1000, 0x1000),
        entry(0xFFFF_FFFF_0000_0000, 0x1000),
        entry(0x4000, 0x1000),
    ];
    let r = build_sections(v);
    assert_eq!(r, vec![Section { base: 0x1000, size: 0x2000 }]);
    for s in r.iter() {
        assert!(s.base < 0xFFFF_0000_0000_0000);
    }
}

#[test]
fn effective_address_wraps_both_ways() {
    assert_eq!(compute_effective_address(0x1000, 16), 0x1010);
    assert_eq!(compute_effective_address(0x1000, -16), 0xFF0);
    assert_eq!(compute_effective_address(0, -1), u64::MAX);
    assert_eq!(compute_effective_address(u64::MAX, 1), 0);
}

#[test]
fn access_denied_for_unknown_or_closed_handle() {
    let mut s = Session::new(true);
    let live: Vec<u32> = vec![88];
    assert_eq!(s.prepare_memory_access(88, 0x1000, 0), None);
    let h = s.open_remote_process(88, &live).unwrap();
    assert_eq!(s.prepare_memory_access(h, 0x1000, -16), Some(0xFF0));
    s.close_remote_process(h);
    assert_eq!(s.prepare_memory_access(h, 0x1000, -16), None);
}

#[test]
fn sections_respect_config_and_handle() {
    let live: Vec<u32> = vec![9];
    let map = vec![entry(0x1000, 0x1000), entry(0x2000, 0x1000), entry(0x5000, 0x1000)];

    let mut on = Session::new(true);
    let h = on.open_remote_process(9, &live).unwrap();
    assert_eq!(on.sections_to_emit(h, map.clone()), vec![Section { base: 0x1000, size: 0x2000 }]);
    assert!(on.sections_to_emit(12345, map.clone()).is_empty());

    let mut off = Session::new(false);
    let h2 = off.open_remote_process(9, &live).unwrap();
    assert!(off.sections_to_emit(h2, map).is_empty());
}

#[test]
fn modules_pass_through_unmerged_in_order() {
    let live: Vec<u32> = vec![9];
    let mut s = Session::new(true);
    let h = s.open_remote_process(9, &live).unwrap();
    let mods = vec![
        Module { base: 0x40_0000, size: 0x2000, path: String::from("a.exe") },
        Module { base: 0x10_0000, size: 0x1000, path: String::from("b.dll") },
    ];
    let out = s.modules_to_emit(h, mods);
    assert_eq!(out.len(), 2);
    assert_eq!(out[0].base, 0x40_0000);
    assert_eq!(out[0].path, "a.exe");
    assert_eq!(out[1].base, 0x10_0000);
    assert_eq!(out[1].path, "b.dll");

    let mods2 = vec![Module { base: 0x1000, size: 0x1000, path: String::from("c.dll") }];
    assert!(s.modules_to_emit(777, mods2).is_empty());
}

#[test]
fn process_listing_skips_unresolved_main_modules() {
    let candidates = vec![
        ProcessCandidate {
            pid: 4,
            main_module: Some((String::from("System"), String::from("ntoskrnl.exe"))),
        },
        ProcessCandidate { pid: 1000, main_module: None },
        ProcessCandidate {
            pid: 1234,
            main_module: Some((String::from("calc.exe"), String::from("C:\\calc.exe"))),
        },
    ];
    let reports = processes_to_emit(&candidates);
    assert_eq!(reports.len(), 2);
    assert_eq!(reports[0].pid, 4);
    assert_eq!(reports[0].name, "System");
    assert_eq!(reports[0].path, "ntoskrnl.exe");
    assert_eq!(reports[1].pid, 1234);
    assert_eq!(reports[1].name, "calc.exe");
    assert_eq!(reports[1].path, "C:\\calc.exe");
}

#[test]
fn process_listing_of_nothing_is_empty() {
    assert!(processes_to_emit(&Vec::new()).is_empty());
}

#[test]
fn reserved_entry_points_report_failure() {
    memsession::session::control_remote_process(1, 2);
    memsession::session::detach_debugger_from_process(1);
    memsession::session::handle_debug_event();
    assert!(!memsession::session::attach_debugger_to_process(1));
    assert!(!memsession::session::await_debug_event(100));
    assert!(!memsession::session::set_hardware_breakpoint(1, 0x1000, 0, 0, 4, true));
}
