//! The session: the state behind the flat, handle-based call surface.
//!
//! A session owns the handle table and the configuration flag that says
//! whether sections are computed.  Callers keep exactly one session behind an
//! exclusive lock, acquire it for the whole duration of every entry-point
//! call, and hand in what the backend reports (process lists, translation
//! maps, module lists) as plain values; every decision the surface makes is
//! taken here.  Every fallible operation reports failure only through a
//! sentinel result: a null handle, `false`, or an empty list.

use crate::handles::handle_valid;
use crate::handles::open_result;
use crate::handles::HandleTable;
use crate::handles::ProcessContext;
use crate::handles::table_after_close;
use crate::handles::table_after_open;
use crate::memory::compute_effective_address;
use crate::memory::effective_address;
use crate::sections::Section;
use crate::sections::TranslationEntry;
use crate::sections::build_sections;
use crate::sections::build_sections_spec;
use vstd::prelude::*;

verus! {

/// One loaded module of a remote process, as the backend lists it.
pub struct Module {
    pub base: u64,
    pub size: u64,
    pub path: String,
}

/// One process as the backend lists it: the identifier, and its main
/// module's name and path where the backend could resolve them.
pub struct ProcessCandidate {
    pub pid: u32,
    pub main_module: Option<(String, String)>,
}

/// One process as the enumeration reports it: identifier plus the name and
/// path of its resolved main module.
pub struct ProcessReport {
    pub pid: u32,
    pub name: String,
    pub path: String,
}

/// The process list an enumeration reports: one entry per process whose
/// main module the backend resolved, in order; a process whose main module
/// could not be resolved is silently skipped, not reported as an error.
pub open spec fn reported_processes(s: Seq<ProcessCandidate>) -> Seq<ProcessReport>
    decreases s.len(),
{
    if s.len() == 0 {
        Seq::empty()
    } else {
        reported_processes(s.drop_last()) + match s.last().main_module {
            Option::Some(m) => seq![
                ProcessReport { pid: s.last().pid, name: m.0, path: m.1 },
            ],
            Option::None => Seq::empty(),
        }
    }
}

/// Builds the process list an enumeration hands to its callback, exactly as
/// `reported_processes` describes: best-effort, in backend order, skipping
/// every process whose main module was not resolved.
pub fn processes_to_emit(candidates: &Vec<ProcessCandidate>) -> (r: Vec<ProcessReport>)
    ensures
        r@ == reported_processes(candidates@),
{
    let mut out: Vec<ProcessReport> = Vec::new();
    let mut i: usize = 0;
    proof {
        assert(candidates@.take(0) =~= Seq::<ProcessCandidate>::empty());
    }
    while i < candidates.len()
        invariant
            i <= candidates@.len(),
            out@ == reported_processes(candidates@.take(i as int)),
        decreases candidates@.len() - i,
    {
        proof {
            assert(candidates@.take(i as int + 1).drop_last() =~= candidates@.take(i as int));
            assert(candidates@.take(i as int + 1).last() == candidates@[i as int]);
        }
        match &candidates[i].main_module {
            Some(m) => {
                out.push(
                    ProcessReport {
                        pid: candidates[i].pid,
                        name: m.0.clone(),
                        path: m.1.clone(),
                    },
                );
                proof {
                    assert(out@ =~= reported_processes(candidates@.take(i as int + 1)));
                }
            },
            None => {
                proof {
                    assert(out@ =~= reported_processes(candidates@.take(i as int + 1)));
                }
            },
        }
        i += 1;
    }
    proof {
        assert(candidates@.take(candidates@.len() as int) =~= candidates@);
    }
    out
}

/// What a raw read or write does for a given handle: nothing when the handle
/// is unknown, otherwise a backend access at the effective address.
pub open spec fn access_target(t: Set<u32>, handle: u32, address: u64, offset: i32) -> Option<
    u64,
> {
    if t.contains(handle) {
        Some(effective_address(address, offset))
    } else {
        None
    }
}

/// The session state: the handle table and the configuration flag that says
/// whether section lists are computed at all.
pub struct Session {
    parse_sections: bool,
    table: HandleTable,
}

impl Session {
    /// The set of handles the session currently holds open.
    pub closed spec fn view(&self) -> Set<u32> {
        self.table@
    }

    /// Whether the configuration asks for section lists.
    pub closed spec fn sections_enabled(&self) -> bool {
        self.parse_sections
    }

    /// The handle table's bijection invariant.
    pub closed spec fn inv(&self) -> bool {
        self.table.inv()
    }

    /// Creates a session with no open handles.
    pub fn new(parse_sections: bool) -> (r: Session)
        ensures
            r.inv(),
            r@ == Set::<u32>::empty(),
            r.sections_enabled() == parse_sections,
    {
        Session { parse_sections, table: HandleTable::new() }
    }

    /// Reads the configuration flag: whether section lists are computed.
    pub fn sections_are_enabled(&self) -> (r: bool)
        ensures
            r == self.sections_enabled(),
    {
        self.parse_sections
    }

    /// Opens the process `pid` against the backend's current process list:
    /// hands back a handle iff the process appears there, and the null
    /// handle (`None`) otherwise.
    pub fn open_remote_process(&mut self, pid: u32, live_pids: &Vec<u32>) -> (r: Option<u32>)
        requires
            old(self).inv(),
        ensures
            final(self).inv(),
            r == open_result(pid, live_pids@),
            final(self)@ == table_after_open(old(self)@, pid, live_pids@),
            final(self).sections_enabled() == old(self).sections_enabled(),
    {
        self.table.open_process(pid, live_pids)
    }

    /// True iff `handle` is open and its process still appears in the
    /// backend's current process list: a closed handle and an exited
    /// process both yield false.
    pub fn is_process_valid(&self, handle: u32, live_pids: &Vec<u32>) -> (r: bool)
        ensures
            r == handle_valid(self@, handle, live_pids@),
    {
        self.table.is_process_alive(handle, live_pids)
    }

    /// Closes `handle`.  Closing an unknown or already-closed handle is a
    /// silent no-op, never an error.
    pub fn close_remote_process(&mut self, handle: u32)
        requires
            old(self).inv(),
        ensures
            final(self).inv(),
            final(self)@ == table_after_close(old(self)@, handle),
            final(self).sections_enabled() == old(self).sections_enabled(),
    {
        self.table.close_process(handle)
    }

    /// Looks `handle` up; absence is a normal, expected outcome.
    pub fn get_process(&self, handle: u32) -> (r: Option<ProcessContext>)
        ensures
            match r {
                Some(c) => self@.contains(handle) && c.pid == handle,
                None => !self@.contains(handle),
            },
    {
        self.table.get_process(handle)
    }

    /// Decides a raw read or write: hands back the effective address
    /// (`address + offset`, in 64-bit wraparound arithmetic) to access iff
    /// `handle` is open.  When the result is `None` the operation reports
    /// failure and no memory — the caller's buffer above all — is touched.
    pub fn prepare_memory_access(&self, handle: u32, address: u64, offset: i32) -> (r: Option<
        u64,
    >)
        ensures
            r == access_target(self@, handle, address, offset),
    {
        match self.table.get_process(handle) {
            Some(_) => Some(compute_effective_address(address, offset)),
            None => None,
        }
    }

    /// The section list an enumeration of `handle` reports: empty when the
    /// handle is unknown or the configuration leaves sections off, else the
    /// coalesced sections of the handed-in translation map.
    pub fn sections_to_emit(&self, handle: u32, entries: Vec<TranslationEntry>) -> (r: Vec<
        Section,
    >)
        ensures
            r@ == if self@.contains(handle) && self.sections_enabled() {
                build_sections_spec(entries@)
            } else {
                Seq::<Section>::empty()
            },
    {
        let known = match self.table.get_process(handle) {
            Some(_) => true,
            None => false,
        };
        if known && self.parse_sections {
            build_sections(entries)
        } else {
            Vec::new()
        }
    }

    /// The module list an enumeration of `handle` reports: the backend's
    /// list unchanged and in order when the handle is open, and nothing at
    /// all otherwise.
    pub fn modules_to_emit(&self, handle: u32, modules: Vec<Module>) -> (r: Vec<Module>)
        ensures
            r@ == if self@.contains(handle) {
                modules@
            } else {
                Seq::<Module>::empty()
            },
    {
        match self.table.get_process(handle) {
            Some(_) => modules,
            None => Vec::new(),
        }
    }
}

/// An unknown or closed handle makes a read or write fail without touching
/// any memory: the access decision is `None` exactly then.
pub proof fn lemma_access_denied_for_unknown_handle(
    t: Set<u32>,
    handle: u32,
    address: u64,
    offset: i32,
)
    ensures
        (access_target(t, handle, address, offset) is None) <==> !t.contains(handle),
{
}

/// Reserved process-control entry point: performs nothing.
pub fn control_remote_process(_handle: u32, _action: i32) {
}

/// Reserved debugger entry point: always reports failure and performs no
/// backend interaction.
pub fn attach_debugger_to_process(_pid: u32) -> (r: bool)
    ensures
        !r,
{
    false
}

/// Reserved debugger entry point: performs nothing.
pub fn detach_debugger_from_process(_pid: u32) {
}

/// Reserved debugger entry point: never reports an event.
pub fn await_debug_event(_timeout: i32) -> (r: bool)
    ensures
        !r,
{
    false
}

/// Reserved debugger entry point: performs nothing.
pub fn handle_debug_event() {
}

/// Reserved debugger entry point: always reports failure.
pub fn set_hardware_breakpoint(
    _pid: u32,
    _address: u64,
    _reg: i32,
    _ty: i32,
    _size: i32,
    _set: bool,
) -> (r: bool)
    ensures
        !r,
{
    false
}

} // verus!
