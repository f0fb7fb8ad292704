//! The handle table: the opaque-handle lifecycle for opened remote
//! processes.
//!
//! A handle is the identifier of the process it opens.  Process identifiers
//! are unique among currently running processes, hence among the open
//! contexts, so the table is a bijection between live handles and process
//! contexts.  Zero is reserved as the null handle and is never granted.

use vstd::prelude::*;

verus! {

/// One opened remote process: the state kept per live handle.  The backend
/// process reference and virtual-memory accessor that accompany it stay with
/// the caller that owns the backend connection.
#[derive(Clone, Copy, PartialEq, Eq, Structural)]
pub struct ProcessContext {
    pub pid: u32,
}

/// Whether an open of `pid` grants a handle: the process must appear in the
/// backend's current process list, and its identifier must not be zero,
/// which is reserved as the null handle.
pub open spec fn open_grants(pid: u32, live: Seq<u32>) -> bool {
    pid != 0 && live.contains(pid)
}

/// The set of open handles after an open of `pid` against process list
/// `live`.
pub open spec fn table_after_open(t: Set<u32>, pid: u32, live: Seq<u32>) -> Set<u32> {
    if open_grants(pid, live) {
        t.insert(pid)
    } else {
        t
    }
}

/// The handle an open of `pid` against process list `live` hands back.
pub open spec fn open_result(pid: u32, live: Seq<u32>) -> Option<u32> {
    if open_grants(pid, live) {
        Some(pid)
    } else {
        None
    }
}

/// A handle is valid iff it is present in the table and its process still
/// appears in the backend's current process list.
pub open spec fn handle_valid(t: Set<u32>, handle: u32, live: Seq<u32>) -> bool {
    t.contains(handle) && live.contains(handle)
}

/// The set of open handles after a close of `handle`.
pub open spec fn table_after_close(t: Set<u32>, handle: u32) -> Set<u32> {
    t.remove(handle)
}

/// Linear scan for `pid` in a process list.
fn contains_pid(pids: &Vec<u32>, pid: u32) -> (r: bool)
    ensures
        r == pids@.contains(pid),
{
    let mut k: usize = 0;
    while k < pids.len()
        invariant
            k <= pids@.len(),
            forall|m: int| 0 <= m < k ==> pids@[m] != pid,
        decreases pids@.len() - k,
    {
        if pids[k] == pid {
            return true;
        }
        k += 1;
    }
    false
}

/// Maps opaque handles to process contexts; manages their creation and
/// destruction.
pub struct HandleTable {
    entries: Vec<ProcessContext>,
}

impl HandleTable {
    /// The set of handles the table currently holds.
    pub closed spec fn view(&self) -> Set<u32> {
        Set::new(
            |h: u32| exists|k: int| 0 <= k < self.entries@.len() && self.entries@[k].pid == h,
        )
    }

    /// Each process is open at most once, so handles are unique and the
    /// table is a bijection between handles and contexts.
    pub closed spec fn inv(&self) -> bool {
        forall|i: int, j: int|
            0 <= i < j < self.entries@.len() ==> self.entries@[i].pid != self.entries@[j].pid
    }

    /// Creates an empty table.
    pub fn new() -> (r: HandleTable)
        ensures
            r.inv(),
            r@ == Set::<u32>::empty(),
    {
        let r = HandleTable { entries: Vec::new() };
        proof {
            assert(r@ =~= Set::<u32>::empty());
        }
        r
    }

    /// The index of the context `handle` maps to, if the handle is open.
    fn position_of(&self, handle: u32) -> (r: Option<usize>)
        ensures
            match r {
                Some(k) => k < self.entries@.len() && self.entries@[k as int].pid == handle
                    && self@.contains(handle),
                None => !self@.contains(handle),
            },
    {
        let mut k: usize = 0;
        while k < self.entries.len()
            invariant
                k <= self.entries@.len(),
                forall|m: int| 0 <= m < k ==> self.entries@[m].pid != handle,
            decreases self.entries@.len() - k,
        {
            if self.entries[k].pid == handle {
                return Some(k);
            }
            k += 1;
        }
        None
    }

    /// Opens `pid`: grants a handle iff the process appears in `live_pids`
    /// and its identifier is not zero.  Reopening an already-open process
    /// hands back the same handle.  On refusal the table is unchanged and
    /// the result is the null handle.
    pub fn open_process(&mut self, pid: u32, live_pids: &Vec<u32>) -> (r: Option<u32>)
        requires
            old(self).inv(),
        ensures
            final(self).inv(),
            r == open_result(pid, live_pids@),
            final(self)@ == table_after_open(old(self)@, pid, live_pids@),
    {
        if pid == 0 || !contains_pid(live_pids, pid) {
            return None;
        }
        match self.position_of(pid) {
            Some(_) => {
                proof {
                    assert(self@ =~= self@.insert(pid));
                }
            },
            None => {
                let ghost pre = self.entries@;
                self.entries.push(ProcessContext { pid });
                proof {
                    assert forall|h: u32|
                        self@.contains(h) <==> (old(self)@.contains(h) || h == pid) by {
                        if h == pid {
                            assert(self.entries@[pre.len() as int].pid == pid);
                            assert(self@.contains(pid));
                        } else {
                            if self@.contains(h) {
                                let k = choose|k: int|
                                    0 <= k < self.entries@.len() && self.entries@[k].pid == h;
                                assert(k < pre.len());
                                assert(pre[k].pid == h);
                                assert(old(self)@.contains(h));
                            }
                            if old(self)@.contains(h) {
                                let k = choose|k: int| 0 <= k < pre.len() && pre[k].pid == h;
                                assert(self.entries@[k].pid == h);
                                assert(self@.contains(h));
                            }
                        }
                    }
                    assert(self@ =~= old(self)@.insert(pid));
                }
            },
        }
        Some(pid)
    }

    /// True iff `handle` is open and its process still appears in
    /// `live_pids`: a closed handle and an exited process both yield false.
    pub fn is_process_alive(&self, handle: u32, live_pids: &Vec<u32>) -> (r: bool)
        ensures
            r == handle_valid(self@, handle, live_pids@),
    {
        match self.position_of(handle) {
            Some(_) => contains_pid(live_pids, handle),
            None => false,
        }
    }

    /// Closes `handle`: removes its table entry.  Closing an unknown or
    /// already-closed handle is a silent no-op, never an error.
    pub fn close_process(&mut self, handle: u32)
        requires
            old(self).inv(),
        ensures
            final(self).inv(),
            final(self)@ == table_after_close(old(self)@, handle),
    {
        match self.position_of(handle) {
            Some(k) => {
                let ghost pre = self.entries@;
                self.entries.remove(k);
                proof {
                    assert forall|h: u32|
                        self@.contains(h) <==> (old(self)@.contains(h) && h != handle) by {
                        if self@.contains(h) {
                            let m = choose|m: int|
                                0 <= m < self.entries@.len() && self.entries@[m].pid == h;
                            if m < k {
                                assert(pre[m].pid == h);
                            } else {
                                assert(pre[m + 1].pid == h);
                            }
                            assert(old(self)@.contains(h));
                            assert(h != handle);
                        }
                        if old(self)@.contains(h) && h != handle {
                            let m = choose|m: int| 0 <= m < pre.len() && pre[m].pid == h;
                            assert(m != k);
                            if m < k {
                                assert(self.entries@[m].pid == h);
                            } else {
                                assert(self.entries@[m - 1].pid == h);
                            }
                            assert(self@.contains(h));
                        }
                    }
                    assert(self@ =~= old(self)@.remove(handle));
                }
            },
            None => {
                proof {
                    assert(self@ =~= self@.remove(handle));
                }
            },
        }
    }

    /// Looks `handle` up: absence is a normal, expected outcome, not a
    /// failure.
    pub fn get_process(&self, handle: u32) -> (r: Option<ProcessContext>)
        ensures
            match r {
                Some(c) => self@.contains(handle) && c.pid == handle,
                None => !self@.contains(handle),
            },
    {
        match self.position_of(handle) {
            Some(k) => Some(self.entries[k]),
            None => None,
        }
    }
}

/// A process absent from the current process list can never be opened: the
/// open reports the null handle.
pub proof fn lemma_open_absent_pid_fails(pid: u32, live: Seq<u32>)
    requires
        !live.contains(pid),
    ensures
        open_result(pid, live) is None,
{
}

/// A handle is valid immediately after the open that granted it.
pub proof fn lemma_open_then_valid(t: Set<u32>, pid: u32, live: Seq<u32>)
    requires
        open_grants(pid, live),
    ensures
        handle_valid(table_after_open(t, pid, live), pid, live),
{
}

/// A handle stops being valid once its process leaves the process list,
/// whatever the table holds.
pub proof fn lemma_exited_process_invalidates(t: Set<u32>, handle: u32, live: Seq<u32>)
    requires
        !live.contains(handle),
    ensures
        !handle_valid(t, handle, live),
{
}

/// A closed handle is not valid, against any process list.
pub proof fn lemma_close_invalidates(t: Set<u32>, handle: u32, live: Seq<u32>)
    ensures
        !handle_valid(table_after_close(t, handle), handle, live),
{
}

/// Closing a handle twice has the same effect as closing it once.
pub proof fn lemma_close_idempotent(t: Set<u32>, handle: u32)
    ensures
        table_after_close(table_after_close(t, handle), handle) == table_after_close(t, handle),
{
    assert(table_after_close(table_after_close(t, handle), handle) =~= table_after_close(
        t,
        handle,
    ));
}

} // verus!
