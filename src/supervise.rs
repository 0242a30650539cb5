use vstd::prelude::*;
use crate::input::{MemInput, MemInputView};
use crate::process::{PtraceMode, SIGTRAP};

verus! {

/// A placed breakpoint: its address (relative to the executable for a PIE),
/// the word it overwrote, and the region to write when it is reached.
#[derive(Debug)]
pub struct Breakpoint {
    pub addr: usize,
    pub saved: u64,
    pub mem: MemInput,
}

pub open spec fn bp_view(b: Breakpoint) -> (usize, u64, MemInputView) {
    (b.addr, b.saved, b.mem@)
}

/// The breakpoints of one run, at most one per address.
#[derive(Debug)]
pub struct BreakpointTable {
    entries: Vec<Breakpoint>,
}

impl BreakpointTable {
    /// The breakpoints in the order they were placed.
    pub closed spec fn spec_entries(&self) -> Seq<(usize, u64, MemInputView)> {
        self.entries@.map_values(|b: Breakpoint| bp_view(b))
    }

    pub open spec fn has(&self, addr: usize) -> bool {
        exists|i: int| 0 <= i < self.spec_entries().len() && #[trigger] self.spec_entries()[i].0 == addr
    }

    pub open spec fn wf(&self) -> bool {
        forall|i: int, j: int|
            0 <= i < j < self.spec_entries().len() ==> #[trigger] self.spec_entries()[i].0
                != #[trigger] self.spec_entries()[j].0
    }

    pub fn new() -> (r: BreakpointTable)
        ensures
            r.wf(),
            r.spec_entries().len() == 0,
    {
        let r = BreakpointTable { entries: Vec::new() };
        assert(r.spec_entries() =~= Seq::empty());
        r
    }

    pub fn is_empty(&self) -> (r: bool)
        ensures
            r == (self.spec_entries().len() == 0),
    {
        self.entries.len() == 0
    }

    fn position(&self, addr: usize) -> (r: Option<usize>)
        ensures
            r is None <==> !self.has(addr),
            r is Some ==> r->Some_0 < self.spec_entries().len() && self.spec_entries()[r->Some_0 as int].0
                == addr,
    {
        let mut i: usize = 0;
        while i < self.entries.len()
            invariant
                i <= self.entries@.len(),
                forall|j: int| 0 <= j < i ==> self.spec_entries()[j].0 != addr,
            decreases self.entries@.len() - i,
        {
            assert(self.spec_entries()[i as int].0 == self.entries@[i as int].addr);
            if self.entries[i].addr == addr {
                return Some(i);
            }
            i = i + 1;
        }
        None
    }

    /// Records a breakpoint; one already at that address is replaced.
    pub fn insert(&mut self, bp: Breakpoint)
        requires
            old(self).wf(),
        ensures
            final(self).wf(),
            final(self).has(bp.addr),
            old(self).has(bp.addr) ==> exists|i: int|
                0 <= i < old(self).spec_entries().len() && old(self).spec_entries()[i].0 == bp.addr
                    && final(self).spec_entries() == old(self).spec_entries().update(i, bp_view(bp)),
            !old(self).has(bp.addr) ==> final(self).spec_entries() == old(self).spec_entries().push(
                bp_view(bp),
            ),
    {
        let ghost v = bp_view(bp);
        match self.position(bp.addr) {
            Some(i) => {
                self.entries.set(i, bp);
                assert(self.spec_entries() =~= old(self).spec_entries().update(i as int, v));
                assert(self.spec_entries()[i as int].0 == v.0);
            },
            None => {
                self.entries.push(bp);
                assert(self.spec_entries() =~= old(self).spec_entries().push(v));
                assert(self.spec_entries()[old(self).spec_entries().len() as int].0 == v.0);
            },
        }
    }

    /// Removes and returns the breakpoint at `addr`, if one is placed there.
    pub fn take(&mut self, addr: usize) -> (r: Option<Breakpoint>)
        requires
            old(self).wf(),
        ensures
            final(self).wf(),
            r is None <==> !old(self).has(addr),
            r is None ==> final(self).spec_entries() == old(self).spec_entries(),
            r is Some ==> exists|i: int|
                0 <= i < old(self).spec_entries().len() && old(self).spec_entries()[i] == bp_view(
                    r->Some_0,
                ) && final(self).spec_entries() == old(self).spec_entries().remove(i),
            r is Some ==> r->Some_0.addr == addr,
            !final(self).has(addr),
    {
        match self.position(addr) {
            Some(i) => {
                let bp = self.entries.remove(i);
                assert(self.spec_entries() =~= old(self).spec_entries().remove(i as int));
                assert forall|k: int| 0 <= k < self.spec_entries().len() implies #[trigger] self.spec_entries()[k].0
                    != addr by {
                    if k < i {
                        assert(self.spec_entries()[k] == old(self).spec_entries()[k]);
                    } else {
                        assert(self.spec_entries()[k] == old(self).spec_entries()[k + 1]);
                    }
                }
                Some(bp)
            },
            None => None,
        }
    }
}

/// A state change of the child, as `waitpid` reports it.
#[derive(Debug, Clone, Copy, PartialEq, Eq, Structural)]
pub enum WaitEvent {
    /// The child exited.
    Exited,
    /// The child was killed by a signal.
    Killed,
    /// The child stopped with this signal.
    Stopped(i32),
    /// Any other change.
    Other,
}

/// What the supervisor asks the caller to do after an event.
#[derive(Debug, Clone, Copy, PartialEq, Eq, Structural)]
pub enum StopAction {
    /// The child is gone: the run is over.
    Done,
    /// The run took longer than its budget.
    TimedOut,
    /// Write the memory regions and place the breakpoints, handle a reached
    /// breakpoint, then continue the child with this signal.
    InitThenResume(Option<i32>),
    /// Handle a reached breakpoint, then continue the child with this signal.
    Resume(Option<i32>),
    /// Detach from the child and let it run free.
    Detach,
    /// Nothing to do but wait for the next event.
    Wait,
}

/// The signal passed on when continuing a traced child: never `SIGTRAP`,
/// which comes from breakpoints and from `exec`.
pub open spec fn forwarded(sig: Option<i32>) -> Option<i32> {
    if sig == Some(SIGTRAP) {
        None
    } else {
        sig
    }
}

/// The decision for `ev` after `elapsed` microseconds, and whether the
/// memory has been set up afterwards.
pub open spec fn decide(
    mode: PtraceMode,
    init_done: bool,
    timeout: u64,
    ev: WaitEvent,
    elapsed: u64,
) -> (StopAction, bool) {
    match ev {
        WaitEvent::Exited | WaitEvent::Killed => (StopAction::Done, init_done),
        _ => {
            let sig = match ev {
                WaitEvent::Stopped(s) => Some(s),
                _ => None,
            };
            if elapsed > timeout {
                (StopAction::TimedOut, init_done)
            } else if mode == PtraceMode::Always {
                if init_done {
                    (StopAction::Resume(forwarded(sig)), true)
                } else {
                    (StopAction::InitThenResume(forwarded(sig)), true)
                }
            } else if mode == PtraceMode::Drop && sig is Some {
                (StopAction::Detach, init_done)
            } else {
                (StopAction::Wait, init_done)
            }
        },
    }
}

/// Decides, event by event, how to drive a measured child until it is gone
/// or its time is up.
#[derive(Debug)]
pub struct Supervisor {
    mode: PtraceMode,
    timeout: u64,
    init_done: bool,
}

impl Supervisor {
    pub closed spec fn spec_mode(&self) -> PtraceMode {
        self.mode
    }

    pub closed spec fn spec_timeout(&self) -> u64 {
        self.timeout
    }

    /// Whether the memory regions have been set up.
    pub closed spec fn spec_init_done(&self) -> bool {
        self.init_done
    }

    /// A supervisor for a run of at most `timeout` microseconds.
    pub fn new(mode: PtraceMode, timeout: u64) -> (r: Supervisor)
        ensures
            r.spec_mode() == mode,
            r.spec_timeout() == timeout,
            !r.spec_init_done(),
    {
        Supervisor { mode, timeout, init_done: false }
    }

    /// Time left, in microseconds, after `elapsed`.
    pub fn time_left(&self, elapsed: u64) -> (r: u64)
        ensures
            elapsed <= self.spec_timeout() ==> r == self.spec_timeout() - elapsed,
            elapsed > self.spec_timeout() ==> r == 0,
    {
        if elapsed <= self.timeout {
            self.timeout - elapsed
        } else {
            0
        }
    }

    /// The action for event `ev`, `elapsed` microseconds into the run.
    pub fn on_event(&mut self, ev: WaitEvent, elapsed: u64) -> (r: StopAction)
        ensures
            (r, final(self).spec_init_done()) == decide(
                old(self).spec_mode(),
                old(self).spec_init_done(),
                old(self).spec_timeout(),
                ev,
                elapsed,
            ),
            final(self).spec_mode() == old(self).spec_mode(),
            final(self).spec_timeout() == old(self).spec_timeout(),
    {
        let sig: Option<i32> = match ev {
            WaitEvent::Exited | WaitEvent::Killed => {
                return StopAction::Done;
            },
            WaitEvent::Stopped(s) => Some(s),
            WaitEvent::Other => None,
        };
        if elapsed > self.timeout {
            return StopAction::TimedOut;
        }
        match self.mode {
            PtraceMode::Always => {
                let fwd: Option<i32> = match sig {
                    Some(s) => if s == SIGTRAP {
                        None
                    } else {
                        Some(s)
                    },
                    None => None,
                };
                if self.init_done {
                    StopAction::Resume(fwd)
                } else {
                    self.init_done = true;
                    StopAction::InitThenResume(fwd)
                }
            },
            PtraceMode::Drop => {
                if sig.is_some() {
                    StopAction::Detach
                } else {
                    StopAction::Wait
                }
            },
            PtraceMode::Never => StopAction::Wait,
        }
    }
}

} // verus!
