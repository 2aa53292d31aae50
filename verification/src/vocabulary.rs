//! The values exchanged between the scheduling engine and its driver.

use vstd::prelude::*;

verus! {

/// Identifier of a process. The engine hands out 1, 2, 3, ... in order of
/// creation and never hands out the same number twice.
#[derive(Clone, Copy, Debug, PartialEq, Eq, Hash, Structural)]
pub struct Pid(pub usize);

impl Pid {
    /// The identifier with number `pid`.
    pub fn new(pid: usize) -> (r: Pid)
        ensures
            r == Pid(pid),
    {
        Pid(pid)
    }

    /// The number of this identifier.
    pub fn number(&self) -> (n: usize)
        ensures
            n == self.0,
    {
        self.0
    }
}

/// Where a process stands in its life cycle.
#[derive(Clone, Copy, Debug, PartialEq, Eq, Structural)]
pub enum ProcessState {
    /// Eligible to run.
    Ready,
    /// Holding the CPU.
    Running,
    /// Blocked: on the event given, or on a timed delay when there is none.
    Waiting { event: Option<usize> },
}

/// A request that a running process makes of the engine.
#[derive(Clone, Copy, Debug, PartialEq, Eq, Structural)]
pub enum Syscall {
    /// Create a process with the given priority.
    Fork(i8),
    /// Block the caller for the given duration.
    Sleep(usize),
    /// Wait for the given event.
    Wait(usize),
    /// Signal the given event.
    Signal(usize),
    /// Terminate the caller.
    Exit,
}

/// Why the process that was granted the CPU gave it back.
#[derive(Clone, Copy, Debug, PartialEq, Eq, Structural)]
pub enum StopReason {
    /// It made a system call with `remaining` units of its quantum unused.
    Syscall { syscall: Syscall, remaining: usize },
    /// It used its quantum up.
    Expired,
}

/// What the driver is to do next.
#[derive(Clone, Copy, Debug, PartialEq, Eq, Structural)]
pub enum SchedulingDecision {
    /// Run process `pid` for at most `timeslice` units; `timeslice` is positive.
    Run { pid: Pid, timeslice: usize },
    /// Nothing is ready: let the given positive duration pass.
    Sleep(usize),
    /// No process is left in either queue.
    Done,
    /// Processes are ready to run, but the first process is in neither queue.
    Panic,
}

/// The engine's answer to a stop report.
#[derive(Clone, Copy, Debug, PartialEq, Eq, Structural)]
pub enum SyscallResult {
    /// A process was created; this is its identifier.
    Pid(Pid),
    /// The report was handled.
    Success,
}

} // verus!
