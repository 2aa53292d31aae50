//! Process records and the read-only interface that reports on them.

use vstd::prelude::*;
use crate::vocabulary::{Pid, ProcessState};

verus! {

/// What a process record holds, as mathematical values.
pub struct ProcessModel {
    pub pid: Pid,
    pub state: ProcessState,
    pub priority: i8,
    /// Time spent waiting while the CPU was not its own.
    pub waiting: nat,
    /// Number of system calls served.
    pub events: nat,
    /// Time spent running.
    pub execution: nat,
    /// What is left of the current quantum.
    pub remaining: nat,
    /// Length of the timed delay the process is in or has just left; 0 otherwise.
    pub sleep_time: nat,
    /// The quantum that is restored when the process returns from a delay.
    pub total_time: nat,
}

impl ProcessModel {
    /// A newly created process: ready, with a whole quantum and no history.
    pub open spec fn fresh(pid: Pid, priority: i8, quantum: nat) -> ProcessModel {
        ProcessModel {
            pid,
            state: ProcessState::Ready,
            priority,
            waiting: 0,
            events: 0,
            execution: 0,
            remaining: quantum,
            sleep_time: 0,
            total_time: quantum,
        }
    }

    /// The same process in another state.
    pub open spec fn with_state(self, state: ProcessState) -> ProcessModel {
        ProcessModel { state, ..self }
    }

    /// The process after its return from a timed delay was taken note of: the
    /// quantum is whole again and the delay counts as time waited. A process
    /// that returns from no delay is unchanged.
    pub open spec fn woken(self) -> ProcessModel {
        if self.sleep_time > 0 {
            ProcessModel {
                waiting: self.waiting + self.sleep_time,
                remaining: self.total_time,
                sleep_time: 0,
                ..self
            }
        } else {
            self
        }
    }

    /// The process after it waited `elapsed` units more.
    pub open spec fn waited(self, elapsed: nat) -> ProcessModel {
        ProcessModel { waiting: self.waiting + elapsed, ..self }
    }

    /// The process after a system call that it made `elapsed` units into its
    /// run, with `remaining` units of the quantum unused.
    pub open spec fn after_syscall(self, elapsed: nat, remaining: nat) -> ProcessModel {
        ProcessModel {
            events: self.events + 1,
            execution: self.execution + elapsed,
            remaining,
            ..self
        }
    }

    /// The process after it used up what was left of its quantum: that time is
    /// added to both of its clocks, it is ready again and has the whole
    /// `quantum` before it.
    pub open spec fn after_expiry(self, quantum: nat) -> ProcessModel {
        ProcessModel {
            state: ProcessState::Ready,
            waiting: self.waiting + self.remaining,
            execution: self.execution + self.remaining,
            remaining: quantum,
            ..self
        }
    }

    /// The process at the start of a timed delay of `duration` units.
    pub open spec fn asleep(self, duration: nat) -> ProcessModel {
        ProcessModel {
            state: ProcessState::Waiting { event: None },
            sleep_time: duration,
            ..self
        }
    }

    /// Every counter fits a machine word, and so does the waiting time once a
    /// pending delay is added to it.
    pub open spec fn fits(self) -> bool {
        &&& self.waiting + self.sleep_time <= usize::MAX
        &&& self.events <= usize::MAX
        &&& self.execution <= usize::MAX
        &&& self.remaining <= usize::MAX
        &&& self.total_time <= usize::MAX
    }
}

/// What every scheduling policy reports of a process it manages.
pub trait Process {
    /// The process's identifier.
    fn pid(&self) -> Pid;

    /// Where the process stands in its life cycle.
    fn state(&self) -> ProcessState;

    /// Time waited, system calls served, time run.
    fn timings(&self) -> (usize, usize, usize);

    /// The priority the process was created with.
    fn priority(&self) -> i8;

    /// What else the policy has to say of the process.
    fn extra(&self) -> String;
}

/// A process as the round-robin policy keeps it.
pub struct RoundRobinProcess {
    pid: Pid,
    state: ProcessState,
    priority: i8,
    timings: (usize, usize, usize),
    remaining: usize,
    sleep_time: usize,
    total_time: usize,
}

impl View for RoundRobinProcess {
    type V = ProcessModel;

    closed spec fn view(&self) -> ProcessModel {
        ProcessModel {
            pid: self.pid,
            state: self.state,
            priority: self.priority,
            waiting: self.timings.0 as nat,
            events: self.timings.1 as nat,
            execution: self.timings.2 as nat,
            remaining: self.remaining as nat,
            sleep_time: self.sleep_time as nat,
            total_time: self.total_time as nat,
        }
    }
}

impl RoundRobinProcess {
    /// A process with the given identity and history that is in no delay and
    /// whose quantum is `remaining`.
    pub fn new(
        pid: Pid,
        state: ProcessState,
        priority: i8,
        timings: (usize, usize, usize),
        remaining: usize,
    ) -> (process: Self)
        ensures
            process@ == (ProcessModel {
                pid,
                state,
                priority,
                waiting: timings.0 as nat,
                events: timings.1 as nat,
                execution: timings.2 as nat,
                remaining: remaining as nat,
                sleep_time: 0,
                total_time: remaining as nat,
            }),
    {
        RoundRobinProcess {
            pid,
            state,
            priority,
            timings,
            remaining,
            sleep_time: 0,
            total_time: remaining,
        }
    }

    /// Moves the process to `new_state` and changes nothing else.
    pub fn set_state(&mut self, new_state: ProcessState)
        ensures
            final(self)@ == old(self)@.with_state(new_state),
    {
        self.state = new_state;
    }

    /// What is left of the current quantum.
    pub fn remaining(&self) -> (r: usize)
        ensures
            r == self@.remaining,
    {
        self.remaining
    }

    /// Length of the delay the process is in or has just left.
    pub fn sleep_time(&self) -> (r: usize)
        ensures
            r == self@.sleep_time,
    {
        self.sleep_time
    }

    /// What the process has left of its quantum once its return from a timed
    /// delay is taken note of.
    pub(crate) fn remaining_once_woken(&self) -> (r: usize)
        ensures
            r == self@.woken().remaining,
    {
        if self.sleep_time > 0 {
            self.total_time
        } else {
            self.remaining
        }
    }

    /// Takes note that the process has returned from a timed delay, if it has.
    pub(crate) fn wake(&mut self)
        requires
            old(self)@.waiting + old(self)@.sleep_time <= usize::MAX,
        ensures
            final(self)@ == old(self)@.woken(),
    {
        if self.sleep_time > 0 {
            self.remaining = self.total_time;
            self.timings.0 = self.timings.0 + self.sleep_time;
            self.sleep_time = 0;
        }
    }

    /// Grants the process a quantum of `quantum` units and the CPU.
    pub(crate) fn grant(&mut self, quantum: usize)
        ensures
            final(self)@ == (ProcessModel {
                state: ProcessState::Running,
                remaining: quantum as nat,
                ..old(self)@
            }),
    {
        self.remaining = quantum;
        self.state = ProcessState::Running;
    }

    /// Adds `elapsed` units to the time the process has waited.
    pub(crate) fn wait(&mut self, elapsed: usize)
        requires
            old(self)@.waiting + elapsed <= usize::MAX,
        ensures
            final(self)@ == old(self)@.waited(elapsed as nat),
    {
        self.timings.0 = self.timings.0 + elapsed;
    }

    /// Books a system call made with `remaining` units of the quantum unused.
    pub(crate) fn book_syscall(&mut self, remaining: usize)
        requires
            remaining <= old(self)@.remaining,
            old(self)@.events < usize::MAX,
            old(self)@.execution + old(self)@.remaining - remaining <= usize::MAX,
        ensures
            final(self)@ == old(self)@.after_syscall(
                (old(self)@.remaining - remaining) as nat,
                remaining as nat,
            ),
    {
        let elapsed: usize = self.remaining - remaining;
        self.timings.1 = self.timings.1 + 1;
        self.timings.2 = self.timings.2 + elapsed;
        self.remaining = remaining;
    }

    /// Books the use of all that was left of the quantum and hands out a new
    /// quantum of `quantum` units.
    pub(crate) fn book_expiry(&mut self, quantum: usize)
        requires
            old(self)@.waiting + old(self)@.remaining <= usize::MAX,
            old(self)@.execution + old(self)@.remaining <= usize::MAX,
        ensures
            final(self)@ == old(self)@.after_expiry(quantum as nat),
    {
        self.state = ProcessState::Ready;
        self.timings.2 = self.timings.2 + self.remaining;
        self.timings.0 = self.timings.0 + self.remaining;
        self.remaining = quantum;
    }

    /// Puts the process into a timed delay of `duration` units.
    pub(crate) fn fall_asleep(&mut self, duration: usize)
        ensures
            final(self)@ == old(self)@.asleep(duration as nat),
    {
        self.sleep_time = duration;
        self.state = ProcessState::Waiting { event: None };
    }
}

impl Process for RoundRobinProcess {
    fn pid(&self) -> (pid: Pid)
        ensures
            pid == self@.pid,
    {
        self.pid
    }

    fn state(&self) -> (state: ProcessState)
        ensures
            state == self@.state,
    {
        self.state
    }

    fn timings(&self) -> (timings: (usize, usize, usize))
        ensures
            timings.0 == self@.waiting,
            timings.1 == self@.events,
            timings.2 == self@.execution,
    {
        self.timings
    }

    fn priority(&self) -> (priority: i8)
        ensures
            priority == self@.priority,
    {
        self.priority
    }

    /// The round-robin policy has nothing to add: the text is empty.
    fn extra(&self) -> (text: String)
        ensures
            text@ == Seq::<char>::empty(),
    {
        String::new()
    }
}

} // verus!
