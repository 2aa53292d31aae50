//! The engine as a mathematical state machine.
//!
//! A [`SchedulerModel`] is one state of the engine. [`SchedulerModel::next_step`]
//! and [`SchedulerModel::stop_step`] say what a decision request and a stop
//! report do to it, and [`SchedulerModel::wf`] says which states are sound.

use vstd::prelude::*;
use crate::process::ProcessModel;
use crate::vocabulary::{Pid, ProcessState, SchedulingDecision, StopReason, Syscall, SyscallResult};

verus! {

/// One state of the engine.
pub struct SchedulerModel {
    /// The records of the live processes, in the order in which they are stored.
    pub processes: Seq<ProcessModel>,
    /// The processes that may run, the next one to run first.
    pub ready: Seq<Pid>,
    /// The processes in a timed delay, in the order in which they began it.
    pub sleeping: Seq<Pid>,
    /// The size of a whole quantum.
    pub timeslice: nat,
    /// A process whose quantum has less than this left is passed over once.
    pub min_remaining: nat,
    /// How many processes were created so far.
    pub nr_processes: nat,
    /// The simulated time that has passed.
    pub time: nat,
}

impl SchedulerModel {
    /// The engine before anything has happened.
    pub open spec fn initial(timeslice: nat, min_remaining: nat) -> SchedulerModel {
        SchedulerModel {
            processes: Seq::empty(),
            ready: Seq::empty(),
            sleeping: Seq::empty(),
            timeslice,
            min_remaining,
            nr_processes: 0,
            time: 0,
        }
    }

    /// The identifiers of the live processes, in storage order.
    pub open spec fn pids(self) -> Seq<Pid> {
        self.processes.map_values(|p: ProcessModel| p.pid)
    }

    /// Whether a record exists for `pid`.
    pub open spec fn is_live(self, pid: Pid) -> bool {
        self.pids().contains(pid)
    }

    /// Where the record of `pid` is stored.
    pub open spec fn position(self, pid: Pid) -> int {
        self.pids().index_of(pid)
    }

    /// The record of `pid`.
    pub open spec fn process(self, pid: Pid) -> ProcessModel {
        self.processes[self.position(pid)]
    }

    /// The same state with `p` in place of the record that has `p`'s identifier.
    pub open spec fn put(self, p: ProcessModel) -> SchedulerModel {
        SchedulerModel {
            processes: self.processes.map_values(
                |q: ProcessModel|
                    if q.pid == p.pid {
                        p
                    } else {
                        q
                    },
            ),
            ..self
        }
    }

    /// What must hold of the record `p` in this state.
    pub open spec fn process_ok(self, p: ProcessModel) -> bool {
        &&& 1 <= p.pid.0 <= self.nr_processes
        &&& p.remaining <= self.timeslice
        &&& p.total_time == self.timeslice
        &&& p.fits()
        &&& self.sleeping.contains(p.pid) ==> p.sleep_time > 0
        &&& p.state == ProcessState::Running ==> {
            &&& self.ready.len() > 0
            &&& self.ready[0] == p.pid
            &&& p.sleep_time == 0
        }
    }

    /// Whether no process holds the CPU.
    pub open spec fn idle(self) -> bool {
        forall|i: int|
            0 <= i < self.processes.len() ==> (#[trigger] self.processes[i]).state
                != ProcessState::Running
    }

    /// The sound states: the quantum is positive, no identifier has two
    /// records, every live process stands exactly once in exactly one of the
    /// two queues, the queues hold live processes only, no process has more
    /// than a whole quantum left, a process in the sleep queue has a positive
    /// delay, only the head of the ready queue may hold the CPU, and every
    /// counter fits a machine word.
    pub open spec fn wf(self) -> bool {
        &&& 0 < self.timeslice <= usize::MAX
        &&& self.min_remaining <= usize::MAX
        &&& self.nr_processes <= usize::MAX
        &&& self.time <= usize::MAX
        &&& self.pids().no_duplicates()
        &&& self.ready.no_duplicates()
        &&& self.sleeping.no_duplicates()
        &&& forall|pid: Pid| #[trigger] self.ready.contains(pid) ==> self.is_live(pid)
        &&& forall|pid: Pid| #[trigger] self.sleeping.contains(pid) ==> self.is_live(pid)
        &&& forall|pid: Pid| #[trigger]
            self.is_live(pid) ==> (self.ready.contains(pid) <==> !self.sleeping.contains(pid))
        &&& forall|i: int|
            0 <= i < self.processes.len() ==> self.process_ok(#[trigger] self.processes[i])
    }

    // ------------------------------------------------------------------
    // Asking for a decision
    // ------------------------------------------------------------------

    /// Processes are ready to run although the first process, the one with
    /// identifier 1, is in neither queue.
    pub open spec fn first_process_missing(self) -> bool {
        &&& self.ready.len() > 0
        &&& !self.ready.contains(Pid(1))
        &&& !self.sleeping.contains(Pid(1))
    }

    /// The same state with every process ready.
    pub open spec fn recovered(self) -> SchedulerModel {
        SchedulerModel {
            processes: self.processes.map_values(
                |p: ProcessModel| p.with_state(ProcessState::Ready),
            ),
            ..self
        }
    }

    /// Whether what `p` has left of its quantum is worth a turn.
    pub open spec fn worth_running(self, p: ProcessModel) -> bool {
        p.remaining > 0 && p.remaining >= self.min_remaining
    }

    /// The same state with the head of the ready queue moved to its tail.
    pub open spec fn rotated(self) -> SchedulerModel {
        SchedulerModel { ready: self.ready.drop_first().push(self.ready[0]), ..self }
    }

    /// The state in which the head of the ready queue, its return from a
    /// delay taken note of, holds the CPU.
    pub open spec fn head_granted(self) -> SchedulerModel {
        self.put(self.process(self.ready[0]).woken().with_state(ProcessState::Running))
    }

    /// The state in which the head of the ready queue, its return from a
    /// delay taken note of, was passed over and stands at the tail.
    pub open spec fn head_passed_over(self) -> SchedulerModel {
        self.put(self.process(self.ready[0]).woken().with_state(ProcessState::Ready)).rotated()
    }

    /// The quantum that the head of the ready queue gets when it is granted
    /// the CPU whatever it has left: what it has left after its return from a
    /// delay was taken note of, or a whole quantum if that is nothing.
    pub open spec fn head_quantum(self) -> nat {
        let head = self.process(self.ready[0]).woken();
        if head.remaining > 0 {
            head.remaining
        } else {
            self.timeslice
        }
    }

    /// The state in which the head of the ready queue holds the CPU with the
    /// quantum [`Self::head_quantum`].
    pub open spec fn head_granted_anyway(self) -> SchedulerModel {
        self.put(
            ProcessModel {
                state: ProcessState::Running,
                remaining: self.head_quantum(),
                ..self.process(self.ready[0]).woken()
            },
        )
    }

    /// The state in which the process that began its delay first has moved
    /// to the tail of the ready queue.
    pub open spec fn sleeper_released(self) -> SchedulerModel {
        SchedulerModel {
            ready: self.ready.push(self.sleeping[0]),
            sleeping: self.sleeping.drop_first(),
            ..self
        }
    }

    /// What a request for a decision does: the state it leaves and the
    /// decision it gives.
    ///
    /// * Processes are ready but the first process is in neither queue: every
    ///   process is made ready, and the decision is `Panic`.
    /// * Otherwise, a process is ready: the head of the ready queue runs with
    ///   what it has left of its quantum if that is worth a turn. If it is
    ///   not, the head moves to the tail and the process behind it runs, with
    ///   what it has left or, if that is nothing, with a whole quantum.
    /// * No process is ready but one sleeps: the decision is to let the delay
    ///   of the earliest sleeper pass, and that sleeper moves to the ready
    ///   queue.
    /// * Both queues are empty: `Done`.
    pub open spec fn next_step(self) -> (SchedulerModel, SchedulingDecision) {
        if self.first_process_missing() {
            (self.recovered(), SchedulingDecision::Panic)
        } else if self.ready.len() > 0 {
            let head = self.process(self.ready[0]).woken();
            if self.worth_running(head) {
                (
                    self.head_granted(),
                    SchedulingDecision::Run {
                        pid: self.ready[0],
                        timeslice: head.remaining as usize,
                    },
                )
            } else {
                let turned = self.head_passed_over();
                (
                    turned.head_granted_anyway(),
                    SchedulingDecision::Run {
                        pid: turned.ready[0],
                        timeslice: turned.head_quantum() as usize,
                    },
                )
            }
        } else if self.sleeping.len() > 0 {
            (
                self.sleeper_released(),
                SchedulingDecision::Sleep(self.process(self.sleeping[0]).sleep_time as usize),
            )
        } else {
            (self, SchedulingDecision::Done)
        }
    }

    // ------------------------------------------------------------------
    // Reporting a stop
    // ------------------------------------------------------------------

    /// The record of the process at the head of the ready queue.
    pub open spec fn running(self) -> ProcessModel {
        self.process(self.ready[0])
    }

    /// Whether a process holds the CPU: the head of the ready queue, in state
    /// `Running`.
    pub open spec fn has_running(self) -> bool {
        self.ready.len() > 0 && self.running().state == ProcessState::Running
    }

    /// Whether the shared clocks can take `elapsed` units more: the global
    /// time, and the waiting time of every ready process behind the head of
    /// the queue.
    pub open spec fn charge_fits(self, elapsed: nat) -> bool {
        &&& self.time + elapsed <= usize::MAX
        &&& forall|k: int|
            1 <= k < self.ready.len() ==> {
                let other = self.process(#[trigger] self.ready[k]);
                other.waiting + other.sleep_time + elapsed <= usize::MAX
            }
    }

    /// Whether the running process's own counters can take a system call
    /// made `elapsed` units into its run.
    pub open spec fn syscall_fits(self, elapsed: nat) -> bool {
        &&& self.running().execution + elapsed <= usize::MAX
        &&& self.running().events < usize::MAX
    }

    /// Whether the running process's own clocks can take what it has left
    /// of its quantum.
    pub open spec fn expiry_fits(self) -> bool {
        &&& self.running().waiting + self.running().remaining <= usize::MAX
        &&& self.running().execution + self.running().remaining <= usize::MAX
    }

    /// The stop reports that the engine accepts in this state.
    ///
    /// A report needs a process that holds the CPU, with one exception: a fork
    /// is also accepted while no process does, which is how the first process
    /// comes into being. A system call leaves no more of the quantum unused
    /// than the process had, a delay is positive, and no counter outgrows a
    /// machine word. The counters of a process that exits are not kept and
    /// set no limit.
    pub open spec fn stop_permitted(self, reason: StopReason) -> bool {
        match reason {
            StopReason::Expired => {
                &&& self.has_running()
                &&& self.charge_fits(self.running().remaining)
                &&& self.expiry_fits()
            },
            StopReason::Syscall { syscall, remaining } => {
                &&& if self.has_running() {
                    &&& remaining <= self.running().remaining
                    &&& self.charge_fits(self.elapsed(remaining as nat))
                    &&& syscall is Exit || self.syscall_fits(self.elapsed(remaining as nat))
                } else {
                    syscall is Fork
                }
                &&& syscall is Fork ==> self.nr_processes < usize::MAX
                &&& syscall matches Syscall::Sleep(duration) ==> {
                    &&& duration > 0
                    &&& self.running().waiting + duration <= usize::MAX
                }
            },
        }
    }

    /// The state after the head of the ready queue ran for `elapsed` units
    /// and its record became `head_after`: the global time has advanced by
    /// `elapsed`, and so has the waiting time of every other ready process.
    pub open spec fn charged(self, elapsed: nat, head_after: ProcessModel) -> SchedulerModel {
        SchedulerModel {
            processes: self.processes.map_values(
                |p: ProcessModel|
                    if p.pid == self.ready[0] {
                        head_after
                    } else if self.ready.contains(p.pid) {
                        p.waited(elapsed)
                    } else {
                        p
                    },
            ),
            time: self.time + elapsed,
            ..self
        }
    }

    /// The time that the process at the head of the ready queue ran before a
    /// system call that left `remaining` units of its quantum unused.
    pub open spec fn elapsed(self, remaining: nat) -> nat {
        (self.running().remaining - remaining) as nat
    }

    /// The state after the time before a system call was booked: the call
    /// left `remaining` units of the running process's quantum unused.
    pub open spec fn served(self, remaining: nat) -> SchedulerModel {
        self.charged(
            self.elapsed(remaining),
            self.running().after_syscall(self.elapsed(remaining), remaining),
        )
    }

    /// The identifier that the next process to be created gets.
    pub open spec fn next_pid(self) -> Pid {
        Pid((self.nr_processes + 1) as usize)
    }

    /// The state with one process more: ready, with a whole quantum, stored
    /// last and last in the ready queue.
    pub open spec fn forked(self, priority: i8) -> SchedulerModel {
        SchedulerModel {
            processes: self.processes.push(
                ProcessModel::fresh(self.next_pid(), priority, self.timeslice),
            ),
            ready: self.ready.push(self.next_pid()),
            nr_processes: self.nr_processes + 1,
            ..self
        }
    }

    /// The state in which the head of the ready queue has begun a delay of
    /// `duration` units and stands last in the sleep queue.
    pub open spec fn put_to_sleep(self, duration: nat) -> SchedulerModel {
        SchedulerModel {
            processes: self.put(self.running().asleep(duration)).processes,
            ready: self.ready.drop_first(),
            sleeping: self.sleeping.push(self.ready[0]),
            ..self
        }
    }

    /// The state without the head of the ready queue and without its record.
    pub open spec fn exited(self) -> SchedulerModel {
        SchedulerModel {
            processes: self.processes.remove(self.position(self.ready[0])),
            ready: self.ready.drop_first(),
            ..self
        }
    }

    /// The state after the running process used up what it had left of its
    /// quantum: that time is booked, the process has a whole quantum again and
    /// stands at the tail of the ready queue.
    pub open spec fn expired(self) -> SchedulerModel {
        self.charged(
            self.running().remaining,
            self.running().after_expiry(self.timeslice),
        ).rotated()
    }

    /// The time that a stop report books: what the running process had left
    /// if its quantum expired, what it had left less what is still unused
    /// if it made a system call, and nothing if no process was running.
    pub open spec fn consumed(self, reason: StopReason) -> nat {
        if !self.has_running() {
            0
        } else {
            match reason {
                StopReason::Expired => self.running().remaining,
                StopReason::Syscall { syscall, remaining } => self.elapsed(remaining as nat),
            }
        }
    }

    /// The time that the processes named in `pids` have waited, added up.
    pub open spec fn waiting_sum(self, pids: Seq<Pid>) -> nat
        decreases pids.len(),
    {
        if pids.len() == 0 {
            0
        } else {
            self.waiting_sum(pids.drop_last()) + self.process(pids.last()).waiting
        }
    }

    /// What a stop report that [`Self::stop_permitted`] accepts does: the
    /// state it leaves and the answer it gets.
    ///
    /// * `Expired`: see [`Self::expired`].
    /// * A system call: if a process is running, the time it ran is booked
    ///   first (see [`Self::served`]); a fork that no running process made
    ///   books nothing. Then a fork adds a process and answers with its
    ///   identifier, a sleep moves the caller to the sleep queue, an exit
    ///   removes the caller, and a wait or a signal does nothing more.
    pub open spec fn stop_step(self, reason: StopReason) -> (SchedulerModel, SyscallResult) {
        match reason {
            StopReason::Expired => (self.expired(), SyscallResult::Success),
            StopReason::Syscall { syscall, remaining } => {
                let served = if self.has_running() {
                    self.served(remaining as nat)
                } else {
                    self
                };
                match syscall {
                    Syscall::Fork(priority) => (
                        served.forked(priority),
                        SyscallResult::Pid(served.next_pid()),
                    ),
                    Syscall::Sleep(duration) => (
                        served.put_to_sleep(duration as nat),
                        SyscallResult::Success,
                    ),
                    Syscall::Exit => (served.exited(), SyscallResult::Success),
                    Syscall::Wait(_) => (served, SyscallResult::Success),
                    Syscall::Signal(_) => (served, SyscallResult::Success),
                }
            },
        }
    }
}

} // verus!
