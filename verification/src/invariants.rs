//! Soundness of the state machine: every step leads from a sound state to a
//! sound state.

use vstd::prelude::*;
use crate::model::SchedulerModel;
use crate::process::ProcessModel;
use crate::vocabulary::{Pid, ProcessState, SchedulingDecision, StopReason, Syscall};

verus! {

impl SchedulerModel {
    /// The record stored at `i` is the record of its own identifier.
    pub proof fn lemma_record_at(self, i: int)
        requires
            self.pids().no_duplicates(),
            0 <= i < self.processes.len(),
        ensures
            self.is_live(self.processes[i].pid),
            self.position(self.processes[i].pid) == i,
            self.process(self.processes[i].pid) == self.processes[i],
    {
        let pid = self.processes[i].pid;
        assert(self.pids()[i] == pid);
        let j = self.position(pid);
        assert(0 <= j < self.pids().len() && self.pids()[j] == pid);
    }

    /// A live process has a record, and the record bears its identifier.
    pub proof fn lemma_record_of(self, pid: Pid)
        requires
            self.is_live(pid),
        ensures
            0 <= self.position(pid) < self.processes.len(),
            self.process(pid).pid == pid,
    {
        let j = self.position(pid);
        assert(0 <= j < self.pids().len() && self.pids()[j] == pid);
    }

    /// In a sound state the record of a live process is sound.
    pub proof fn lemma_live_ok(self, pid: Pid)
        requires
            self.wf(),
            self.is_live(pid),
        ensures
            0 <= self.position(pid) < self.processes.len(),
            self.process(pid).pid == pid,
            self.process_ok(self.process(pid)),
    {
        self.lemma_record_of(pid);
    }

    /// Replacing a record leaves the identifiers where they are and changes
    /// the one record only.
    pub proof fn lemma_put(self, p: ProcessModel)
        requires
            self.pids().no_duplicates(),
            self.is_live(p.pid),
        ensures
            self.put(p).pids() == self.pids(),
            self.put(p).processes == self.processes.update(self.position(p.pid), p),
            self.put(p).process(p.pid) == p,
            forall|pid: Pid|
                pid != p.pid && self.is_live(pid) ==> self.put(p).process(pid) == self.process(pid),
    {
        let after = self.put(p);
        self.lemma_record_of(p.pid);
        let at = self.position(p.pid);
        assert(after.pids() =~= self.pids());
        assert forall|i: int| 0 <= i < self.processes.len() implies after.processes[i]
            == self.processes.update(at, p)[i] by {
            if self.processes[i].pid == p.pid {
                self.lemma_record_at(i);
            }
        }
        assert(after.processes =~= self.processes.update(at, p));
        assert forall|pid: Pid| pid != p.pid && self.is_live(pid) implies after.process(pid)
            == self.process(pid) by {
            self.lemma_record_of(pid);
        }
    }

    /// Replacing a record by a sound record for the same process keeps the
    /// state sound.
    pub proof fn lemma_put_wf(self, p: ProcessModel)
        requires
            self.wf(),
            self.is_live(p.pid),
            self.process_ok(p),
        ensures
            self.put(p).wf(),
    {
        self.lemma_put(p);
        let after = self.put(p);
        assert forall|pid: Pid| after.is_live(pid) == self.is_live(pid) by {}
        assert forall|i: int| 0 <= i < after.processes.len() implies after.process_ok(
            #[trigger] after.processes[i],
        ) by {
            assert(self.process_ok(self.processes[i]));
        }
    }

    /// Making every process ready keeps the state sound.
    pub proof fn lemma_recovered_wf(self)
        requires
            self.wf(),
        ensures
            self.recovered().wf(),
    {
        let after = self.recovered();
        assert(after.pids() =~= self.pids());
        assert forall|pid: Pid| after.is_live(pid) == self.is_live(pid) by {}
        assert forall|i: int| 0 <= i < after.processes.len() implies after.process_ok(
            #[trigger] after.processes[i],
        ) by {
            assert(self.process_ok(self.processes[i]));
        }
    }

    /// While no process holds the CPU, moving the head of the ready queue to
    /// its tail keeps the members of the queue and the soundness of the state.
    pub proof fn lemma_rotated_wf(self)
        requires
            self.wf(),
            self.ready.len() > 0,
            self.idle(),
        ensures
            self.rotated().wf(),
            forall|pid: Pid| self.rotated().ready.contains(pid) == self.ready.contains(pid),
    {
        let after = self.rotated();
        let n = self.ready.len() as int;
        assert(after.ready.len() == n);
        assert forall|k: int| 0 <= k < n implies #[trigger] after.ready[k] == self.ready[if k
            == n - 1 {
            0
        } else {
            k + 1
        }] by {}
        assert forall|pid: Pid| after.ready.contains(pid) == self.ready.contains(pid) by {
            if self.ready.contains(pid) {
                let k = self.ready.index_of(pid);
                let t = if k == 0 {
                    n - 1
                } else {
                    k - 1
                };
                assert(after.ready[t] == pid);
            }
            if after.ready.contains(pid) {
                let k = after.ready.index_of(pid);
                assert(after.ready[k] == pid);
                let t = if k == n - 1 {
                    0
                } else {
                    k + 1
                };
                assert(self.ready[t] == pid);
            }
        }
        assert forall|i: int, j: int|
            0 <= i < n && 0 <= j < n && i != j implies after.ready[i] != after.ready[j] by {}
        assert forall|pid: Pid| after.is_live(pid) == self.is_live(pid) by {}
        assert forall|i: int| 0 <= i < after.processes.len() implies after.process_ok(
            #[trigger] after.processes[i],
        ) by {
            assert(self.process_ok(self.processes[i]));
        }
    }

    /// While nothing is ready, moving the earliest sleeper to the ready queue
    /// keeps the state sound.
    pub proof fn lemma_sleeper_released_wf(self)
        requires
            self.wf(),
            self.ready.len() == 0,
            self.sleeping.len() > 0,
        ensures
            self.sleeper_released().wf(),
    {
        let after = self.sleeper_released();
        let released = self.sleeping[0];
        assert(self.sleeping.contains(released));
        lemma_drop_first(self.sleeping);
        lemma_push(self.ready, released);
        assert forall|pid: Pid| after.is_live(pid) == self.is_live(pid) by {}
        assert forall|i: int| 0 <= i < after.processes.len() implies after.process_ok(
            #[trigger] after.processes[i],
        ) by {
            assert(self.process_ok(self.processes[i]));
        }
    }

    /// No process holds the CPU unless the head of the ready queue does.
    pub proof fn lemma_idle_unless_head_runs(self)
        requires
            self.wf(),
            self.ready.len() > 0 ==> self.running().state != ProcessState::Running,
        ensures
            self.idle(),
    {
        assert forall|i: int| 0 <= i < self.processes.len() implies (#[trigger] self.processes[i]).state
            != ProcessState::Running by {
            assert(self.process_ok(self.processes[i]));
            self.lemma_record_at(i);
        }
    }

    /// The record of a ready process, its return from a delay taken note of,
    /// is sound in any state but `Running`, and in that state too if the
    /// process is the head of the ready queue.
    pub proof fn lemma_woken_ok(self, pid: Pid, state: ProcessState)
        requires
            self.wf(),
            self.ready.contains(pid),
            state == ProcessState::Running ==> self.ready[0] == pid,
        ensures
            self.process_ok(self.process(pid).woken().with_state(state)),
            self.process(pid).woken().pid == pid,
            self.process(pid).woken().remaining <= self.timeslice,
            self.process(pid).woken().sleep_time == 0,
    {
        self.lemma_live_ok(pid);
    }

    /// Passing the head of the ready queue over leaves a sound state.
    pub proof fn lemma_head_passed_over_wf(self)
        requires
            self.wf(),
            self.ready.len() > 0,
        ensures
            self.head_passed_over().wf(),
            self.head_passed_over().ready.len() == self.ready.len(),
            self.head_passed_over().sleeping == self.sleeping,
            self.head_passed_over().pids() == self.pids(),
            forall|pid: Pid| self.head_passed_over().ready.contains(pid) == self.ready.contains(pid),
    {
        let first = self.ready[0];
        assert(self.ready.contains(first));
        self.lemma_woken_ok(first, ProcessState::Ready);
        let head = self.process(first).woken();
        self.lemma_put(head.with_state(ProcessState::Ready));
        self.lemma_put_wf(head.with_state(ProcessState::Ready));
        self.put(head.with_state(ProcessState::Ready)).lemma_idle_unless_head_runs();
        self.put(head.with_state(ProcessState::Ready)).lemma_rotated_wf();
    }

    /// What a request for a decision does not do, and what its decision
    /// tells.
    ///
    /// * It never advances the time, and never creates or removes a process.
    /// * `Panic` is decided exactly if processes are ready while the first
    ///   process is in neither queue, and `Done` exactly if both queues are
    ///   empty.
    /// * `Sleep` is decided exactly if nothing is ready and a process sleeps;
    ///   the duration is positive, and the earliest sleeper, and nothing
    ///   else, changes queues.
    /// * Any other decision leaves the sleep queue as it is and the ready
    ///   queue with the members it had.
    /// * `Run` names the head of the ready queue, which then runs with
    ///   exactly the quantum granted, and the quantum is positive.
    pub proof fn lemma_next_step_decides(self)
        requires
            self.wf(),
        ensures
            self.next_step().0.time == self.time,
            self.next_step().0.pids() == self.pids(),
            self.next_step().1 is Panic <==> self.first_process_missing(),
            self.next_step().1 is Done <==> self.ready.len() == 0 && self.sleeping.len() == 0,
            self.next_step().1 is Sleep <==> self.ready.len() == 0 && self.sleeping.len() > 0,
            self.next_step().1 matches SchedulingDecision::Sleep(duration) ==> {
                &&& duration > 0
                &&& duration == self.process(self.sleeping[0]).sleep_time
                &&& self.next_step().0 == self.sleeper_released()
            },
            !(self.next_step().1 is Sleep) ==> {
                &&& self.next_step().0.sleeping == self.sleeping
                &&& self.next_step().0.ready.len() == self.ready.len()
                &&& forall|pid: Pid|
                    self.next_step().0.ready.contains(pid) == self.ready.contains(pid)
            },
            self.next_step().1 matches SchedulingDecision::Run { pid, timeslice } ==> {
                &&& timeslice > 0
                &&& self.next_step().0.has_running()
                &&& self.next_step().0.running().pid == pid
                &&& self.next_step().0.running().remaining == timeslice
            },
    {
        if self.first_process_missing() {
            assert(self.recovered().pids() =~= self.pids());
        } else if self.ready.len() > 0 {
            let first = self.ready[0];
            assert(self.ready.contains(first));
            self.lemma_woken_ok(first, ProcessState::Running);
            self.lemma_woken_ok(first, ProcessState::Ready);
            let head = self.process(first).woken();
            if self.worth_running(head) {
                self.lemma_put(head.with_state(ProcessState::Running));
            } else {
                self.lemma_head_passed_over_wf();
                let turned = self.head_passed_over();
                let second = turned.ready[0];
                assert(turned.ready.contains(second));
                turned.lemma_woken_ok(second, ProcessState::Running);
                let granted = ProcessModel {
                    state: ProcessState::Running,
                    remaining: turned.head_quantum(),
                    ..turned.process(second).woken()
                };
                turned.lemma_put(granted);
            }
        } else if self.sleeping.len() > 0 {
            let sleeper = self.sleeping[0];
            assert(self.sleeping.contains(sleeper));
            self.lemma_live_ok(sleeper);
        }
    }

    /// A request for a decision leads from a sound state to a sound state.
    pub proof fn lemma_next_step_wf(self)
        requires
            self.wf(),
        ensures
            self.next_step().0.wf(),
    {
        if self.first_process_missing() {
            self.lemma_recovered_wf();
        } else if self.ready.len() > 0 {
            let first = self.ready[0];
            assert(self.ready.contains(first));
            self.lemma_woken_ok(first, ProcessState::Running);
            self.lemma_woken_ok(first, ProcessState::Ready);
            let head = self.process(first).woken();
            if self.worth_running(head) {
                self.lemma_put_wf(head.with_state(ProcessState::Running));
            } else {
                self.lemma_head_passed_over_wf();
                let turned = self.head_passed_over();
                let second = turned.ready[0];
                assert(turned.ready.contains(second));
                turned.lemma_woken_ok(second, ProcessState::Running);
                turned.lemma_live_ok(second);
                let granted = ProcessModel {
                    state: ProcessState::Running,
                    remaining: turned.head_quantum(),
                    ..turned.process(second).woken()
                };
                assert(turned.process_ok(granted));
                turned.lemma_put_wf(granted);
            }
        } else if self.sleeping.len() > 0 {
            self.lemma_sleeper_released_wf();
        }
    }

    /// Booking `elapsed` units to the head of the ready queue and to those
    /// that wait behind it keeps the state sound, if the clocks can take
    /// them and the head's new record is sound.
    pub proof fn lemma_charged_wf(self, elapsed: nat, head_after: ProcessModel)
        requires
            self.wf(),
            self.ready.len() > 0,
            head_after.pid == self.ready[0],
            self.process_ok(head_after),
            self.time + elapsed <= usize::MAX,
            forall|k: int|
                1 <= k < self.ready.len() ==> {
                    let other = self.process(#[trigger] self.ready[k]);
                    other.waiting + other.sleep_time + elapsed <= usize::MAX
                },
        ensures
            self.charged(elapsed, head_after).wf(),
            self.charged(elapsed, head_after).pids() == self.pids(),
            self.charged(elapsed, head_after).process(self.ready[0]) == head_after,
    {
        let after = self.charged(elapsed, head_after);
        let head = self.ready[0];
        assert(self.ready.contains(head));
        assert(after.pids() =~= self.pids());
        assert forall|pid: Pid| after.is_live(pid) == self.is_live(pid) by {}
        assert forall|i: int| 0 <= i < after.processes.len() implies after.process_ok(
            #[trigger] after.processes[i],
        ) by {
            let p = self.processes[i];
            assert(self.process_ok(p));
            if p.pid != head && self.ready.contains(p.pid) {
                let k = self.ready.index_of(p.pid);
                assert(self.ready[k] == p.pid);
                self.lemma_record_at(i);
            }
        }
        self.lemma_record_of(head);
        assert(after.processes[self.position(head)] == head_after);
    }

    /// Booking time to the queue comes to the same whether the head's record
    /// is replaced first or in the same stroke.
    pub proof fn lemma_put_then_charged(self, elapsed: nat, head_after: ProcessModel)
        requires
            self.pids().no_duplicates(),
            self.ready.len() > 0,
            self.is_live(self.ready[0]),
            head_after.pid == self.ready[0],
        ensures
            self.put(head_after).running() == head_after,
            self.put(head_after).charged(elapsed, head_after) == self.charged(elapsed, head_after),
    {
        self.lemma_put(head_after);
        assert(self.put(head_after).charged(elapsed, head_after).processes =~= self.charged(
            elapsed,
            head_after,
        ).processes);
    }

    /// Creating a process keeps the state sound.
    pub proof fn lemma_forked_wf(self, priority: i8)
        requires
            self.wf(),
            self.nr_processes < usize::MAX,
        ensures
            self.forked(priority).wf(),
            !self.is_live(self.next_pid()),
    {
        let after = self.forked(priority);
        let pid = self.next_pid();
        assert(pid.0 == self.nr_processes + 1);
        if self.is_live(pid) {
            self.lemma_live_ok(pid);
        }
        assert(!self.ready.contains(pid));
        assert(!self.sleeping.contains(pid));
        lemma_push(self.ready, pid);
        assert(after.pids() =~= self.pids().push(pid));
        lemma_push(self.pids(), pid);
        assert forall|other: Pid| after.is_live(other) == (self.is_live(other) || other == pid) by {}
        assert forall|i: int| 0 <= i < after.processes.len() implies after.process_ok(
            #[trigger] after.processes[i],
        ) by {
            if i < self.processes.len() {
                assert(self.process_ok(self.processes[i]));
            }
        }
    }

    /// Sending the head of the ready queue into a positive delay keeps the
    /// state sound, if the delay fits on top of the time it has waited.
    pub proof fn lemma_put_to_sleep_wf(self, duration: nat)
        requires
            self.wf(),
            self.ready.len() > 0,
            duration > 0,
            self.running().waiting + duration <= usize::MAX,
        ensures
            self.put_to_sleep(duration).wf(),
    {
        let after = self.put_to_sleep(duration);
        let head = self.ready[0];
        assert(self.ready.contains(head));
        self.lemma_live_ok(head);
        self.lemma_put(self.running().asleep(duration));
        lemma_drop_first(self.ready);
        lemma_push(self.sleeping, head);
        assert(after.pids() == self.pids());
        assert forall|pid: Pid| after.is_live(pid) == self.is_live(pid) by {}
        assert forall|i: int| 0 <= i < after.processes.len() implies after.process_ok(
            #[trigger] after.processes[i],
        ) by {
            assert(self.process_ok(self.processes[i]));
            if self.processes[i].pid == head {
                self.lemma_record_at(i);
            }
        }
    }

    /// Removing the head of the ready queue and its record keeps the state
    /// sound.
    pub proof fn lemma_exited_wf(self)
        requires
            self.wf(),
            self.ready.len() > 0,
        ensures
            self.exited().wf(),
            !self.exited().is_live(self.ready[0]),
    {
        let after = self.exited();
        let head = self.ready[0];
        assert(self.ready.contains(head));
        self.lemma_live_ok(head);
        let at = self.position(head);
        lemma_drop_first(self.ready);
        assert(after.pids() =~= self.pids().remove(at));
        assert forall|i: int| 0 <= i < after.processes.len() implies #[trigger] after.processes[i]
            == self.processes[if i < at {
            i
        } else {
            i + 1
        }] by {}
        assert forall|pid: Pid| after.is_live(pid) == (self.is_live(pid) && pid != head) by {
            if self.is_live(pid) && pid != head {
                self.lemma_record_of(pid);
                let k = self.position(pid);
                let t = if k < at {
                    k
                } else {
                    k - 1
                };
                assert(after.pids()[t] == pid);
            }
            if after.is_live(pid) {
                after.lemma_record_of(pid);
                let k = after.position(pid);
                let t = if k < at {
                    k
                } else {
                    k + 1
                };
                assert(self.pids()[t] == pid);
            }
        }
        assert forall|i: int, j: int|
            0 <= i < after.pids().len() && 0 <= j < after.pids().len() && i
                != j implies after.pids()[i] != after.pids()[j] by {
            let a = if i < at {
                i
            } else {
                i + 1
            };
            let b = if j < at {
                j
            } else {
                j + 1
            };
            assert(after.pids()[i] == self.pids()[a]);
            assert(after.pids()[j] == self.pids()[b]);
        }
        assert forall|i: int| 0 <= i < after.processes.len() implies after.process_ok(
            #[trigger] after.processes[i],
        ) by {
            let t = if i < at {
                i
            } else {
                i + 1
            };
            assert(self.process_ok(self.processes[t]));
            self.lemma_record_at(t);
        }
    }

    /// What was booked to the head of the ready queue is of no account once
    /// the head has exited.
    pub proof fn lemma_exit_forgets_booking(self, elapsed: nat, head_after: ProcessModel)
        requires
            self.pids().no_duplicates(),
            self.ready.len() > 0,
            self.is_live(self.ready[0]),
            head_after.pid == self.ready[0],
        ensures
            self.charged(elapsed, head_after).exited() == self.charged(
                elapsed,
                self.running(),
            ).exited(),
    {
        let head = self.ready[0];
        self.lemma_record_of(head);
        let booked = self.charged(elapsed, head_after);
        let plain = self.charged(elapsed, self.running());
        assert(booked.pids() =~= self.pids());
        assert(plain.pids() =~= self.pids());
        let at = self.position(head);
        assert forall|i: int| 0 <= i < self.processes.len() && i != at implies booked.processes[i]
            == plain.processes[i] by {
            self.lemma_record_at(i);
        }
        assert(booked.exited().processes =~= plain.exited().processes);
    }

    /// A stop report that the engine accepts leads from a sound state to a
    /// sound state.
    pub proof fn lemma_stop_step_wf(self, reason: StopReason)
        requires
            self.wf(),
            self.stop_permitted(reason),
        ensures
            self.stop_step(reason).0.wf(),
    {
        match reason {
            StopReason::Expired => {
                let head = self.ready[0];
                assert(self.ready.contains(head));
                self.lemma_live_ok(head);
                let used = self.running().remaining;
                let head_after = self.running().after_expiry(self.timeslice);
                self.lemma_charged_wf(used, head_after);
                self.charged(used, head_after).lemma_idle_unless_head_runs();
                self.charged(used, head_after).lemma_rotated_wf();
            },
            StopReason::Syscall { syscall, remaining } => {
                let served = if self.has_running() {
                    self.served(remaining as nat)
                } else {
                    self
                };
                let elapsed = self.elapsed(remaining as nat);
                if self.has_running() {
                    let head = self.ready[0];
                    assert(self.ready.contains(head));
                    self.lemma_live_ok(head);
                    if syscall is Exit {
                        let head_after = self.running().after_syscall(elapsed, remaining as nat);
                        self.lemma_exit_forgets_booking(elapsed, head_after);
                        self.lemma_charged_wf(elapsed, self.running());
                        self.charged(elapsed, self.running()).lemma_exited_wf();
                    } else {
                        let head_after = self.running().after_syscall(elapsed, remaining as nat);
                        self.lemma_charged_wf(elapsed, head_after);
                        assert(served.running() == head_after);
                    }
                }
                match syscall {
                    Syscall::Fork(priority) => {
                        served.lemma_forked_wf(priority);
                    },
                    Syscall::Sleep(duration) => {
                        served.lemma_put_to_sleep_wf(duration as nat);
                    },
                    Syscall::Exit => {},
                    Syscall::Wait(_) => {},
                    Syscall::Signal(_) => {},
                }
            },
        }
    }
}

/// A queue without its head: what it holds, and that it still holds nothing
/// twice.
pub proof fn lemma_drop_first(queue: Seq<Pid>)
    requires
        queue.no_duplicates(),
        queue.len() > 0,
    ensures
        queue.drop_first().no_duplicates(),
        forall|pid: Pid|
            #[trigger] queue.drop_first().contains(pid) == (queue.contains(pid) && pid != queue[0]),
{
    let rest = queue.drop_first();
    assert forall|pid: Pid| #[trigger] rest.contains(pid) == (queue.contains(pid) && pid
        != queue[0]) by {
        if queue.contains(pid) && pid != queue[0] {
            let k = queue.index_of(pid);
            assert(rest[k - 1] == pid);
        }
        if rest.contains(pid) {
            let k = rest.index_of(pid);
            assert(queue[k + 1] == pid);
        }
    }
    assert forall|i: int, j: int|
        0 <= i < rest.len() && 0 <= j < rest.len() && i != j implies rest[i] != rest[j] by {
        assert(rest[i] == queue[i + 1]);
        assert(rest[j] == queue[j + 1]);
    }
}

/// What a queue with one identifier more at its tail holds.
pub proof fn lemma_push_holds(queue: Seq<Pid>, new: Pid)
    ensures
        forall|pid: Pid| #[trigger] queue.push(new).contains(pid) == (queue.contains(pid) || pid == new),
{
    let longer = queue.push(new);
    assert forall|pid: Pid| #[trigger] longer.contains(pid) == (queue.contains(pid) || pid
        == new) by {
        if queue.contains(pid) {
            let k = queue.index_of(pid);
            assert(longer[k] == pid);
        }
        if pid == new {
            assert(longer[queue.len() as int] == pid);
        }
        if longer.contains(pid) && pid != new {
            let k = longer.index_of(pid);
            assert(queue[k] == pid);
        }
    }
}

/// A queue with one identifier more at its tail holds nothing twice if the
/// identifier is new to it.
pub proof fn lemma_push(queue: Seq<Pid>, new: Pid)
    requires
        queue.no_duplicates(),
        !queue.contains(new),
    ensures
        queue.push(new).no_duplicates(),
        forall|pid: Pid| #[trigger] queue.push(new).contains(pid) == (queue.contains(pid) || pid == new),
{
    let longer = queue.push(new);
    lemma_push_holds(queue, new);
    assert forall|i: int, j: int|
        0 <= i < longer.len() && 0 <= j < longer.len() && i != j implies longer[i] != longer[j] by {
        if i < queue.len() {
            assert(queue.contains(longer[i]));
        }
        if j < queue.len() {
            assert(queue.contains(longer[j]));
        }
    }
}

} // verus!
