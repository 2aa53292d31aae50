//! What holds of the engine: that its state stays sound whatever a driver
//! does, how a stop report moves the clocks, where an expired process ends
//! up, and how a process with too little left of its quantum is passed over.

use vstd::prelude::*;
use crate::invariants::lemma_drop_first;
use crate::model::SchedulerModel;
use crate::process::ProcessModel;
use crate::vocabulary::{
    Pid, ProcessState, SchedulingDecision, StopReason, Syscall, SyscallResult,
};

verus! {

/// One call that a driver makes.
pub enum Call {
    /// A request for a decision.
    Next,
    /// A stop report.
    Stop(StopReason),
}

impl SchedulerModel {
    /// Whether the engine accepts `call` in this state. A request for a
    /// decision is always accepted.
    pub open spec fn accepts(self, call: Call) -> bool {
        match call {
            Call::Next => true,
            Call::Stop(reason) => self.stop_permitted(reason),
        }
    }

    /// The state that `call` leaves.
    pub open spec fn after(self, call: Call) -> SchedulerModel {
        match call {
            Call::Next => self.next_step().0,
            Call::Stop(reason) => self.stop_step(reason).0,
        }
    }

    /// The state that the calls in `calls` leave, made one after the other.
    pub open spec fn after_all(self, calls: Seq<Call>) -> SchedulerModel
        decreases calls.len(),
    {
        if calls.len() == 0 {
            self
        } else {
            self.after_all(calls.drop_last()).after(calls.last())
        }
    }

    /// Whether the engine accepts each of `calls` in the state in which it
    /// is made.
    pub open spec fn accepts_all(self, calls: Seq<Call>) -> bool
        decreases calls.len(),
    {
        calls.len() == 0 || (self.accepts_all(calls.drop_last()) && self.after_all(
            calls.drop_last(),
        ).accepts(calls.last()))
    }

    /// The state after `n` requests for a decision in a row.
    pub open spec fn after_decisions(self, n: nat) -> SchedulerModel
        decreases n,
    {
        if n == 0 {
            self
        } else {
            self.after_decisions((n - 1) as nat).next_step().0
        }
    }

    /// In a sound state a process is live exactly if a queue holds it, no
    /// process is in both queues, and no queue holds a process twice.
    pub proof fn theorem_live_in_exactly_one_queue(self, pid: Pid)
        requires
            self.wf(),
        ensures
            self.is_live(pid) <==> (self.ready.contains(pid) || self.sleeping.contains(pid)),
            !(self.ready.contains(pid) && self.sleeping.contains(pid)),
            self.ready.no_duplicates(),
            self.sleeping.no_duplicates(),
    {
    }

    /// In a sound state at most one process holds the CPU: the head of the
    /// ready queue, and it is in no delay.
    pub proof fn theorem_only_the_head_runs(self, pid: Pid)
        requires
            self.wf(),
            self.is_live(pid),
            self.process(pid).state == ProcessState::Running,
        ensures
            self.ready.len() > 0,
            pid == self.ready[0],
            self.process(pid).sleep_time == 0,
    {
        self.lemma_live_ok(pid);
    }

    /// Whatever calls a driver makes of a new engine, as long as the engine
    /// accepts each of them, the state stays sound: between any two calls
    /// every live process stands exactly once in exactly one of the queues.
    pub proof fn theorem_sound_after_all(timeslice: nat, min_remaining: nat, calls: Seq<Call>)
        requires
            0 < timeslice <= usize::MAX,
            min_remaining <= usize::MAX,
            Self::initial(timeslice, min_remaining).accepts_all(calls),
        ensures
            Self::initial(timeslice, min_remaining).after_all(calls).wf(),
            ({
                let state = Self::initial(timeslice, min_remaining).after_all(calls);
                &&& state.ready.no_duplicates()
                &&& state.sleeping.no_duplicates()
                &&& forall|pid: Pid|
                    #[trigger] state.is_live(pid) ==> (state.ready.contains(pid)
                        <==> !state.sleeping.contains(pid))
                &&& forall|pid: Pid| #[trigger] state.ready.contains(pid) ==> state.is_live(pid)
                &&& forall|pid: Pid| #[trigger] state.sleeping.contains(pid) ==> state.is_live(pid)
            }),
        decreases calls.len(),
    {
        let start = Self::initial(timeslice, min_remaining);
        if calls.len() == 0 {
            assert(start.pids() =~= Seq::<Pid>::empty());
        } else {
            Self::theorem_sound_after_all(timeslice, min_remaining, calls.drop_last());
            let before = start.after_all(calls.drop_last());
            match calls.last() {
                Call::Next => {
                    before.lemma_next_step_wf();
                },
                Call::Stop(reason) => {
                    before.lemma_stop_step_wf(reason);
                },
            }
        }
    }

    /// What booking time does to the record of a live process.
    pub proof fn lemma_charged_process(self, elapsed: nat, head_after: ProcessModel, pid: Pid)
        requires
            self.pids().no_duplicates(),
            self.is_live(pid),
            self.ready.len() > 0,
            head_after.pid == self.ready[0],
        ensures
            self.charged(elapsed, head_after).is_live(pid),
            self.charged(elapsed, head_after).process(pid) == (if pid == self.ready[0] {
                head_after
            } else if self.ready.contains(pid) {
                self.process(pid).waited(elapsed)
            } else {
                self.process(pid)
            }),
    {
        assert(self.charged(elapsed, head_after).pids() =~= self.pids());
        self.lemma_record_of(pid);
    }

    /// Creating a process leaves the records of the others as they are.
    pub proof fn lemma_forked_process(self, priority: i8, pid: Pid)
        requires
            self.wf(),
            self.nr_processes < usize::MAX,
            self.is_live(pid),
        ensures
            self.forked(priority).is_live(pid),
            self.forked(priority).process(pid) == self.process(pid),
    {
        let after = self.forked(priority);
        self.lemma_forked_wf(priority);
        self.lemma_record_of(pid);
        let at = self.position(pid);
        assert(after.processes[at] == self.processes[at]);
        after.lemma_record_at(at);
    }

    /// Removing the head of the ready queue leaves the records of the
    /// others as they are.
    pub proof fn lemma_exited_process(self, pid: Pid)
        requires
            self.wf(),
            self.ready.len() > 0,
            self.is_live(pid),
            pid != self.ready[0],
        ensures
            self.exited().is_live(pid),
            self.exited().process(pid) == self.process(pid),
    {
        let after = self.exited();
        let head = self.ready[0];
        assert(self.ready.contains(head));
        self.lemma_exited_wf();
        self.lemma_record_of(pid);
        self.lemma_record_of(head);
        let at = self.position(pid);
        let gone = self.position(head);
        let now = if at < gone {
            at
        } else {
            at - 1
        };
        assert(after.processes[now] == self.processes[at]);
        after.lemma_record_at(now);
    }

    /// A stop report leaves every process but the running one live, and
    /// changes nothing in its record but the time waited: that grows by the
    /// time booked if the process is ready, and not at all if it sleeps.
    /// Where no process is running, no time is booked.
    pub proof fn theorem_stop_charges_waiting_only(self, reason: StopReason, pid: Pid)
        requires
            self.wf(),
            self.stop_permitted(reason),
            self.is_live(pid),
            self.has_running() ==> pid != self.ready[0],
        ensures
            self.stop_step(reason).0.is_live(pid),
            self.stop_step(reason).0.process(pid) == (if self.ready.contains(pid) {
                self.process(pid).waited(self.consumed(reason))
            } else {
                self.process(pid)
            }),
    {
        match reason {
            StopReason::Expired => {
                let head = self.ready[0];
                assert(self.ready.contains(head));
                self.lemma_live_ok(head);
                let head_after = self.running().after_expiry(self.timeslice);
                self.lemma_charged_process(self.running().remaining, head_after, pid);
                assert(self.expired().pids() == self.charged(
                    self.running().remaining,
                    head_after,
                ).pids());
            },
            StopReason::Syscall { syscall, remaining } => {
                let served = if self.has_running() {
                    self.served(remaining as nat)
                } else {
                    self
                };
                if self.has_running() {
                    let head = self.ready[0];
                    assert(self.ready.contains(head));
                    self.lemma_live_ok(head);
                    let elapsed = self.elapsed(remaining as nat);
                    let head_after = self.running().after_syscall(elapsed, remaining as nat);
                    self.lemma_charged_process(elapsed, head_after, pid);
                    if syscall is Exit {
                        self.lemma_exit_forgets_booking(elapsed, head_after);
                        self.lemma_charged_process(elapsed, self.running(), pid);
                        self.lemma_charged_wf(elapsed, self.running());
                        self.charged(elapsed, self.running()).lemma_exited_process(pid);
                    } else {
                        self.lemma_charged_wf(elapsed, head_after);
                    }
                } else {
                    assert(self.process(pid).waited(0) == self.process(pid));
                }
                match syscall {
                    Syscall::Fork(priority) => {
                        served.lemma_forked_process(priority, pid);
                    },
                    Syscall::Sleep(duration) => {
                        let head = served.ready[0];
                        assert(served.ready.contains(head));
                        served.lemma_put(served.running().asleep(duration as nat));
                        assert(served.put_to_sleep(duration as nat).pids() == served.pids());
                        assert(served.put_to_sleep(duration as nat).process(pid) == served.put(
                            served.running().asleep(duration as nat),
                        ).process(pid));
                    },
                    Syscall::Exit => {},
                    Syscall::Wait(_) => {},
                    Syscall::Signal(_) => {},
                }
            },
        }
    }

    /// If one state has every process named in `pids` waiting `elapsed`
    /// units longer than another, the sums differ by `elapsed` for each name.
    pub proof fn lemma_waiting_sum_grows(self, later: SchedulerModel, pids: Seq<Pid>, elapsed: nat)
        requires
            forall|k: int|
                0 <= k < pids.len() ==> later.process(#[trigger] pids[k]).waiting == self.process(
                    pids[k],
                ).waiting + elapsed,
        ensures
            later.waiting_sum(pids) == self.waiting_sum(pids) + elapsed * pids.len(),
        decreases pids.len(),
    {
        if pids.len() > 0 {
            let shorter = pids.drop_last();
            assert forall|k: int| 0 <= k < shorter.len() implies later.process(
                #[trigger] shorter[k],
            ).waiting == self.process(shorter[k]).waiting + elapsed by {
                assert(shorter[k] == pids[k]);
            }
            self.lemma_waiting_sum_grows(later, shorter, elapsed);
            assert(pids.last() == pids[pids.len() - 1]);
            assert(elapsed * pids.len() == elapsed * shorter.len() + elapsed) by (nonlinear_arith)
                requires
                    pids.len() == shorter.len() + 1,
            ;
        } else {
            assert(elapsed * pids.len() == 0) by (nonlinear_arith)
                requires
                    pids.len() == 0,
            ;
        }
    }

    /// Conservation of time. A stop report advances the global time by
    /// exactly the time it books, and the time waited by the ready processes
    /// behind the running one grows, in sum, by that time for each of them.
    pub proof fn theorem_time_is_conserved(self, reason: StopReason)
        requires
            self.wf(),
            self.stop_permitted(reason),
        ensures
            self.stop_step(reason).0.time == self.time + self.consumed(reason),
            self.ready.len() > 0 ==> self.stop_step(reason).0.waiting_sum(self.ready.drop_first())
                == self.waiting_sum(self.ready.drop_first()) + self.consumed(reason) * (
            self.ready.len() - 1),
    {
        if self.ready.len() > 0 {
            let later = self.stop_step(reason).0;
            let others = self.ready.drop_first();
            lemma_drop_first(self.ready);
            assert forall|k: int| 0 <= k < others.len() implies later.process(
                #[trigger] others[k],
            ).waiting == self.process(others[k]).waiting + self.consumed(reason) by {
                assert(others.contains(others[k]));
                assert(self.ready.contains(others[k]));
                self.theorem_stop_charges_waiting_only(reason, others[k]);
            }
            self.lemma_waiting_sum_grows(later, others, self.consumed(reason));
        }
    }

    /// After its quantum expired, the process that ran has a whole quantum
    /// before it, is ready, and stands at the tail of the ready queue, behind
    /// the others in their old order.
    pub proof fn theorem_expired_goes_to_the_tail(self)
        requires
            self.wf(),
            self.stop_permitted(StopReason::Expired),
        ensures
            self.expired().ready == self.ready.drop_first().push(self.ready[0]),
            self.expired().ready.last() == self.ready[0],
            self.expired().process(self.ready[0]).remaining == self.timeslice,
            self.expired().process(self.ready[0]).state == ProcessState::Ready,
    {
        let head = self.ready[0];
        assert(self.ready.contains(head));
        self.lemma_live_ok(head);
        let head_after = self.running().after_expiry(self.timeslice);
        self.lemma_charged_process(self.running().remaining, head_after, head);
        assert(self.expired().pids() == self.charged(self.running().remaining, head_after).pids());
    }

    /// A fork mints the identifier after the last one minted, which no live
    /// process bears. The new process is ready, has the priority asked for,
    /// a whole quantum and no history, and stands last in the ready queue.
    pub proof fn theorem_fork_adds_a_new_process(self, priority: i8, remaining: usize)
        requires
            self.wf(),
            self.stop_permitted(StopReason::Syscall { syscall: Syscall::Fork(priority), remaining }),
        ensures
            ({
                let reason = StopReason::Syscall { syscall: Syscall::Fork(priority), remaining };
                let later = self.stop_step(reason).0;
                let pid = Pid((self.nr_processes + 1) as usize);
                &&& self.stop_step(reason).1 == SyscallResult::Pid(pid)
                &&& pid.0 == self.nr_processes + 1
                &&& !self.is_live(pid)
                &&& later.is_live(pid)
                &&& later.process(pid) == ProcessModel::fresh(pid, priority, self.timeslice)
                &&& later.ready == self.ready.push(pid)
                &&& later.sleeping == self.sleeping
                &&& later.nr_processes == self.nr_processes + 1
            }),
    {
        let reason = StopReason::Syscall { syscall: Syscall::Fork(priority), remaining };
        let served = if self.has_running() {
            self.served(remaining as nat)
        } else {
            self
        };
        if self.has_running() {
            let head = self.ready[0];
            assert(self.ready.contains(head));
            self.lemma_live_ok(head);
            let elapsed = self.elapsed(remaining as nat);
            self.lemma_charged_wf(elapsed, self.running().after_syscall(elapsed, remaining as nat));
        }
        served.lemma_forked_wf(priority);
        let later = served.forked(priority);
        later.lemma_record_at(served.processes.len() as int);
    }

    /// A sleep moves the running process from the head of the ready queue to
    /// the tail of the sleep queue, blocked on no event and with the delay
    /// asked for; the time it ran is booked, and it keeps what it has left.
    pub proof fn theorem_sleep_moves_to_the_sleep_queue(self, duration: usize, remaining: usize)
        requires
            self.wf(),
            self.stop_permitted(
                StopReason::Syscall { syscall: Syscall::Sleep(duration), remaining },
            ),
        ensures
            ({
                let reason = StopReason::Syscall { syscall: Syscall::Sleep(duration), remaining };
                let later = self.stop_step(reason).0;
                let head = self.ready[0];
                &&& later.ready == self.ready.drop_first()
                &&& later.sleeping == self.sleeping.push(head)
                &&& !later.ready.contains(head)
                &&& later.process(head) == self.running().after_syscall(
                    self.elapsed(remaining as nat),
                    remaining as nat,
                ).asleep(duration as nat)
            }),
    {
        let head = self.ready[0];
        assert(self.ready.contains(head));
        self.lemma_live_ok(head);
        let elapsed = self.elapsed(remaining as nat);
        let head_after = self.running().after_syscall(elapsed, remaining as nat);
        self.lemma_charged_wf(elapsed, head_after);
        let served = self.served(remaining as nat);
        served.lemma_put(head_after.asleep(duration as nat));
        assert(served.put_to_sleep(duration as nat).pids() == served.pids());
        assert(served.put_to_sleep(duration as nat).process(head) == served.put(
            head_after.asleep(duration as nat),
        ).process(head));
        lemma_drop_first(self.ready);
    }

    /// An exit removes the running process from the ready queue and from the
    /// process table, and no other process from either.
    pub proof fn theorem_exit_removes_the_process(self, remaining: usize, pid: Pid)
        requires
            self.wf(),
            self.stop_permitted(StopReason::Syscall { syscall: Syscall::Exit, remaining }),
        ensures
            ({
                let reason = StopReason::Syscall { syscall: Syscall::Exit, remaining };
                let later = self.stop_step(reason).0;
                &&& later.ready == self.ready.drop_first()
                &&& later.sleeping == self.sleeping
                &&& later.is_live(pid) <==> self.is_live(pid) && pid != self.ready[0]
            }),
    {
        let head = self.ready[0];
        assert(self.ready.contains(head));
        self.lemma_live_ok(head);
        let elapsed = self.elapsed(remaining as nat);
        let head_after = self.running().after_syscall(elapsed, remaining as nat);
        self.lemma_exit_forgets_booking(elapsed, head_after);
        self.lemma_charged_wf(elapsed, self.running());
        let served = self.charged(elapsed, self.running());
        served.lemma_exited_wf();
        if served.is_live(pid) && pid != head {
            served.lemma_exited_process(pid);
        }
        let later = served.exited();
        if later.is_live(pid) {
            later.theorem_live_in_exactly_one_queue(pid);
            served.theorem_live_in_exactly_one_queue(pid);
            lemma_drop_first(served.ready);
        }
    }

    /// Asking again changes nothing: while the process at the head of the
    /// ready queue is running and what it has left is worth a turn, a request
    /// for a decision grants it what it has left and leaves the state as it is.
    pub proof fn theorem_decision_is_repeated(self)
        requires
            self.wf(),
            !self.first_process_missing(),
            self.has_running(),
            self.running().sleep_time == 0,
            self.worth_running(self.running()),
        ensures
            self.next_step().0 == self,
            self.next_step().1 == (SchedulingDecision::Run {
                pid: self.ready[0],
                timeslice: self.running().remaining as usize,
            }),
    {
        let head = self.ready[0];
        assert(self.ready.contains(head));
        self.lemma_live_ok(head);
        self.lemma_put(self.running());
        assert(self.next_step().0.processes =~= self.processes);
    }

    /// The minimum-quantum policy. Let the head of the ready queue be a
    /// process that returns from no delay and has less left than the
    /// threshold, and let the process behind it have at least the threshold
    /// left. Then every one of any number of requests for a decision in a row
    /// grants the CPU to the process behind, with at least the threshold, and
    /// with exactly what it has left if it returns from no delay; the process
    /// that was the head stands at the tail with what it had left, untouched.
    pub proof fn theorem_short_quantum_is_passed_over(self, n: nat)
        requires
            self.wf(),
            !self.first_process_missing(),
            self.ready.len() >= 2,
            self.process(self.ready[0]).sleep_time == 0,
            self.process(self.ready[0]).remaining < self.min_remaining,
            self.process(self.ready[1]).remaining >= self.min_remaining,
            n >= 1,
        ensures
            self.after_decisions((n - 1) as nat).next_step().1 matches SchedulingDecision::Run {
                pid,
                timeslice,
            } && pid == self.ready[1] && timeslice >= self.min_remaining && (self.process(
                self.ready[1],
            ).sleep_time == 0 ==> timeslice == self.process(self.ready[1]).remaining),
            self.after_decisions(n).ready == self.ready.drop_first().push(self.ready[0]),
            self.after_decisions(n).process(self.ready[0]).remaining == self.process(
                self.ready[0],
            ).remaining,
    {
        let a = self.ready[0];
        let b = self.ready[1];
        assert(self.ready.contains(a));
        assert(self.ready.contains(b));
        self.lemma_live_ok(a);
        self.lemma_live_ok(b);
        // The first request passes `a` over and grants `b`.
        let passed = self.process(a).woken().with_state(ProcessState::Ready);
        self.lemma_woken_ok(a, ProcessState::Ready);
        self.lemma_put(passed);
        self.lemma_put_wf(passed);
        self.put(passed).lemma_idle_unless_head_runs();
        self.put(passed).lemma_rotated_wf();
        let turned = self.head_passed_over();
        assert(turned.ready =~= self.ready.drop_first().push(a));
        assert(turned.ready[0] == b);
        assert(turned.ready.contains(b));
        assert(turned.process(b) == self.process(b));
        turned.lemma_woken_ok(b, ProcessState::Running);
        let granted = ProcessModel {
            state: ProcessState::Running,
            remaining: turned.head_quantum(),
            ..turned.process(b).woken()
        };
        turned.lemma_put(granted);
        turned.lemma_put_wf(granted);
        let first = self.next_step().0;
        assert(first == turned.put(granted));
        assert(first.process(a) == passed);
        // Every further request finds `b` running and grants it again.
        assert(first.ready.contains(Pid(1)) == self.ready.contains(Pid(1)));
        first.theorem_decision_is_repeated();
        self.lemma_after_decisions_settles(n);
        if n > 1 {
            self.lemma_after_decisions_settles((n - 1) as nat);
        }
    }

    /// Whether this state is what requests for a decision in a row have made
    /// of `start`, where the head of the ready queue fell short, by the time
    /// the process that stood at `j` in `start` holds the CPU: the ready
    /// queue is that of `start` turned by `j` places, none of the processes
    /// that stood behind `j` has been touched, and the process that was the
    /// head is ready and otherwise as it was. If `j` has reached `goal`, the
    /// running process has at least the threshold left.
    pub open spec fn turned_to(self, start: SchedulerModel, j: int, goal: int) -> bool {
        &&& self.wf()
        &&& !self.first_process_missing()
        &&& self.min_remaining == start.min_remaining
        &&& 1 <= j <= goal < start.ready.len()
        &&& self.ready == start.ready.subrange(j, start.ready.len() as int) + start.ready.subrange(
            0,
            j,
        )
        &&& self.has_running()
        &&& self.running().remaining > 0
        &&& j == goal ==> self.running().remaining >= self.min_remaining
        &&& forall|k: int|
            j < k < start.ready.len() ==> self.process(#[trigger] start.ready[k]) == start.process(
                start.ready[k],
            )
        &&& self.process(start.ready[0]) == start.process(start.ready[0]).with_state(
            ProcessState::Ready,
        )
    }

    /// One more request for a decision in a state that [`Self::turned_to`]
    /// describes grants the CPU to the running process again, or passes it
    /// over for the process behind it; the state it leaves is described
    /// likewise.
    pub proof fn lemma_turn(self, start: SchedulerModel, j: int, goal: int) -> (next: int)
        requires
            start.wf(),
            start.min_remaining >= 1,
            self.turned_to(start, j, goal),
            start.process(start.ready[goal]).remaining >= start.min_remaining,
        ensures
            next == j || next == j + 1,
            self.next_step().0.turned_to(start, next, goal),
            self.next_step().1 matches SchedulingDecision::Run { pid, timeslice } && pid
                == start.ready[next] && timeslice == self.next_step().0.running().remaining,
    {
        let len = start.ready.len() as int;
        let a = start.ready[0];
        let h = self.ready[0];
        assert(h == start.ready[j]);
        assert(self.ready.contains(h));
        assert(start.ready.contains(h));
        assert(start.ready.contains(a));
        self.lemma_live_ok(h);
        self.lemma_next_step_wf();
        self.lemma_next_step_decides();
        if self.worth_running(self.running()) {
            self.theorem_decision_is_repeated();
            j
        } else {
            let c = start.ready[j + 1];
            assert(start.ready.contains(c));
            let passed = self.running().woken().with_state(ProcessState::Ready);
            self.lemma_woken_ok(h, ProcessState::Ready);
            self.lemma_put(passed);
            self.lemma_put_wf(passed);
            self.put(passed).lemma_idle_unless_head_runs();
            self.put(passed).lemma_rotated_wf();
            let turned = self.head_passed_over();
            assert(turned.ready =~= start.ready.subrange(j + 1, len) + start.ready.subrange(
                0,
                j + 1,
            ));
            assert(turned.ready[0] == c);
            assert(turned.ready.contains(c));
            turned.lemma_live_ok(c);
            start.lemma_live_ok(c);
            assert(start.ready.contains(start.ready[goal]));
            start.lemma_live_ok(start.ready[goal]);
            assert(turned.process(c) == start.process(c));
            turned.lemma_woken_ok(c, ProcessState::Running);
            let granted = ProcessModel {
                state: ProcessState::Running,
                remaining: turned.head_quantum(),
                ..turned.process(c).woken()
            };
            turned.lemma_put(granted);
            let later = self.next_step().0;
            assert(later == turned.put(granted));
            assert forall|k: int| j + 1 < k < len implies later.process(#[trigger] start.ready[k])
                == start.process(start.ready[k]) by {
                let other = start.ready[k];
                assert(start.ready.contains(other));
                start.lemma_live_ok(other);
                assert(self.ready[k - j] == other);
                assert(self.ready.contains(other));
                self.lemma_live_ok(other);
            }
            assert(later.process(a) == self.process(a)) by {
                assert(self.ready[len - j] == a);
                assert(self.ready.contains(a));
                self.lemma_live_ok(a);
            }
            assert(later.ready.contains(Pid(1)) == self.ready.contains(Pid(1)));
            j + 1
        }
    }

    /// The minimum-quantum policy, with any number of processes in the
    /// queue. Let the head of the ready queue be a process that returns from
    /// no delay and has less left than the threshold, and let some process
    /// behind it, at `goal`, have at least the threshold left. Then none of
    /// any number of requests for a decision in a row offers the CPU to the
    /// process that was the head: each grants it to a process that stood
    /// behind the head and not behind `goal`, and with at least the threshold
    /// if it is the process at `goal`. The process that was the head keeps
    /// what it had left, untouched. The result is the place in the queue of
    /// the process that request `n` grants the CPU to.
    pub proof fn theorem_short_quantum_is_not_offered_again(self, goal: int, n: nat) -> (j: int)
        requires
            self.wf(),
            !self.first_process_missing(),
            1 <= goal < self.ready.len(),
            self.process(self.ready[0]).sleep_time == 0,
            self.process(self.ready[0]).remaining < self.min_remaining,
            self.process(self.ready[goal]).remaining >= self.min_remaining,
            n >= 1,
        ensures
            1 <= j <= goal,
            self.after_decisions((n - 1) as nat).next_step().1 matches SchedulingDecision::Run {
                pid,
                timeslice,
            } && pid == self.ready[j] && pid != self.ready[0] && (j == goal ==> timeslice
                >= self.min_remaining),
            self.after_decisions(n).turned_to(self, j, goal),
            self.after_decisions(n).process(self.ready[0]).remaining == self.process(
                self.ready[0],
            ).remaining,
        decreases n,
    {
        reveal_with_fuel(SchedulerModel::after_decisions, 2);
        let a = self.ready[0];
        let len = self.ready.len() as int;
        assert(self.ready.contains(a));
        self.lemma_live_ok(a);
        if n == 1 {
            let b = self.ready[1];
            assert(self.ready.contains(b));
            self.lemma_live_ok(b);
            assert(self.ready.contains(self.ready[goal]));
            self.lemma_live_ok(self.ready[goal]);
            self.lemma_next_step_wf();
            self.lemma_next_step_decides();
            let passed = self.process(a).woken().with_state(ProcessState::Ready);
            self.lemma_woken_ok(a, ProcessState::Ready);
            self.lemma_put(passed);
            self.lemma_put_wf(passed);
            self.put(passed).lemma_idle_unless_head_runs();
            self.put(passed).lemma_rotated_wf();
            let turned = self.head_passed_over();
            assert(turned.ready =~= self.ready.subrange(1, len) + self.ready.subrange(0, 1));
            assert(turned.ready[0] == b);
            assert(turned.ready.contains(b));
            assert(turned.process(b) == self.process(b));
            turned.lemma_woken_ok(b, ProcessState::Running);
            let granted = ProcessModel {
                state: ProcessState::Running,
                remaining: turned.head_quantum(),
                ..turned.process(b).woken()
            };
            turned.lemma_put(granted);
            let later = self.next_step().0;
            assert(later == turned.put(granted));
            assert forall|k: int| 1 < k < len implies later.process(#[trigger] self.ready[k])
                == self.process(self.ready[k]) by {
                assert(self.ready.contains(self.ready[k]));
                self.lemma_live_ok(self.ready[k]);
            }
            assert(later.ready.contains(Pid(1)) == self.ready.contains(Pid(1)));
            1
        } else {
            let before = self.theorem_short_quantum_is_not_offered_again(goal, (n - 1) as nat);
            let j = self.after_decisions((n - 1) as nat).lemma_turn(self, before, goal);
            assert(self.ready[j] != a);
            j
        }
    }

    /// Once a request for a decision has left the state as it found it, any
    /// number of further requests do so too.
    pub proof fn lemma_after_decisions_settles(self, n: nat)
        requires
            n >= 1,
            self.next_step().0.next_step().0 == self.next_step().0,
        ensures
            self.after_decisions(n) == self.next_step().0,
        decreases n,
    {
        reveal_with_fuel(SchedulerModel::after_decisions, 2);
        if n > 1 {
            self.lemma_after_decisions_settles((n - 1) as nat);
        }
    }
}

} // verus!
