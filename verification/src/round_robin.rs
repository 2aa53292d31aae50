//! The round-robin engine.

use std::collections::VecDeque;
use vstd::prelude::*;
use crate::model::SchedulerModel;
use crate::process::{Process, ProcessModel, RoundRobinProcess};
use crate::vocabulary::{Pid, ProcessState, SchedulingDecision, StopReason, Syscall, SyscallResult};

verus! {

/// A round-robin scheduler for one simulated CPU.
///
/// The driver calls [`RoundRobinScheduler::next`] for a decision, carries it
/// out, and reports with [`RoundRobinScheduler::stop`] how the run ended.
pub struct RoundRobinScheduler {
    processes: Vec<RoundRobinProcess>,
    ready_queue: VecDeque<Pid>,
    sleep_queue: VecDeque<Pid>,
    timeslice: usize,
    minimum_remaining_timeslice: usize,
    nr_processes: usize,
    time: usize,
}

/// The records of a process table as mathematical values.
spec fn records(table: Seq<RoundRobinProcess>) -> Seq<ProcessModel> {
    table.map_values(|p: RoundRobinProcess| p@)
}

impl View for RoundRobinScheduler {
    type V = SchedulerModel;

    closed spec fn view(&self) -> SchedulerModel {
        SchedulerModel {
            processes: records(self.processes@),
            ready: self.ready_queue@,
            sleeping: self.sleep_queue@,
            timeslice: self.timeslice as nat,
            min_remaining: self.minimum_remaining_timeslice as nat,
            nr_processes: self.nr_processes as nat,
            time: self.time as nat,
        }
    }
}

/// Whether `queue` holds `pid`.
fn holds(queue: &VecDeque<Pid>, pid: Pid) -> (found: bool)
    ensures
        found == queue@.contains(pid),
{
    let mut k: usize = 0;
    while k < queue.len()
        invariant
            k <= queue@.len(),
            forall|j: int| 0 <= j < k ==> queue@[j] != pid,
        decreases queue@.len() - k,
    {
        if queue[k] == pid {
            return true;
        }
        k += 1;
    }
    false
}

impl RoundRobinScheduler {
    /// Whether the engine is in a sound state. Every operation keeps it so.
    pub open spec fn wf(&self) -> bool {
        self@.wf()
    }

    /// An engine without processes that hands out quanta of `timeslice`
    /// units and passes over, once, a process that has less than
    /// `minimum_remaining_timeslice` units left.
    pub fn new(timeslice: usize, minimum_remaining_timeslice: usize) -> (scheduler: Self)
        requires
            timeslice > 0,
        ensures
            scheduler.wf(),
            scheduler@ == SchedulerModel::initial(
                timeslice as nat,
                minimum_remaining_timeslice as nat,
            ),
    {
        let scheduler = RoundRobinScheduler {
            processes: Vec::new(),
            ready_queue: VecDeque::new(),
            sleep_queue: VecDeque::new(),
            timeslice,
            minimum_remaining_timeslice,
            nr_processes: 0,
            time: 0,
        };
        proof {
            assert(scheduler@.processes =~= Seq::<ProcessModel>::empty());
            assert(scheduler@.pids() =~= Seq::<Pid>::empty());
        }
        scheduler
    }

    /// The simulated time that has passed.
    pub fn time(&self) -> (time: usize)
        ensures
            time == self@.time,
    {
        self.time
    }

    /// The processes that may run, the next one to run first.
    pub fn ready_queue(&self) -> (queue: &VecDeque<Pid>)
        ensures
            queue@ == self@.ready,
    {
        &self.ready_queue
    }

    /// The processes in a timed delay, in the order in which they began it.
    pub fn sleep_queue(&self) -> (queue: &VecDeque<Pid>)
        ensures
            queue@ == self@.sleeping,
    {
        &self.sleep_queue
    }

    /// Whether `processes` lists the records of this engine in storage order.
    pub open spec fn lists(&self, processes: Seq<&RoundRobinProcess>) -> bool {
        &&& processes.len() == self@.processes.len()
        &&& forall|i: int| 0 <= i < processes.len() ==> (#[trigger] processes[i])@ == self@.processes[i]
    }

    /// The records of the live processes, in the order in which they are
    /// stored. The engine is not changed.
    pub fn list(&self) -> (processes: Vec<&RoundRobinProcess>)
        ensures
            self.lists(processes@),
    {
        let mut processes: Vec<&RoundRobinProcess> = Vec::new();
        let mut i: usize = 0;
        while i < self.processes.len()
            invariant
                i <= self.processes@.len(),
                processes@.len() == i,
                forall|j: int| 0 <= j < i ==> *(#[trigger] processes@[j]) == self.processes@[j],
            decreases self.processes@.len() - i,
        {
            processes.push(&self.processes[i]);
            i += 1;
        }
        processes
    }

    /// Two listings of the same engine hold the same data.
    pub proof fn theorem_listings_agree(
        &self,
        first: Seq<&RoundRobinProcess>,
        second: Seq<&RoundRobinProcess>,
    )
        requires
            self.lists(first),
            self.lists(second),
        ensures
            first.len() == second.len(),
            forall|i: int| 0 <= i < first.len() ==> (#[trigger] first[i])@ == second[i]@,
    {
    }

    /// Where the record of the live process `pid` is stored.
    fn position(&self, pid: Pid) -> (at: usize)
        requires
            self@.pids().no_duplicates(),
            self@.is_live(pid),
        ensures
            at == self@.position(pid),
            at < self.processes@.len(),
            self.processes@[at as int]@.pid == pid,
    {
        proof {
            self@.lemma_record_of(pid);
        }
        let mut at: usize = 0;
        while at < self.processes.len()
            invariant
                at <= self.processes@.len(),
                self@.pids().no_duplicates(),
                0 <= self@.position(pid) < self.processes@.len(),
                self@.process(pid).pid == pid,
                forall|j: int| 0 <= j < at ==> (#[trigger] self.processes@[j])@.pid != pid,
            decreases self.processes@.len() - at,
        {
            if self.processes[at].pid() == pid {
                proof {
                    self@.lemma_record_at(at as int);
                }
                return at;
            }
            at += 1;
        }
        proof {
            let found = self@.position(pid);
            assert(self.processes@[found]@.pid == pid);
        }
        at
    }

    /// Makes every process ready.
    fn make_all_ready(&mut self)
        ensures
            final(self)@ == old(self)@.recovered(),
    {
        let mut i: usize = 0;
        while i < self.processes.len()
            invariant
                i <= self.processes@.len(),
                self.processes@.len() == old(self).processes@.len(),
                forall|j: int|
                    0 <= j < i ==> (#[trigger] self.processes@[j])@ == old(self).processes@[j]@.with_state(
                        ProcessState::Ready,
                    ),
                forall|j: int|
                    i <= j < self.processes@.len() ==> #[trigger] self.processes@[j] == old(
                        self,
                    ).processes@[j],
                self.ready_queue == old(self).ready_queue,
                self.sleep_queue == old(self).sleep_queue,
                self.timeslice == old(self).timeslice,
                self.minimum_remaining_timeslice == old(self).minimum_remaining_timeslice,
                self.nr_processes == old(self).nr_processes,
                self.time == old(self).time,
            decreases self.processes@.len() - i,
        {
            self.processes[i].set_state(ProcessState::Ready);
            i += 1;
        }
        proof {
            assert(self@.processes =~= old(self)@.recovered().processes);
        }
    }

    /// Passes over the process stored at `at`: its return from a delay is
    /// taken note of, and it is ready.
    fn pass_over(&mut self, at: usize)
        requires
            old(self).wf(),
            at < old(self).processes@.len(),
        ensures
            final(self)@ == old(self)@.put(
                old(self).processes@[at as int]@.woken().with_state(ProcessState::Ready),
            ),
    {
        proof {
            assert(old(self)@.process_ok(old(self)@.processes[at as int]));
        }
        self.processes[at].wake();
        self.processes[at].set_state(ProcessState::Ready);
        proof {
            let p = old(self).processes@[at as int]@.woken().with_state(ProcessState::Ready);
            old(self)@.lemma_record_at(at as int);
            old(self)@.lemma_put(p);
            assert(self@.processes =~= old(self)@.processes.update(at as int, p));
        }
    }

    /// Grants the CPU to the process stored at `at`, with a quantum of
    /// `quantum` units: its return from a delay is taken note of, and it runs.
    fn grant(&mut self, at: usize, quantum: usize)
        requires
            old(self).wf(),
            at < old(self).processes@.len(),
        ensures
            final(self)@ == old(self)@.put(
                ProcessModel {
                    state: ProcessState::Running,
                    remaining: quantum as nat,
                    ..old(self).processes@[at as int]@.woken()
                },
            ),
    {
        proof {
            assert(old(self)@.process_ok(old(self)@.processes[at as int]));
        }
        self.processes[at].wake();
        self.processes[at].grant(quantum);
        proof {
            let p = ProcessModel {
                state: ProcessState::Running,
                remaining: quantum as nat,
                ..old(self).processes@[at as int]@.woken()
            };
            old(self)@.lemma_record_at(at as int);
            old(self)@.lemma_put(p);
            assert(self@.processes =~= old(self)@.processes.update(at as int, p));
        }
    }

    /// Moves the head of the ready queue to its tail.
    fn rotate(&mut self)
        requires
            old(self)@.ready.len() > 0,
        ensures
            final(self)@ == old(self)@.rotated(),
    {
        let head = self.ready_queue.pop_front();
        match head {
            Some(pid) => {
                self.ready_queue.push_back(pid);
            },
            None => {},
        }
        proof {
            assert(self@.ready =~= old(self)@.rotated().ready);
        }
    }

    /// Decides what the driver is to do next.
    ///
    /// The state changes and the decision is made as
    /// [`SchedulerModel::next_step`] says. The time does not advance, and no
    /// process is created or removed. Only the decision to sleep moves a
    /// process from one queue to the other. A process that is granted the
    /// CPU is the head of the ready queue, in state `Running`, and has
    /// exactly the granted quantum left.
    pub fn next(&mut self) -> (decision: SchedulingDecision)
        requires
            old(self).wf(),
        ensures
            final(self).wf(),
            final(self)@ == old(self)@.next_step().0,
            decision == old(self)@.next_step().1,
            final(self)@.time == old(self)@.time,
            final(self)@.pids() == old(self)@.pids(),
            decision is Panic <==> old(self)@.first_process_missing(),
            decision is Done <==> old(self)@.ready.len() == 0 && old(self)@.sleeping.len() == 0,
            decision is Sleep <==> old(self)@.ready.len() == 0 && old(self)@.sleeping.len() > 0,
            decision matches SchedulingDecision::Sleep(duration) ==> {
                &&& duration > 0
                &&& duration == old(self)@.process(old(self)@.sleeping[0]).sleep_time
                &&& final(self)@ == old(self)@.sleeper_released()
            },
            !(decision is Sleep) ==> {
                &&& final(self)@.sleeping == old(self)@.sleeping
                &&& final(self)@.ready.len() == old(self)@.ready.len()
                &&& forall|pid: Pid|
                    final(self)@.ready.contains(pid) == old(self)@.ready.contains(pid)
            },
            decision matches SchedulingDecision::Run { pid, timeslice } ==> {
                &&& timeslice > 0
                &&& final(self)@.has_running()
                &&& final(self)@.running().pid == pid
                &&& final(self)@.running().remaining == timeslice
            },
    {
        proof {
            old(self)@.lemma_next_step_wf();
            old(self)@.lemma_next_step_decides();
        }
        if self.ready_queue.len() > 0 {
            if !holds(&self.ready_queue, Pid(1)) && !holds(&self.sleep_queue, Pid(1)) {
                self.make_all_ready();
                return SchedulingDecision::Panic;
            }
            let first = self.ready_queue[0];
            assert(self@.ready.contains(first));
            let at = self.position(first);
            let left = self.processes[at].remaining_once_woken();
            if left > 0 && left >= self.minimum_remaining_timeslice {
                self.grant(at, left);
                return SchedulingDecision::Run { pid: first, timeslice: left };
            }
            self.pass_over(at);
            self.rotate();
            proof {
                old(self)@.lemma_head_passed_over_wf();
            }
            let second = self.ready_queue[0];
            assert(self@.ready.contains(second));
            let behind = self.position(second);
            let left = self.processes[behind].remaining_once_woken();
            let quantum = if left > 0 {
                left
            } else {
                self.timeslice
            };
            self.grant(behind, quantum);
            return SchedulingDecision::Run { pid: second, timeslice: quantum };
        }
        if self.sleep_queue.len() > 0 {
            let sleeper = self.sleep_queue[0];
            assert(self@.sleeping.contains(sleeper));
            let at = self.position(sleeper);
            let duration = self.processes[at].sleep_time();
            proof {
                assert(self@.process_ok(self@.processes[at as int]));
            }
            self.sleep_queue.pop_front();
            self.ready_queue.push_back(sleeper);
            return SchedulingDecision::Sleep(duration);
        }
        SchedulingDecision::Done
    }

    /// Adds `elapsed` units to the global time and to the time waited by
    /// every ready process but the head of the queue.
    fn charge_others(&mut self, elapsed: usize)
        requires
            old(self).wf(),
            old(self)@.ready.len() > 0,
            old(self)@.time + elapsed <= usize::MAX,
            forall|k: int|
                1 <= k < old(self)@.ready.len() ==> {
                    let other = old(self)@.process(#[trigger] old(self)@.ready[k]);
                    other.waiting + other.sleep_time + elapsed <= usize::MAX
                },
        ensures
            final(self)@ == old(self)@.charged(elapsed as nat, old(self)@.running()),
    {
        let ghost before = self@;
        let ghost table = self.processes@;
        let n = self.ready_queue.len();
        let mut k: usize = 1;
        while k < n
            invariant
                1 <= k <= n,
                n == before.ready.len(),
                before.wf(),
                before == old(self)@,
                table == old(self).processes@,
                self.ready_queue == old(self).ready_queue,
                self.sleep_queue == old(self).sleep_queue,
                self.timeslice == old(self).timeslice,
                self.minimum_remaining_timeslice == old(self).minimum_remaining_timeslice,
                self.nr_processes == old(self).nr_processes,
                self.time == old(self).time,
                self.processes@.len() == table.len(),
                forall|i: int|
                    0 <= i < table.len() ==> (#[trigger] self.processes@[i])@ == (if before.ready.subrange(
                        1,
                        k as int,
                    ).contains(table[i]@.pid) {
                        table[i]@.waited(elapsed as nat)
                    } else {
                        table[i]@
                    }),
                forall|j: int|
                    1 <= j < before.ready.len() ==> {
                        let other = before.process(#[trigger] before.ready[j]);
                        other.waiting + other.sleep_time + elapsed <= usize::MAX
                    },
            decreases n - k,
        {
            let pid = self.ready_queue[k];
            proof {
                assert(before.ready[k as int] == pid);
                assert(before.ready.contains(pid));
                assert(self@.pids() =~= before.pids());
            }
            let at = self.position(pid);
            proof {
                before.lemma_record_at(at as int);
                let done = before.ready.subrange(1, k as int);
                if done.contains(pid) {
                    let j = done.index_of(pid);
                    assert(before.ready[j + 1] == pid);
                }
                assert(before.ready.subrange(1, k + 1) =~= done.push(pid));
                crate::invariants::lemma_push_holds(done, pid);
            }
            self.processes[at].wait(elapsed);
            proof {
                assert forall|i: int| 0 <= i < table.len() implies (#[trigger] self.processes@[i])@
                    == (if before.ready.subrange(1, k + 1).contains(table[i]@.pid) {
                    table[i]@.waited(elapsed as nat)
                } else {
                    table[i]@
                }) by {
                    if i != at {
                        before.lemma_record_at(i);
                    }
                }
            }
            k += 1;
        }
        self.time = self.time + elapsed;
        proof {
            let head = before.ready[0];
            assert(before.ready.subrange(1, n as int) =~= before.ready.drop_first());
            crate::invariants::lemma_drop_first(before.ready);
            assert(before.ready.contains(head));
            assert forall|i: int| 0 <= i < table.len() implies (#[trigger] self@.processes[i])
                == before.charged(elapsed as nat, before.running()).processes[i] by {
                before.lemma_record_at(i);
            }
            assert(self@.processes =~= before.charged(elapsed as nat, before.running()).processes);
        }
    }

    /// Books the time that the head of the ready queue ran before a system
    /// call that left `remaining` units of its quantum unused.
    fn serve(&mut self, remaining: usize)
        requires
            old(self).wf(),
            old(self)@.ready.len() > 0,
            remaining <= old(self)@.running().remaining,
            old(self)@.charge_fits(old(self)@.elapsed(remaining as nat)),
            old(self)@.syscall_fits(old(self)@.elapsed(remaining as nat)),
        ensures
            final(self)@ == old(self)@.served(remaining as nat),
    {
        let ghost before = self@;
        let head = self.ready_queue[0];
        assert(before.ready.contains(head));
        let at = self.position(head);
        let elapsed: usize = self.processes[at].remaining() - remaining;
        self.processes[at].book_syscall(remaining);
        proof {
            let head_after = before.running().after_syscall(elapsed as nat, remaining as nat);
            before.lemma_live_ok(head);
            before.lemma_record_at(at as int);
            before.lemma_put(head_after);
            assert(self@.processes =~= before.processes.update(at as int, head_after));
            assert(self@ == before.put(head_after));
            before.lemma_put_wf(head_after);
            before.lemma_put_then_charged(elapsed as nat, head_after);
            assert forall|k: int| 1 <= k < before.ready.len() implies {
                let other = self@.process(#[trigger] self@.ready[k]);
                other.waiting + other.sleep_time + elapsed <= usize::MAX
            } by {
                assert(before.ready.contains(before.ready[k]));
            }
        }
        self.charge_others(elapsed);
    }

    /// Books the use of all that the head of the ready queue had left of its
    /// quantum, hands it a whole quantum and moves it to the tail.
    fn expire(&mut self)
        requires
            old(self).wf(),
            old(self)@.ready.len() > 0,
            old(self)@.has_running(),
            old(self)@.charge_fits(old(self)@.running().remaining),
            old(self)@.expiry_fits(),
        ensures
            final(self)@ == old(self)@.expired(),
    {
        let ghost before = self@;
        let head = self.ready_queue[0];
        assert(before.ready.contains(head));
        let at = self.position(head);
        let used: usize = self.processes[at].remaining();
        self.processes[at].book_expiry(self.timeslice);
        proof {
            let head_after = before.running().after_expiry(before.timeslice);
            before.lemma_live_ok(head);
            before.lemma_record_at(at as int);
            before.lemma_put(head_after);
            assert(self@.processes =~= before.processes.update(at as int, head_after));
            assert(self@ == before.put(head_after));
            before.lemma_put_wf(head_after);
            before.lemma_put_then_charged(used as nat, head_after);
            assert forall|k: int| 1 <= k < before.ready.len() implies {
                let other = self@.process(#[trigger] self@.ready[k]);
                other.waiting + other.sleep_time + used <= usize::MAX
            } by {
                assert(before.ready.contains(before.ready[k]));
            }
        }
        self.charge_others(used);
        self.rotate();
    }

    /// Creates a process with the given priority and a whole quantum and
    /// puts it at the tail of the ready queue.
    fn fork(&mut self, priority: i8) -> (pid: Pid)
        requires
            old(self)@.nr_processes < usize::MAX,
        ensures
            final(self)@ == old(self)@.forked(priority),
            pid == old(self)@.next_pid(),
    {
        self.nr_processes = self.nr_processes + 1;
        let pid = Pid::new(self.nr_processes);
        let process = RoundRobinProcess::new(
            pid,
            ProcessState::Ready,
            priority,
            (0, 0, 0),
            self.timeslice,
        );
        self.processes.push(process);
        self.ready_queue.push_back(pid);
        proof {
            assert(self@.processes =~= old(self)@.forked(priority).processes);
        }
        pid
    }

    /// Sends the head of the ready queue into a delay of `duration` units.
    fn put_to_sleep(&mut self, duration: usize)
        requires
            old(self).wf(),
            old(self)@.ready.len() > 0,
        ensures
            final(self)@ == old(self)@.put_to_sleep(duration as nat),
    {
        let ghost before = self@;
        let head = self.ready_queue[0];
        assert(before.ready.contains(head));
        let at = self.position(head);
        self.processes[at].fall_asleep(duration);
        self.ready_queue.pop_front();
        self.sleep_queue.push_back(head);
        proof {
            let asleep = before.running().asleep(duration as nat);
            before.lemma_live_ok(head);
            before.lemma_record_at(at as int);
            before.lemma_put(asleep);
            assert(self@.processes =~= before.processes.update(at as int, asleep));
        }
    }

    /// Lets the head of the ready queue exit after a run that left
    /// `remaining` units of its quantum unused: the time it ran is booked to
    /// the global time and to those that wait behind it, and the process and
    /// its record are removed.
    fn leave(&mut self, remaining: usize)
        requires
            old(self).wf(),
            old(self)@.ready.len() > 0,
            remaining <= old(self)@.running().remaining,
            old(self)@.charge_fits(old(self)@.elapsed(remaining as nat)),
        ensures
            final(self)@ == old(self)@.served(remaining as nat).exited(),
    {
        let ghost before = self@;
        let head = self.ready_queue[0];
        assert(before.ready.contains(head));
        let at = self.position(head);
        let elapsed: usize = self.processes[at].remaining() - remaining;
        proof {
            before.lemma_live_ok(head);
            before.lemma_record_at(at as int);
            before.lemma_exit_forgets_booking(
                elapsed as nat,
                before.running().after_syscall(elapsed as nat, remaining as nat),
            );
        }
        self.charge_others(elapsed);
        proof {
            assert(self@.pids() =~= before.pids());
        }
        self.ready_queue.pop_front();
        self.processes.remove(at);
        proof {
            let booked = before.charged(elapsed as nat, before.running());
            assert(self@.processes =~= booked.processes.remove(at as int));
        }
    }

    /// Whether a process holds the CPU.
    fn head_runs(&self) -> (runs: bool)
        requires
            self.wf(),
        ensures
            runs == self@.has_running(),
    {
        if self.ready_queue.len() == 0 {
            return false;
        }
        let head = self.ready_queue[0];
        assert(self@.ready.contains(head));
        let at = self.position(head);
        proof {
            self@.lemma_record_at(at as int);
        }
        self.processes[at].state() == ProcessState::Running
    }

    /// Whether the shared clocks can take `elapsed` units more.
    fn clocks_take(&self, elapsed: usize) -> (fits: bool)
        requires
            self.wf(),
            self@.ready.len() > 0,
        ensures
            fits == self@.charge_fits(elapsed as nat),
    {
        let room: usize = usize::MAX - elapsed;
        if self.time > room {
            return false;
        }
        let n = self.ready_queue.len();
        let mut k: usize = 1;
        while k < n
            invariant
                1 <= k <= n,
                n == self@.ready.len(),
                self.wf(),
                room == usize::MAX - elapsed,
                forall|j: int|
                    1 <= j < k ==> {
                        let other = self@.process(#[trigger] self@.ready[j]);
                        other.waiting + other.sleep_time + elapsed <= usize::MAX
                    },
            decreases n - k,
        {
            let pid = self.ready_queue[k];
            assert(self@.ready.contains(pid));
            let behind = self.position(pid);
            proof {
                self@.lemma_record_at(behind as int);
                assert(self@.process_ok(self@.processes[behind as int]));
            }
            let pending: usize = self.processes[behind].timings().0 + self.processes[behind].sleep_time();
            if pending > room {
                proof {
                    let other = self@.process(self@.ready[k as int]);
                    assert(other.waiting + other.sleep_time + elapsed > usize::MAX);
                }
                return false;
            }
            k += 1;
        }
        true
    }

    /// Whether [`Self::stop`] accepts `reason` in the present state.
    pub fn can_stop(&self, reason: StopReason) -> (accepted: bool)
        requires
            self.wf(),
        ensures
            accepted == self@.stop_permitted(reason),
    {
        if !self.head_runs() {
            return match reason {
                StopReason::Syscall { syscall: Syscall::Fork(_), remaining: _ } => self.nr_processes
                    < usize::MAX,
                _ => false,
            };
        }
        let head = self.ready_queue[0];
        assert(self@.ready.contains(head));
        let at = self.position(head);
        proof {
            self@.lemma_record_at(at as int);
            assert(self@.process_ok(self@.processes[at as int]));
        }
        let left: usize = self.processes[at].remaining();
        let (waited, events, executed) = self.processes[at].timings();
        match reason {
            StopReason::Expired => {
                self.clocks_take(left) && waited <= usize::MAX - left && executed <= usize::MAX
                    - left
            },
            StopReason::Syscall { syscall, remaining } => {
                if remaining > left {
                    return false;
                }
                let elapsed: usize = left - remaining;
                if !self.clocks_take(elapsed) {
                    return false;
                }
                let counters_fit = executed <= usize::MAX - elapsed && events < usize::MAX;
                match syscall {
                    Syscall::Exit => true,
                    Syscall::Fork(_) => counters_fit && self.nr_processes < usize::MAX,
                    Syscall::Sleep(duration) => counters_fit && duration > 0 && waited
                        <= usize::MAX - duration,
                    Syscall::Wait(_) => counters_fit,
                    Syscall::Signal(_) => counters_fit,
                }
            },
        }
    }

    /// Takes the driver's report of how the run of the process that was last
    /// granted the CPU ended.
    ///
    /// The state changes and the answer is given as
    /// [`SchedulerModel::stop_step`] says. In particular the global time
    /// advances by exactly the time that the report books, the ready
    /// processes behind the running one have, in sum, waited that time longer
    /// for each of them, a process whose quantum expired stands at the tail
    /// of the ready queue with a whole quantum before it, and a fork answers
    /// with an identifier that no process had before.
    pub fn stop(&mut self, reason: StopReason) -> (result: SyscallResult)
        requires
            old(self).wf(),
            old(self)@.stop_permitted(reason),
        ensures
            final(self).wf(),
            final(self)@ == old(self)@.stop_step(reason).0,
            result == old(self)@.stop_step(reason).1,
            final(self)@.time == old(self)@.time + old(self)@.consumed(reason),
            old(self)@.ready.len() > 0 ==> final(self)@.waiting_sum(old(self)@.ready.drop_first())
                == old(self)@.waiting_sum(old(self)@.ready.drop_first()) + old(self)@.consumed(
                reason,
            ) * (old(self)@.ready.len() - 1),
            reason is Expired ==> {
                &&& final(self)@.ready.last() == old(self)@.ready[0]
                &&& final(self)@.process(old(self)@.ready[0]).remaining == old(self)@.timeslice
            },
            result is Pid <==> (reason matches StopReason::Syscall { syscall, .. } && syscall is Fork),
            result matches SyscallResult::Pid(pid) ==> {
                &&& pid.0 == old(self)@.nr_processes + 1
                &&& !old(self)@.is_live(pid)
                &&& final(self)@.is_live(pid)
                &&& final(self)@.ready.last() == pid
            },
    {
        proof {
            old(self)@.lemma_stop_step_wf(reason);
            old(self)@.theorem_time_is_conserved(reason);
            match reason {
                StopReason::Expired => {
                    old(self)@.theorem_expired_goes_to_the_tail();
                },
                StopReason::Syscall { syscall: Syscall::Fork(priority), remaining } => {
                    old(self)@.theorem_fork_adds_a_new_process(priority, remaining);
                },
                _ => {},
            }
        }
        match reason {
            StopReason::Expired => {
                self.expire();
                SyscallResult::Success
            },
            StopReason::Syscall { syscall: Syscall::Exit, remaining } => {
                self.leave(remaining);
                SyscallResult::Success
            },
            StopReason::Syscall { syscall, remaining } => {
                if self.head_runs() {
                    self.serve(remaining);
                    proof {
                        let head = old(self)@.ready[0];
                        assert(old(self)@.ready.contains(head));
                        old(self)@.lemma_live_ok(head);
                        old(self)@.lemma_charged_wf(
                            old(self)@.elapsed(remaining as nat),
                            old(self)@.running().after_syscall(
                                old(self)@.elapsed(remaining as nat),
                                remaining as nat,
                            ),
                        );
                    }
                }
                match syscall {
                    Syscall::Fork(priority) => {
                        let pid = self.fork(priority);
                        SyscallResult::Pid(pid)
                    },
                    Syscall::Sleep(duration) => {
                        self.put_to_sleep(duration);
                        SyscallResult::Success
                    },
                    _ => SyscallResult::Success,
                }
            },
        }
    }
}

} // verus!
