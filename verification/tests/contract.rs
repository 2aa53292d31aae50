use scheduler::{
    Pid, Process, ProcessState, RoundRobinProcess, RoundRobinScheduler, SchedulingDecision,
    StopReason, Syscall, SyscallResult,
};

fn call(syscall: Syscall, remaining: usize) -> StopReason {
    StopReason::Syscall { syscall, remaining }
}

/// Reports `reason` after making sure that the engine accepts it.
fn checked_stop(engine: &mut RoundRobinScheduler, reason: StopReason) -> SyscallResult {
    assert!(engine.can_stop(reason), "the engine does not accept {:?}", reason);
    engine.stop(reason)
}

/// An engine in which process 1 is running with a whole quantum.
fn one_running(timeslice: usize, minimum: usize) -> RoundRobinScheduler {
    let mut engine = RoundRobinScheduler::new(timeslice, minimum);
    assert_eq!(checked_stop(&mut engine, call(Syscall::Fork(0), 0)), SyscallResult::Pid(Pid::new(1)));
    assert_eq!(engine.next(), SchedulingDecision::Run { pid: Pid::new(1), timeslice });
    engine
}

#[test]
fn pid_keeps_its_number() {
    assert_eq!(Pid::new(17).number(), 17);
    assert_eq!(Pid::new(17), Pid(17));
    assert_ne!(Pid::new(1), Pid::new(2));
}

#[test]
fn new_process_is_in_no_delay_and_has_the_quantum_given() {
    let process = RoundRobinProcess::new(Pid::new(7), ProcessState::Ready, 3, (1, 2, 3), 9);
    assert_eq!(process.pid(), Pid::new(7));
    assert_eq!(process.state(), ProcessState::Ready);
    assert_eq!(process.priority(), 3);
    assert_eq!(process.timings(), (1, 2, 3));
    assert_eq!(process.remaining(), 9);
    assert_eq!(process.sleep_time(), 0);
    assert_eq!(process.extra(), "");
}

#[test]
fn set_state_changes_the_state_only() {
    let mut process = RoundRobinProcess::new(Pid::new(2), ProcessState::Ready, -1, (4, 5, 6), 8);
    process.set_state(ProcessState::Waiting { event: Some(3) });
    assert_eq!(process.state(), ProcessState::Waiting { event: Some(3) });
    process.set_state(ProcessState::Running);
    assert_eq!(process.state(), ProcessState::Running);
    assert_eq!(process.pid(), Pid::new(2));
    assert_eq!(process.priority(), -1);
    assert_eq!(process.timings(), (4, 5, 6));
    assert_eq!(process.remaining(), 8);
    assert_eq!(process.sleep_time(), 0);
}

#[test]
fn only_a_fork_is_accepted_while_nothing_is_ready() {
    let engine = RoundRobinScheduler::new(2, 1);
    assert!(engine.can_stop(call(Syscall::Fork(5), 0)));
    assert!(engine.can_stop(call(Syscall::Fork(5), 100)));
    assert!(!engine.can_stop(StopReason::Expired));
    assert!(!engine.can_stop(call(Syscall::Exit, 0)));
    assert!(!engine.can_stop(call(Syscall::Sleep(3), 0)));
    assert!(!engine.can_stop(call(Syscall::Wait(1), 0)));
    assert!(!engine.can_stop(call(Syscall::Signal(1), 0)));
}

#[test]
fn only_a_fork_is_accepted_before_a_process_was_granted_the_cpu() {
    let mut engine = RoundRobinScheduler::new(2, 1);
    checked_stop(&mut engine, call(Syscall::Fork(0), 0));
    assert!(!engine.can_stop(StopReason::Expired));
    assert!(!engine.can_stop(call(Syscall::Exit, 0)));
    assert!(!engine.can_stop(call(Syscall::Sleep(1), 0)));
    assert!(!engine.can_stop(call(Syscall::Wait(0), 0)));
    assert!(!engine.can_stop(call(Syscall::Signal(0), 0)));
    assert!(engine.can_stop(call(Syscall::Fork(0), 0)));
    assert_eq!(engine.next(), SchedulingDecision::Run { pid: Pid::new(1), timeslice: 2 });
    assert!(engine.can_stop(StopReason::Expired));
    assert!(engine.can_stop(call(Syscall::Fork(0), 0)));
    assert!(engine.can_stop(call(Syscall::Exit, 0)));
}

#[test]
fn fork_that_no_running_process_made_books_nothing() {
    let mut engine = RoundRobinScheduler::new(3, 1);
    assert_eq!(checked_stop(&mut engine, call(Syscall::Fork(1), 0)), SyscallResult::Pid(Pid::new(1)));
    assert!(engine.can_stop(call(Syscall::Fork(2), 0)));
    assert_eq!(checked_stop(&mut engine, call(Syscall::Fork(2), 0)), SyscallResult::Pid(Pid::new(2)));
    assert_eq!(engine.time(), 0);
    for process in engine.list() {
        assert_eq!(process.timings(), (0, 0, 0));
        assert_eq!(process.remaining(), 3);
        assert_eq!(process.state(), ProcessState::Ready);
    }
    assert_eq!(engine.ready_queue().iter().copied().collect::<Vec<Pid>>(), vec![Pid(1), Pid(2)]);
    assert_eq!(engine.next(), SchedulingDecision::Run { pid: Pid::new(1), timeslice: 3 });
    // The same fork made by the running process books the time it ran.
    assert_eq!(checked_stop(&mut engine, call(Syscall::Fork(2), 1)), SyscallResult::Pid(Pid::new(3)));
    assert_eq!(engine.time(), 2);
    assert_eq!(engine.list()[0].timings(), (0, 1, 2));
    assert_eq!(engine.list()[1].timings(), (2, 0, 0));
    assert_eq!(engine.list()[2].timings(), (0, 0, 0));
}

#[test]
fn no_report_is_accepted_after_the_quantum_expired() {
    let mut engine = one_running(2, 1);
    checked_stop(&mut engine, StopReason::Expired);
    assert!(!engine.can_stop(StopReason::Expired));
    assert!(!engine.can_stop(call(Syscall::Wait(0), 0)));
}

#[test]
fn more_unused_time_than_was_granted_is_not_accepted() {
    let engine = one_running(4, 1);
    assert!(engine.can_stop(call(Syscall::Wait(0), 4)));
    assert!(!engine.can_stop(call(Syscall::Wait(0), 5)));
    assert!(!engine.can_stop(call(Syscall::Exit, 5)));
}

#[test]
fn delay_of_no_length_is_not_accepted() {
    let engine = one_running(4, 1);
    assert!(!engine.can_stop(call(Syscall::Sleep(0), 1)));
    assert!(engine.can_stop(call(Syscall::Sleep(1), 1)));
}

#[test]
fn delay_that_outgrows_the_waiting_clock_is_not_accepted() {
    let mut engine = one_running(4, 1);
    assert!(engine.can_stop(call(Syscall::Sleep(usize::MAX), 4)));
    checked_stop(&mut engine, StopReason::Expired);
    // The process has now waited 4 units by its own clock.
    assert_eq!(engine.next(), SchedulingDecision::Run { pid: Pid::new(1), timeslice: 4 });
    assert!(!engine.can_stop(call(Syscall::Sleep(usize::MAX - 3), 4)));
    assert!(engine.can_stop(call(Syscall::Sleep(usize::MAX - 4), 4)));
}

#[test]
fn longest_delay_is_returned_from() {
    let mut engine = one_running(4, 1);
    checked_stop(&mut engine, call(Syscall::Sleep(usize::MAX), 4));
    assert_eq!(engine.next(), SchedulingDecision::Sleep(usize::MAX));
    assert_eq!(engine.next(), SchedulingDecision::Run { pid: Pid::new(1), timeslice: 4 });
    assert_eq!(engine.list()[0].timings(), (usize::MAX, 1, 0));
    // The waiting clock is full: the quantum cannot expire any more.
    assert!(!engine.can_stop(StopReason::Expired));
    assert!(engine.can_stop(call(Syscall::Exit, 0)));
}

#[test]
fn waiting_clock_of_a_ready_process_must_take_the_time_used() {
    let mut engine = one_running(4, 2);
    checked_stop(&mut engine, call(Syscall::Sleep(usize::MAX - 3), 4));
    assert_eq!(engine.next(), SchedulingDecision::Sleep(usize::MAX - 3));
    assert_eq!(engine.next(), SchedulingDecision::Run { pid: Pid::new(1), timeslice: 4 });
    assert_eq!(engine.list()[0].timings().0, usize::MAX - 3);
    assert_eq!(checked_stop(&mut engine, call(Syscall::Fork(0), 1)), SyscallResult::Pid(Pid::new(2)));
    // Process 1 has too little left and is passed over for process 2.
    assert_eq!(engine.next(), SchedulingDecision::Run { pid: Pid::new(2), timeslice: 4 });
    // Process 1 waits behind process 2, 3 units short of what its clock holds.
    assert!(engine.can_stop(call(Syscall::Wait(0), 4)));
    assert!(engine.can_stop(call(Syscall::Wait(0), 1)));
    assert!(!engine.can_stop(call(Syscall::Wait(0), 0)));
    assert!(!engine.can_stop(StopReason::Expired));
    checked_stop(&mut engine, call(Syscall::Wait(0), 1));
    assert_eq!(engine.list()[0].timings().0, usize::MAX);
    assert_eq!(engine.time(), 6);
}

#[test]
fn global_clock_must_take_the_time_used() {
    let mut engine = RoundRobinScheduler::new(usize::MAX, 1);
    checked_stop(&mut engine, call(Syscall::Fork(0), 0));
    assert_eq!(engine.next(), SchedulingDecision::Run { pid: Pid::new(1), timeslice: usize::MAX });
    assert!(engine.can_stop(call(Syscall::Fork(0), 1)));
    checked_stop(&mut engine, call(Syscall::Fork(0), 1));
    assert_eq!(engine.time(), usize::MAX - 1);
    assert!(engine.can_stop(call(Syscall::Wait(0), 0)));
    checked_stop(&mut engine, call(Syscall::Sleep(1), 1));
    assert_eq!(engine.next(), SchedulingDecision::Run { pid: Pid::new(2), timeslice: usize::MAX });
    assert!(engine.can_stop(call(Syscall::Wait(0), usize::MAX)));
    assert!(engine.can_stop(call(Syscall::Wait(0), usize::MAX - 1)));
    assert!(!engine.can_stop(call(Syscall::Wait(0), usize::MAX - 2)));
    assert!(!engine.can_stop(StopReason::Expired));
}

#[test]
fn every_process_is_served_until_all_have_exited() {
    // Each process forks on its first turn (until there are 6 processes),
    // sleeps on its second and exits on its third.
    let mut engine = RoundRobinScheduler::new(3, 2);
    checked_stop(&mut engine, call(Syscall::Fork(0), 0));
    let mut turns: Vec<usize> = vec![0; 8];
    let mut created = 1;
    let mut exited = 0;
    let mut decisions = 0;
    loop {
        decisions += 1;
        assert!(decisions < 500, "the run does not end");
        match engine.next() {
            SchedulingDecision::Run { pid, timeslice } => {
                assert!(timeslice > 0 && timeslice <= 3);
                let running: Vec<Pid> = engine
                    .list()
                    .iter()
                    .filter(|p| p.state() == ProcessState::Running)
                    .map(|p| p.pid())
                    .collect();
                assert_eq!(running, vec![pid]);
                let turn = turns[pid.number()];
                turns[pid.number()] += 1;
                let reason = if turn == 0 && created < 6 {
                    call(Syscall::Fork(0), timeslice - 1)
                } else if turn == 1 {
                    call(Syscall::Sleep(pid.number()), 0)
                } else if turn >= 2 && (pid.number() != 1 || exited == created - 1) {
                    call(Syscall::Exit, 0)
                } else if turn == 0 {
                    StopReason::Expired
                } else {
                    // The first process stays until it is the last.
                    call(Syscall::Sleep(1), 0)
                };
                match checked_stop(&mut engine, reason) {
                    SyscallResult::Pid(new) => {
                        created += 1;
                        assert_eq!(new, Pid::new(created));
                    }
                    SyscallResult::Success => {
                        if reason == call(Syscall::Exit, 0) {
                            exited += 1;
                        }
                    }
                }
                assert_eq!(engine.list().len(), created - exited);
                // Between a report and the next request every live process
                // stands once in exactly one of the queues.
                for process in engine.list() {
                    let pid = process.pid();
                    let ready = engine.ready_queue().iter().filter(|p| **p == pid).count();
                    let asleep = engine.sleep_queue().iter().filter(|p| **p == pid).count();
                    assert_eq!(ready + asleep, 1, "process {} is queued {} times", pid.number(), ready + asleep);
                }
                assert_eq!(
                    engine.ready_queue().len() + engine.sleep_queue().len(),
                    engine.list().len()
                );
            }
            SchedulingDecision::Sleep(duration) => {
                assert!(duration > 0);
                assert!(engine.list().iter().all(|p| p.state() != ProcessState::Running));
            }
            SchedulingDecision::Done => break,
            SchedulingDecision::Panic => panic!("the first process exits last"),
        }
    }
    assert_eq!(created, 6);
    assert_eq!(exited, 6);
    for pid in 1..=6 {
        assert!(turns[pid] >= 3, "process {} had {} turns", pid, turns[pid]);
    }
    assert!(engine.list().is_empty());
}
