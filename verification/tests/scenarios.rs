use scheduler::{
    Pid, Process, ProcessState, RoundRobinScheduler, SchedulingDecision, StopReason, Syscall,
    SyscallResult,
};

fn report(engine: &mut RoundRobinScheduler, reason: StopReason) -> SyscallResult {
    assert!(engine.can_stop(reason), "the engine does not accept {:?}", reason);
    engine.stop(reason)
}

fn syscall(syscall: Syscall, remaining: usize) -> StopReason {
    StopReason::Syscall { syscall, remaining }
}

fn run(pid: usize, timeslice: usize) -> SchedulingDecision {
    SchedulingDecision::Run { pid: Pid::new(pid), timeslice }
}

/// An engine in which process 1 has just forked process 2 without using any
/// of its quantum, so that both have a whole quantum left.
fn two_processes(timeslice: usize, minimum: usize) -> RoundRobinScheduler {
    let mut engine = RoundRobinScheduler::new(timeslice, minimum);
    assert_eq!(report(&mut engine, syscall(Syscall::Fork(0), 0)), SyscallResult::Pid(Pid::new(1)));
    assert_eq!(engine.next(), run(1, timeslice));
    assert_eq!(
        report(&mut engine, syscall(Syscall::Fork(0), timeslice)),
        SyscallResult::Pid(Pid::new(2))
    );
    engine
}

#[test]
fn single_process_runs_again_after_its_quantum_expired() {
    let mut engine = RoundRobinScheduler::new(2, 1);
    assert_eq!(report(&mut engine, syscall(Syscall::Fork(0), 0)), SyscallResult::Pid(Pid::new(1)));
    assert_eq!(engine.next(), run(1, 2));
    assert_eq!(report(&mut engine, StopReason::Expired), SyscallResult::Success);
    assert_eq!(engine.next(), run(1, 2));
}

#[test]
fn sleeper_returns_only_after_the_ready_queue_has_emptied() {
    let mut engine = RoundRobinScheduler::new(2, 1);
    assert_eq!(report(&mut engine, syscall(Syscall::Fork(0), 0)), SyscallResult::Pid(Pid::new(1)));
    assert_eq!(report(&mut engine, syscall(Syscall::Fork(0), 0)), SyscallResult::Pid(Pid::new(2)));
    for process in engine.list() {
        assert_eq!(process.state(), ProcessState::Ready);
        assert_eq!(process.remaining(), 2);
    }
    assert_eq!(engine.next(), run(1, 2));
    assert_eq!(report(&mut engine, syscall(Syscall::Sleep(5), 0)), SyscallResult::Success);
    assert_eq!(engine.ready_queue().iter().copied().collect::<Vec<Pid>>(), vec![Pid::new(2)]);
    assert_eq!(engine.sleep_queue().iter().copied().collect::<Vec<Pid>>(), vec![Pid::new(1)]);
    assert_eq!(engine.next(), run(2, 2));
    assert_eq!(report(&mut engine, syscall(Syscall::Exit, 0)), SyscallResult::Success);
    assert!(engine.ready_queue().is_empty());
    assert_eq!(engine.list()[0].state(), ProcessState::Waiting { event: None });
    assert_eq!(engine.next(), SchedulingDecision::Sleep(5));
    assert_eq!(engine.list()[0].state(), ProcessState::Waiting { event: None });
    assert_eq!(engine.ready_queue().iter().copied().collect::<Vec<Pid>>(), vec![Pid::new(1)]);
    assert!(engine.sleep_queue().is_empty());
    assert_eq!(engine.next(), run(1, 2));
    assert_eq!(engine.list()[0].state(), ProcessState::Running);
}

#[test]
fn exit_of_the_last_process_ends_the_run() {
    let mut engine = RoundRobinScheduler::new(2, 1);
    report(&mut engine, syscall(Syscall::Fork(0), 0));
    assert_eq!(engine.next(), run(1, 2));
    assert_eq!(report(&mut engine, syscall(Syscall::Exit, 0)), SyscallResult::Success);
    assert_eq!(engine.next(), SchedulingDecision::Done);
    assert!(engine.list().is_empty());
}

#[test]
fn new_engine_has_nothing_to_do() {
    let mut engine = RoundRobinScheduler::new(3, 0);
    assert_eq!(engine.next(), SchedulingDecision::Done);
    assert!(engine.list().is_empty());
    assert_eq!(engine.time(), 0);
}

#[test]
fn fork_creates_a_ready_process_with_a_whole_quantum() {
    let mut engine = RoundRobinScheduler::new(4, 1);
    assert_eq!(report(&mut engine, syscall(Syscall::Fork(-3), 0)), SyscallResult::Pid(Pid::new(1)));
    let listed = engine.list();
    assert_eq!(listed.len(), 1);
    assert_eq!(listed[0].pid(), Pid::new(1));
    assert_eq!(listed[0].state(), ProcessState::Ready);
    assert_eq!(listed[0].priority(), -3);
    assert_eq!(listed[0].timings(), (0, 0, 0));
    assert_eq!(listed[0].remaining(), 4);
    assert_eq!(listed[0].sleep_time(), 0);
    assert_eq!(listed[0].extra(), String::new());
}

#[test]
fn pids_count_up_and_are_not_used_again() {
    let mut engine = two_processes(3, 1);
    assert_eq!(engine.next(), run(1, 3));
    assert_eq!(report(&mut engine, StopReason::Expired), SyscallResult::Success);
    assert_eq!(engine.next(), run(2, 3));
    assert_eq!(report(&mut engine, syscall(Syscall::Exit, 1)), SyscallResult::Success);
    assert_eq!(engine.next(), run(1, 3));
    assert_eq!(report(&mut engine, syscall(Syscall::Fork(1), 2)), SyscallResult::Pid(Pid::new(3)));
    let pids: Vec<usize> = engine.list().iter().map(|p| p.pid().number()).collect();
    assert_eq!(pids, vec![1, 3]);
}

#[test]
fn system_call_books_the_time_that_was_used() {
    let mut engine = two_processes(10, 1);
    assert_eq!(engine.next(), run(1, 10));
    assert_eq!(report(&mut engine, syscall(Syscall::Fork(0), 7)), SyscallResult::Pid(Pid::new(3)));
    // Process 1 ran for 3 units while process 2 waited; process 3 did not exist yet.
    assert_eq!(engine.time(), 3);
    let listed = engine.list();
    assert_eq!(listed[0].timings(), (0, 2, 3));
    assert_eq!(listed[0].remaining(), 7);
    assert_eq!(listed[1].timings(), (3, 0, 0));
    assert_eq!(listed[2].timings(), (0, 0, 0));
    assert_eq!(listed[0].state(), ProcessState::Running);
}

#[test]
fn waiting_time_of_the_others_grows_by_the_time_used_for_each_of_them() {
    let mut engine = two_processes(10, 1);
    assert_eq!(engine.next(), run(1, 10));
    report(&mut engine, syscall(Syscall::Fork(0), 10));
    // Three ready processes, process 1 at the head.
    let before: Vec<usize> = engine.list().iter().map(|p| p.timings().0).collect();
    let time_before = engine.time();
    assert_eq!(engine.next(), run(1, 10));
    report(&mut engine, syscall(Syscall::Signal(9), 4));
    let after: Vec<usize> = engine.list().iter().map(|p| p.timings().0).collect();
    let elapsed = 10 - 4;
    assert_eq!(engine.time() - time_before, elapsed);
    assert_eq!(after[0] - before[0], 0);
    let grown: usize = (after[1] - before[1]) + (after[2] - before[2]);
    assert_eq!(grown, elapsed * (3 - 1));
}

#[test]
fn expiry_books_the_quantum_and_moves_the_process_to_the_tail() {
    let mut engine = two_processes(4, 1);
    assert_eq!(engine.next(), run(1, 4));
    assert_eq!(report(&mut engine, syscall(Syscall::Wait(1), 3)), SyscallResult::Success);
    assert_eq!(engine.next(), run(1, 3));
    assert_eq!(report(&mut engine, StopReason::Expired), SyscallResult::Success);
    assert_eq!(engine.time(), 4);
    let listed = engine.list();
    // One unit before the system call, three until the quantum was used up.
    assert_eq!(listed[0].timings(), (3, 2, 4));
    assert_eq!(listed[0].remaining(), 4);
    assert_eq!(listed[0].state(), ProcessState::Ready);
    assert_eq!(listed[1].timings(), (4, 0, 0));
    // Process 2 is now ahead of process 1.
    assert_eq!(engine.ready_queue().back(), Some(&Pid::new(1)));
    assert_eq!(engine.ready_queue().front(), Some(&Pid::new(2)));
    assert_eq!(engine.next(), run(2, 4));
    assert_eq!(report(&mut engine, StopReason::Expired), SyscallResult::Success);
    assert_eq!(engine.next(), run(1, 4));
}

#[test]
fn wait_and_signal_book_the_time_and_do_nothing_else() {
    let mut engine = two_processes(6, 1);
    assert_eq!(engine.next(), run(1, 6));
    assert_eq!(report(&mut engine, syscall(Syscall::Wait(3), 4)), SyscallResult::Success);
    assert_eq!(engine.time(), 2);
    assert_eq!(engine.list()[0].timings(), (0, 2, 2));
    assert_eq!(engine.list()[0].state(), ProcessState::Running);
    assert_eq!(engine.list()[1].timings(), (2, 0, 0));
    assert_eq!(engine.next(), run(1, 4));
    assert_eq!(report(&mut engine, syscall(Syscall::Signal(3), 4)), SyscallResult::Success);
    assert_eq!(engine.time(), 2);
    assert_eq!(engine.list()[0].timings(), (0, 3, 2));
    assert_eq!(engine.list().len(), 2);
    assert_eq!(engine.next(), run(1, 4));
}

#[test]
fn exit_removes_the_record_and_keeps_the_storage_order() {
    let mut engine = two_processes(5, 1);
    assert_eq!(engine.next(), run(1, 5));
    report(&mut engine, syscall(Syscall::Fork(2), 5));
    assert_eq!(engine.next(), run(1, 5));
    report(&mut engine, StopReason::Expired);
    assert_eq!(engine.next(), run(2, 5));
    assert_eq!(report(&mut engine, syscall(Syscall::Exit, 2)), SyscallResult::Success);
    assert_eq!(engine.time(), 8);
    let listed = engine.list();
    let pids: Vec<usize> = listed.iter().map(|p| p.pid().number()).collect();
    assert_eq!(pids, vec![1, 3]);
    // Process 3 waited through both runs, process 1 through the second.
    assert_eq!(listed[1].timings(), (8, 0, 0));
    assert_eq!(listed[0].timings(), (5 + 3, 2, 5));
    assert_eq!(engine.next(), run(3, 5));
}

#[test]
fn missing_first_process_is_a_panic_and_makes_everyone_ready() {
    let mut engine = two_processes(3, 1);
    assert_eq!(engine.next(), run(1, 3));
    report(&mut engine, syscall(Syscall::Fork(0), 3));
    assert_eq!(engine.next(), run(1, 3));
    report(&mut engine, StopReason::Expired);
    assert_eq!(engine.next(), run(2, 3));
    report(&mut engine, syscall(Syscall::Sleep(4), 1));
    assert_eq!(engine.next(), run(3, 3));
    report(&mut engine, StopReason::Expired);
    assert_eq!(engine.next(), run(1, 3));
    assert_eq!(report(&mut engine, syscall(Syscall::Exit, 0)), SyscallResult::Success);
    assert_eq!(engine.list()[0].state(), ProcessState::Waiting { event: None });
    assert_eq!(engine.next(), SchedulingDecision::Panic);
    for process in engine.list() {
        assert_eq!(process.state(), ProcessState::Ready);
    }
    assert_eq!(engine.list().len(), 2);
    assert!(!engine.can_stop(StopReason::Expired));
    assert_eq!(engine.next(), SchedulingDecision::Panic);
}

#[test]
fn sleepers_without_the_first_process_are_still_waited_for() {
    let mut engine = two_processes(3, 1);
    assert_eq!(engine.next(), run(1, 3));
    report(&mut engine, StopReason::Expired);
    assert_eq!(engine.next(), run(2, 3));
    report(&mut engine, syscall(Syscall::Sleep(7), 0));
    assert_eq!(engine.next(), run(1, 3));
    report(&mut engine, syscall(Syscall::Exit, 0));
    // Nothing is ready, so the missing first process goes unnoticed.
    assert_eq!(engine.next(), SchedulingDecision::Sleep(7));
    assert_eq!(engine.next(), SchedulingDecision::Panic);
}

#[test]
fn short_quantum_is_passed_over_for_the_process_behind() {
    let mut engine = two_processes(5, 3);
    assert_eq!(engine.next(), run(1, 5));
    report(&mut engine, syscall(Syscall::Signal(0), 1));
    // Process 1 has 1 unit left, less than the threshold of 3.
    assert_eq!(engine.next(), run(2, 5));
    assert_eq!(engine.next(), run(2, 5));
    assert_eq!(engine.next(), run(2, 5));
    assert_eq!(
        engine.ready_queue().iter().copied().collect::<Vec<Pid>>(),
        vec![Pid::new(2), Pid::new(1)]
    );
    let listed = engine.list();
    assert_eq!(listed[0].remaining(), 1);
    assert_eq!(listed[0].state(), ProcessState::Ready);
    assert_eq!(listed[1].state(), ProcessState::Running);
    // Process 2 falls short in turn: process 1 is offered what it had left.
    report(&mut engine, syscall(Syscall::Signal(0), 2));
    assert_eq!(engine.next(), run(1, 1));
}

#[test]
fn sole_process_below_the_threshold_runs_with_what_it_has_left() {
    let mut engine = RoundRobinScheduler::new(5, 3);
    report(&mut engine, syscall(Syscall::Fork(0), 0));
    assert_eq!(engine.next(), run(1, 5));
    report(&mut engine, syscall(Syscall::Wait(0), 2));
    assert_eq!(engine.next(), run(1, 2));
    assert_eq!(engine.list()[0].remaining(), 2);
}

#[test]
fn process_with_nothing_left_gets_a_whole_quantum() {
    let mut engine = RoundRobinScheduler::new(5, 0);
    report(&mut engine, syscall(Syscall::Fork(0), 0));
    assert_eq!(engine.next(), run(1, 5));
    report(&mut engine, syscall(Syscall::Wait(0), 0));
    assert_eq!(engine.list()[0].remaining(), 0);
    assert_eq!(engine.next(), run(1, 5));
    assert_eq!(engine.list()[0].remaining(), 5);
    assert_eq!(engine.list()[0].state(), ProcessState::Running);
    report(&mut engine, syscall(Syscall::Wait(0), 3));
    assert_eq!(engine.time(), 7);
    assert_eq!(engine.list()[0].timings(), (0, 2, 7));
}

#[test]
fn quantum_at_the_threshold_is_granted() {
    let mut engine = two_processes(5, 3);
    assert_eq!(engine.next(), run(1, 5));
    report(&mut engine, syscall(Syscall::Signal(0), 3));
    assert_eq!(engine.next(), run(1, 3));
}

#[test]
fn sleep_queue_is_served_in_the_order_of_falling_asleep() {
    let mut engine = two_processes(4, 1);
    assert_eq!(engine.next(), run(1, 4));
    report(&mut engine, syscall(Syscall::Sleep(5), 2));
    assert_eq!(engine.next(), run(2, 4));
    report(&mut engine, syscall(Syscall::Sleep(3), 1));
    // Process 1 fell asleep first and is released first, though process 2
    // asked for the shorter delay.
    assert_eq!(engine.next(), SchedulingDecision::Sleep(5));
    assert_eq!(engine.next(), run(1, 4));
    report(&mut engine, syscall(Syscall::Sleep(1), 4));
    assert_eq!(engine.next(), SchedulingDecision::Sleep(3));
    assert_eq!(engine.next(), run(2, 4));
    report(&mut engine, syscall(Syscall::Exit, 4));
    assert_eq!(engine.next(), SchedulingDecision::Sleep(1));
    assert_eq!(engine.next(), run(1, 4));
}

#[test]
fn return_from_a_delay_restores_the_quantum_and_counts_as_waiting() {
    let mut engine = RoundRobinScheduler::new(6, 1);
    report(&mut engine, syscall(Syscall::Fork(0), 0));
    assert_eq!(engine.next(), run(1, 6));
    report(&mut engine, syscall(Syscall::Sleep(9), 2));
    {
        let listed = engine.list();
        assert_eq!(listed[0].state(), ProcessState::Waiting { event: None });
        assert_eq!(listed[0].sleep_time(), 9);
        assert_eq!(listed[0].remaining(), 2);
        assert_eq!(listed[0].timings(), (0, 1, 4));
    }
    assert_eq!(engine.next(), SchedulingDecision::Sleep(9));
    assert_eq!(engine.list()[0].sleep_time(), 9);
    assert_eq!(engine.time(), 4);
    assert_eq!(engine.next(), run(1, 6));
    let listed = engine.list();
    assert_eq!(listed[0].sleep_time(), 0);
    assert_eq!(listed[0].remaining(), 6);
    assert_eq!(listed[0].timings(), (9, 1, 4));
    assert_eq!(engine.time(), 4);
}

#[test]
fn listing_twice_gives_the_same_data() {
    let mut engine = two_processes(4, 1);
    assert_eq!(engine.next(), run(1, 4));
    report(&mut engine, syscall(Syscall::Sleep(2), 1));
    let describe = |engine: &RoundRobinScheduler| -> Vec<(Pid, ProcessState, i8, (usize, usize, usize), usize, usize, String)> {
        engine
            .list()
            .iter()
            .map(|p| (p.pid(), p.state(), p.priority(), p.timings(), p.remaining(), p.sleep_time(), p.extra()))
            .collect()
    };
    let first = describe(&engine);
    let second = describe(&engine);
    assert_eq!(first, second);
    assert_eq!(first.len(), 2);
}
