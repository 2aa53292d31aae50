//! A round-robin scheduling engine for a simulated single-CPU machine.
//!
//! The engine owns the process table, a ready queue and a sleep queue. A
//! driver asks it which process runs next and for how long, lets that process
//! run, and reports back how the run ended. The engine has no clock of its
//! own: simulated time advances only by the amounts the driver reports.
//!
//! Every operation is specified against a mathematical model of the engine
//! ([`model::SchedulerModel`]) and proved to follow it. What holds of the
//! model beyond single steps is proved in [`invariants`] and [`theorems`].

pub mod invariants;
pub mod model;
pub mod process;
pub mod round_robin;
pub mod theorems;
pub mod vocabulary;

pub use model::SchedulerModel;
pub use process::{Process, ProcessModel, RoundRobinProcess};
pub use round_robin::RoundRobinScheduler;
pub use vocabulary::{Pid, ProcessState, SchedulingDecision, StopReason, Syscall, SyscallResult};
