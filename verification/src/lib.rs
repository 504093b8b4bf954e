//! A single-executor task scheduling core: a FIFO ready queue, a
//! deadline-ordered sleep queue and FIFO wait queues, all kept under an
//! interrupt-masking discipline.
//!
//! The executor is a state machine. Each operation is one atomic transition,
//! stated over the mathematical [`state::State`] and proved to keep its
//! invariant. The environment owns the hardware: it mirrors the interrupt
//! mask, performs the context switch that a transition decides on, and
//! delivers timer ticks.
//!
//! [`harness`] holds the checks that a task makes around each suspension
//! point, and [`scenario`] the programs of the tasks that put the executor
//! under load: how often they yield, how long they sleep, and in which order
//! they meet on the wait queues.

pub mod executor;
pub mod harness;
pub mod irq;
pub mod laws;
pub mod lists;
pub mod order;
pub mod preserve;
pub mod queue;
pub mod races;
pub mod scenario;
pub mod scheduler;
pub mod sleep_queue;
pub mod state;
pub mod task;
pub mod timer;
pub mod wait_queue;
