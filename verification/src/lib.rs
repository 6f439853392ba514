//! Static priority-ceiling scheduling core for single-core, interrupt-driven
//! targets.
//!
//! Application logic is a fixed, build-time-known set of prioritized tasks
//! plus a set of resources shared between them.  The crate provides the
//! pieces such a system needs:
//!
//! * [`analysis`] computes, for the static task/resource graph, each
//!   resource's lock ceiling and diagnoses the configurations that must fail
//!   the build (a ceiling above the hardware priority bound, two tasks bound
//!   to one interrupt vector, an access to an unknown resource).
//! * [`lock`] models the critical-section primitive: a threshold register
//!   raised to a ceiling on entry and restored exactly on exit, under either
//!   of the two interchangeable masking strategies.
//! * [`dispatch`] holds the per-task state machines: the pending/running
//!   flags of a hardware-bound task and the coalescing FIFO pending set of a
//!   software-dispatched priority level.
//! * [`timer`] is the monotonic timer queue: deadline-ordered entries with
//!   wraparound-safe comparison, scheduling, cancellation and the service
//!   routine run from the timer interrupt.
//! * [`system`] ties the pieces together into one explicit state machine and
//!   carries the proofs that the Immediate Priority Ceiling Protocol keeps
//!   resource access exclusive.
//! * [`minimal`] is the smallest application shape the core serves.

pub mod analysis;
pub mod dispatch;
pub mod lock;
pub mod minimal;
pub mod system;
pub mod timer;
