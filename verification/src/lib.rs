//! The inter-hart coordination core of a RISC-V supervisor binary interface
//! firmware.
//!
//! One hart asks others to take a software interrupt or to execute a fence,
//! and learns when they have done so. The crate holds the hart state machine
//! that says who may be asked, the dispatcher that marks the targets and
//! raises their interrupt lines, the remote-fence rendezvous on top of it,
//! and the timer facade. It works on a sequential model of the per-hart
//! context store: each operation is one step of one hart, and the caller
//! decides whose turn it is.

pub mod dt;
pub mod sbi;
