//! The supervisor binary interface services.

pub mod binary;
pub mod device;
pub mod fence;
pub mod hart_context;
pub mod hsm;
pub mod ipi;
pub mod rfence;
pub mod tally;
pub mod trap;
