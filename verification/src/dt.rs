//! The hardware description handed over at boot, as far as this crate names
//! it.

use vstd::prelude::*;

verus! {

/// Why a device tree could not be taken over.
#[derive(Debug, Clone, Copy, PartialEq, Eq, Structural)]
pub enum ParseDeviceTreeError {
    /// The blob is not a well-formed device tree.
    Format,
}

} // verus!
