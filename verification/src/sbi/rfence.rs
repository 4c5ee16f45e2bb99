//! Remote fences: what a hart asks other harts to invalidate.

use vstd::prelude::*;

verus! {

/// The kind of invalidation that a remote fence asks for.
#[derive(Debug, Clone, Copy, PartialEq, Eq, Structural)]
pub enum RFenceType {
    /// Synchronise the instruction stream with earlier stores.
    FenceI,
    /// Drop cached address mappings, of every address space.
    SFenceVma,
    /// Drop cached address mappings of one address space.
    SFenceVmaAsid,
}

/// A range of virtual addresses.
#[derive(Debug, Clone, Copy, PartialEq, Eq, Structural)]
pub struct AddrRange {
    /// The first address of the range.
    pub start: usize,
    /// The length of the range in bytes.
    pub size: usize,
}

/// A remote fence request. It is fixed once published and handed to each
/// target by value.
#[derive(Debug, Clone, Copy, PartialEq, Eq)]
pub struct RFenceContext {
    /// The kind of invalidation.
    pub op: RFenceType,
    /// The addresses to invalidate; `None` stands for all of them.
    pub range: Option<AddrRange>,
    /// The address space to invalidate in, where the kind names one.
    pub asid: Option<usize>,
}

impl RFenceContext {
    /// A request to synchronise the instruction stream.
    pub fn fence_i() -> (ctx: Self)
        ensures
            ctx == (RFenceContext { op: RFenceType::FenceI, range: None, asid: None }),
    {
        RFenceContext { op: RFenceType::FenceI, range: None, asid: None }
    }

    /// A request to drop the cached mappings of a range of addresses.
    pub fn sfence_vma(start: usize, size: usize) -> (ctx: Self)
        ensures
            ctx == (RFenceContext {
                op: RFenceType::SFenceVma,
                range: Some(AddrRange { start, size }),
                asid: None,
            }),
    {
        RFenceContext {
            op: RFenceType::SFenceVma,
            range: Some(AddrRange { start, size }),
            asid: None,
        }
    }

    /// A request to drop the cached mappings of a range of addresses in one
    /// address space.
    pub fn sfence_vma_asid(start: usize, size: usize, asid: usize) -> (ctx: Self)
        ensures
            ctx == (RFenceContext {
                op: RFenceType::SFenceVmaAsid,
                range: Some(AddrRange { start, size }),
                asid: Some(asid),
            }),
    {
        RFenceContext {
            op: RFenceType::SFenceVmaAsid,
            range: Some(AddrRange { start, size }),
            asid: Some(asid),
        }
    }
}

} // verus!
