//! Values that cross the supervisor call boundary: hart masks and call
//! results.

use vstd::prelude::*;

verus! {

/// A set of harts, given as a bit mask over the hart ids that start at a base.
#[derive(Debug, Clone, Copy, PartialEq, Eq)]
pub struct HartMask {
    /// Bit `i` stands for the hart `hart_mask_base + i`.
    pub hart_mask: usize,
    /// The hart id of bit 0, or `usize::MAX` to select every hart.
    pub hart_mask_base: usize,
}

impl HartMask {
    /// Whether the mask selects the hart `hart_id`.
    ///
    /// A base of `usize::MAX` selects every hart. Otherwise a hart is selected
    /// when its id lies within one machine word above the base and its bit is
    /// set.
    pub open spec fn selects(self, hart_id: usize) -> bool {
        if self.hart_mask_base == usize::MAX {
            true
        } else if hart_id < self.hart_mask_base {
            false
        } else if hart_id - self.hart_mask_base >= usize::BITS {
            false
        } else {
            self.hart_mask & (1usize << ((hart_id - self.hart_mask_base) as usize)) != 0
        }
    }

    /// The mask with the given bits above the given base.
    pub fn from_mask_base(hart_mask: usize, hart_mask_base: usize) -> (mask: Self)
        ensures
            mask.hart_mask == hart_mask,
            mask.hart_mask_base == hart_mask_base,
    {
        HartMask { hart_mask, hart_mask_base }
    }

    /// The mask that selects every hart.
    pub fn all() -> (mask: Self)
        ensures
            mask.hart_mask == 0,
            mask.hart_mask_base == usize::MAX,
            forall|hart_id: usize| mask.selects(hart_id),
    {
        HartMask { hart_mask: 0, hart_mask_base: usize::MAX }
    }

    /// The bits and the base of the mask.
    pub fn into_inner(self) -> (parts: (usize, usize))
        ensures
            parts == (self.hart_mask, self.hart_mask_base),
    {
        (self.hart_mask, self.hart_mask_base)
    }

    /// Whether the mask selects the hart `hart_id`.
    pub fn has_bit(self, hart_id: usize) -> (selected: bool)
        ensures
            selected == self.selects(hart_id),
    {
        hart_mask_has_bit(self, hart_id)
    }
}

/// Calls `rustsbi::HartMask::has_bit` on the mask built by
/// `rustsbi::HartMask::from_mask_base`.
///
/// Trusted: the result is the membership test that `selects` writes out.
#[verifier::external_body]
fn hart_mask_has_bit(mask: HartMask, hart_id: usize) -> (selected: bool)
    ensures
        selected == mask.selects(hart_id),
{
    rustsbi::HartMask::from_mask_base(mask.hart_mask, mask.hart_mask_base).has_bit(hart_id)
}

/// The pair of registers that a supervisor call returns.
#[derive(Debug, Clone, Copy, PartialEq, Eq)]
pub struct SbiRet {
    /// The error number; zero stands for success.
    pub error: usize,
    /// The result value.
    pub value: usize,
}

/// The error number of a call that succeeded.
pub const RET_SUCCESS: usize = 0;

impl SbiRet {
    /// Whether the call succeeded.
    pub open spec fn is_success(self) -> bool {
        self.error == RET_SUCCESS
    }

    /// The result of a successful call that returns `value`.
    pub fn success(value: usize) -> (ret: Self)
        ensures
            ret == (SbiRet { error: RET_SUCCESS, value }),
    {
        sbi_ret_success(value)
    }
}

/// Calls `rustsbi::SbiRet::success`.
///
/// Trusted: the result carries the success error number, zero, and the value
/// it was given.
#[verifier::external_body]
fn sbi_ret_success(value: usize) -> (ret: SbiRet)
    ensures
        ret.error == 0,
        ret.value == value,
{
    let ret = rustsbi::SbiRet::success(value);
    SbiRet { error: ret.error, value: ret.value }
}

} // verus!
