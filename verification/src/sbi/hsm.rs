//! Hart state management: the lifecycle of one hart, and whether it may be
//! the target of an inter-processor interrupt.

use vstd::prelude::*;

verus! {

/// The lifecycle state of a hart.
#[derive(Debug, Clone, Copy, PartialEq, Eq, Structural)]
pub enum HartState {
    /// The hart runs supervisor code.
    Started,
    /// The hart is parked and serves no traps.
    Stopped,
    /// Another hart has asked this one to start.
    StartPending,
    /// The hart has asked to stop and is winding down.
    StopPending,
    /// The hart waits in a retentive low-power state and wakes on an interrupt.
    Suspended,
    /// The hart has asked to suspend and is on its way there.
    SuspendPending,
    /// An interrupt has woken the hart and it is on its way back.
    ResumePending,
}

impl HartState {
    /// Whether a hart in this state may be sent an inter-processor interrupt.
    ///
    /// Only a hart with a live trap handler may: one that is started, or one
    /// that is suspended and wakes on the interrupt.
    pub open spec fn ipi_eligible(self) -> bool {
        self == HartState::Started || self == HartState::Suspended
    }

    /// Whether the lifecycle has an edge from this state to `next`.
    pub open spec fn steps_to(self, next: HartState) -> bool {
        match self {
            HartState::Stopped => next == HartState::StartPending,
            HartState::StartPending => next == HartState::Started,
            HartState::Started => next == HartState::StopPending || next
                == HartState::SuspendPending,
            HartState::StopPending => next == HartState::Stopped,
            HartState::SuspendPending => next == HartState::Suspended,
            HartState::Suspended => next == HartState::ResumePending,
            HartState::ResumePending => next == HartState::Started,
        }
    }

    /// Whether a hart in this state may be sent an inter-processor interrupt.
    pub fn allow_ipi(self) -> (allowed: bool)
        ensures
            allowed == self.ipi_eligible(),
    {
        match self {
            HartState::Started | HartState::Suspended => true,
            _ => false,
        }
    }

    /// Whether the lifecycle has an edge from this state to `next`.
    pub fn can_step_to(self, next: HartState) -> (legal: bool)
        ensures
            legal == self.steps_to(next),
    {
        match self {
            HartState::Stopped => next == HartState::StartPending,
            HartState::StartPending => next == HartState::Started,
            HartState::Started => next == HartState::StopPending || next
                == HartState::SuspendPending,
            HartState::StopPending => next == HartState::Stopped,
            HartState::SuspendPending => next == HartState::Suspended,
            HartState::Suspended => next == HartState::ResumePending,
            HartState::ResumePending => next == HartState::Started,
        }
    }
}

/// The state cell of one hart. The state changes only through `transition`.
#[derive(Debug, Clone, Copy)]
pub struct HsmCell {
    status: HartState,
}

impl View for HsmCell {
    type V = HartState;

    closed spec fn view(&self) -> HartState {
        self.status
    }
}

impl HsmCell {
    /// The cell of a hart that has not been started.
    pub fn new() -> (cell: Self)
        ensures
            cell@ == HartState::Stopped,
    {
        HsmCell { status: HartState::Stopped }
    }

    /// The current state.
    pub fn get_status(&self) -> (status: HartState)
        ensures
            status == self@,
    {
        self.status
    }

    /// Whether the hart may be sent an inter-processor interrupt now.
    pub fn allow_ipi(&self) -> (allowed: bool)
        ensures
            allowed == self@.ipi_eligible(),
    {
        self.status.allow_ipi()
    }

    /// Moves the hart from `expected` to `next` as one compare-and-swap.
    ///
    /// The move happens when the hart is in `expected` and the lifecycle has
    /// the edge; otherwise the state stays as it was and the result is false.
    pub fn transition(&mut self, expected: HartState, next: HartState) -> (moved: bool)
        ensures
            moved == (old(self)@ == expected && expected.steps_to(next)),
            moved ==> final(self)@ == next,
            !moved ==> final(self)@ == old(self)@,
    {
        if self.status == expected && expected.can_step_to(next) {
            self.status = next;
            true
        } else {
            false
        }
    }
}

/// A hart becomes eligible for interrupts only by completing a start or a
/// resume: every edge into an eligible state leaves a pending state, so no
/// single move takes a stopped or stopping hart to an eligible one.
pub proof fn lemma_eligibility_is_entered_from_pending(from: HartState, to: HartState)
    requires
        from.steps_to(to),
        to.ipi_eligible(),
    ensures
        to == HartState::Started ==> (from == HartState::StartPending || from
            == HartState::ResumePending),
        to == HartState::Suspended ==> from == HartState::SuspendPending,
        from != HartState::Stopped,
        from != HartState::StopPending,
{
}

} // verus!
