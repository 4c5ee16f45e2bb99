//! The target side of an inter-processor interrupt: what a hart does when it
//! takes the trap on its machine software interrupt.

use crate::sbi::device::{DeviceState, IpiDevice};
use crate::sbi::fence::requests_are_announced;
use crate::sbi::hart_context::{
    lemma_serviced_wf, lemma_wf_ignores_events_and_state, serviced, store_wf, without_events,
    ContextStore, HartModel,
};
use crate::sbi::ipi::{
    get_and_reset_ipi_type, lines_cover_events, SbiIpi, IPI_TYPE_FENCE, IPI_TYPE_SSOFT,
};
use crate::sbi::rfence::RFenceContext;
use vstd::prelude::*;

verus! {

/// What a trap on the machine software interrupt finds for a hart.
#[derive(Debug, Clone, Copy, PartialEq, Eq)]
pub struct TrapEvents {
    /// Whether a supervisor software interrupt is to be raised.
    pub ssoft: bool,
    /// The fence request that the hart must apply before it returns.
    pub fence: Option<RFenceContext>,
}

/// The store after the hart `hart_id` has taken a trap on its machine
/// software interrupt: no event is pending for it, and its slot is served if
/// the fence event was pending.
pub open spec fn trapped(harts: Seq<HartModel>, hart_id: usize) -> Seq<HartModel> {
    let taken = without_events(harts, hart_id);
    if harts[hart_id as int].ipi_type & IPI_TYPE_FENCE != 0 {
        serviced(taken, hart_id)
    } else {
        taken
    }
}

/// What the hart `hart_id` finds when it takes a trap on its machine software
/// interrupt in the store `harts`.
pub open spec fn events_of(harts: Seq<HartModel>, hart_id: usize) -> TrapEvents {
    TrapEvents {
        ssoft: harts[hart_id as int].ipi_type & IPI_TYPE_SSOFT != 0,
        fence: if harts[hart_id as int].ipi_type & IPI_TYPE_FENCE != 0 {
            harts[hart_id as int].rfence_slot
        } else {
            None
        },
    }
}

impl<T: IpiDevice> SbiIpi<T> {
    /// Serves the machine software interrupt of the hart `hart_id`.
    ///
    /// The hart lowers its interrupt line, takes all its pending events at
    /// once, and serves its slot if the fence event was among them. The
    /// result says what is left for the hart to do before it returns from the
    /// trap: raise the supervisor software interrupt, apply a fence, or both.
    pub fn handle_ipi(&mut self, store: &mut ContextStore, hart_id: usize) -> (events: TrapEvents)
        requires
            old(self).ipi_dev@.serves(hart_id),
            old(store).wf(),
            hart_id < old(store)@.len(),
        ensures
            final(store).wf(),
            final(store)@ == trapped(old(store)@, hart_id),
            events == events_of(old(store)@, hart_id),
            final(self).max_hart_id == old(self).max_hart_id,
            final(self).ipi_dev@ == old(self).ipi_dev@.clear_msip(hart_id),
    {
        self.ipi_dev.clear_msip(hart_id);
        let ipi_type = get_and_reset_ipi_type(store, hart_id);
        let ssoft = (ipi_type & IPI_TYPE_SSOFT) != 0;
        let fence = if (ipi_type & IPI_TYPE_FENCE) != 0 {
            store.service_fence(hart_id)
        } else {
            None
        };
        TrapEvents { ssoft, fence }
    }
}

/// A trap keeps the rendezvous consistent.
pub proof fn lemma_trapped_wf(harts: Seq<HartModel>, hart_id: usize)
    requires
        store_wf(harts),
        hart_id < harts.len(),
    ensures
        store_wf(trapped(harts, hart_id)),
{
    let taken = without_events(harts, hart_id);
    lemma_wf_ignores_events_and_state(harts, taken);
    lemma_serviced_wf(taken, hart_id);
}

/// A trap takes all the events of its own hart in one step, and none of any
/// other hart.
pub proof fn lemma_trap_takes_only_its_own_events(
    harts: Seq<HartModel>,
    hart_id: usize,
    other: int,
)
    requires
        hart_id < harts.len(),
        0 <= other < harts.len(),
    ensures
        trapped(harts, hart_id).len() == harts.len(),
        trapped(harts, hart_id)[hart_id as int].ipi_type == 0,
        other != hart_id ==> trapped(harts, hart_id)[other].ipi_type == harts[other].ipi_type,
        trapped(harts, hart_id)[other].state == harts[other].state,
{
}

/// A trap loses no event of another hart: where every hart with an event
/// pending had its line raised before the trap, the same holds after the
/// trapping hart has lowered its own line and taken its own events.
pub proof fn lemma_trap_keeps_lines_raised(
    harts: Seq<HartModel>,
    dev: DeviceState,
    hart_id: usize,
)
    requires
        lines_cover_events(harts, dev),
        hart_id < harts.len(),
        dev.serves(hart_id),
    ensures
        lines_cover_events(trapped(harts, hart_id), dev.clear_msip(hart_id)),
{
    let after = trapped(harts, hart_id);
    let lowered = dev.clear_msip(hart_id);
    assert forall|h: usize|
        h < after.len() && lowered.serves(h) && (#[trigger] after[h as int]).ipi_type
            != 0 implies lowered.hart(h).msip by {
        assert(h != hart_id);
        assert(harts[h as int].ipi_type == after[h as int].ipi_type);
    }
}

/// A trap keeps every request announced: where the fence event was pending
/// the hart has served its slot and holds no request any more, and where it
/// was not the hart held no request of another hart.
pub proof fn lemma_trap_keeps_requests_announced(harts: Seq<HartModel>, hart_id: usize)
    requires
        requests_are_announced(harts),
        hart_id < harts.len(),
    ensures
        requests_are_announced(trapped(harts, hart_id)),
{
    let after = trapped(harts, hart_id);
    assert forall|t: int, k: int|
        0 <= t < after.len() && 0 <= k < after[t].waiters.len() && (
        #[trigger] after[t].waiters[k]) != t implies after[t].ipi_type & IPI_TYPE_FENCE != 0 by {
        assert(harts[t].waiters[k] != t);
    }
}

} // verus!
