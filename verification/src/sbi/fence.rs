//! The remote-fence coordinator: a broadcast of a fence request to a set of
//! harts, and the rendezvous in which the initiator waits until every target
//! has served it.

use crate::sbi::binary::{HartMask, SbiRet};
use crate::sbi::device::{lemma_set_msip_each, DeviceState, IpiDevice};
use crate::sbi::hart_context::{
    lemma_owed_covers, lemma_owed_zero, lemma_published_wf, lemma_serviced_wf,
    lemma_wf_ignores_events_and_state, owed, published, serviced, store_wf, with_event,
    ContextStore, HartModel,
};
use crate::sbi::ipi::{
    eligible, lemma_event_bits, lemma_pulses_are_served, lemma_pulses_below, lines_cover_events,
    pulses_below, serves_reached, set_ipi_type, signalled, SbiIpi, IPI_TYPE_FENCE,
};
use crate::sbi::rfence::RFenceContext;
use crate::sbi::trap::{events_of, trapped};
use crate::sbi::tally::{lemma_occurrences_positive, lemma_occurrences_push, occurrences};
use vstd::prelude::*;

verus! {

/// The number of harts below `bound` that take a signal sent to `mask`.
pub open spec fn eligible_count(
    harts: Seq<HartModel>,
    max_hart_id: usize,
    mask: HartMask,
    bound: int,
) -> nat
    decreases bound,
{
    if bound <= 0 {
        0
    } else {
        eligible_count(harts, max_hart_id, mask, bound - 1) + if eligible(
            harts,
            max_hart_id,
            mask,
            bound - 1,
        ) {
            1nat
        } else {
            0nat
        }
    }
}

/// The store after the hart `current_hart` has published the fence `ctx` to
/// the harts below `bound` that take a signal sent to `mask`.
///
/// Each such hart holds `ctx` in its slot, whatever the slot held before,
/// and has the initiator among those who wait for it; each but the initiator
/// itself has the fence event pending. The initiator's counter is the number
/// of harts it has published to.
pub open spec fn fence_published_below(
    harts: Seq<HartModel>,
    max_hart_id: usize,
    mask: HartMask,
    current_hart: usize,
    ctx: RFenceContext,
    bound: int,
) -> Seq<HartModel> {
    Seq::new(
        harts.len(),
        |h: int|
            {
                let target = h < bound && eligible(harts, max_hart_id, mask, h);
                HartModel {
                    ipi_type: if target && h != current_hart {
                        harts[h].ipi_type | IPI_TYPE_FENCE
                    } else {
                        harts[h].ipi_type
                    },
                    state: harts[h].state,
                    rfence_slot: if target {
                        Some(ctx)
                    } else {
                        harts[h].rfence_slot
                    },
                    waiters: if target {
                        harts[h].waiters.push(current_hart)
                    } else {
                        harts[h].waiters
                    },
                    wait_sync_count: if h == current_hart {
                        eligible_count(harts, max_hart_id, mask, bound) as usize
                    } else {
                        harts[h].wait_sync_count
                    },
                }
            },
    )
}

/// The store after the hart `current_hart` has published the fence `ctx` to
/// every hart that takes a signal sent to `mask`.
pub open spec fn fence_published(
    harts: Seq<HartModel>,
    max_hart_id: usize,
    mask: HartMask,
    current_hart: usize,
    ctx: RFenceContext,
) -> Seq<HartModel> {
    fence_published_below(harts, max_hart_id, mask, current_hart, ctx, max_hart_id + 1)
}

/// The harts whose interrupt line a fence of `current_hart` to `mask` raises,
/// in ascending order: those that take it, but for the initiator itself,
/// that had no event pending.
pub open spec fn fence_pulses(
    harts: Seq<HartModel>,
    max_hart_id: usize,
    mask: HartMask,
    current_hart: usize,
) -> Seq<usize> {
    pulses_below(harts, max_hart_id, mask, Some(current_hart), max_hart_id + 1)
}

/// The store after an initiator has looked at its counter once: where
/// acknowledgements are outstanding it has served its own slot, and where
/// none are it has touched nothing.
pub open spec fn polled(harts: Seq<HartModel>, current_hart: usize) -> Seq<HartModel> {
    if harts[current_hart as int].wait_sync_count == 0 {
        harts
    } else {
        serviced(harts, current_hart)
    }
}

/// What an initiator learns when it looks at its counter once, in the store
/// `harts`: the request from its own slot, where it had to serve it, and the
/// result of the call once nothing is outstanding.
pub open spec fn progress_of(harts: Seq<HartModel>, current_hart: usize) -> FenceProgress {
    FenceProgress {
        done: if polled(harts, current_hart)[current_hart as int].wait_sync_count == 0 {
            Some(SbiRet { error: 0, value: 0 })
        } else {
            None
        },
        local: if harts[current_hart as int].wait_sync_count == 0 {
            None
        } else {
            harts[current_hart as int].rfence_slot
        },
    }
}

/// Whether every hart that holds a request of another hart has the fence
/// event pending, so that its next trap serves the request.
pub open spec fn requests_are_announced(harts: Seq<HartModel>) -> bool {
    forall|t: int, k: int|
        0 <= t < harts.len() && 0 <= k < harts[t].waiters.len() && (
        #[trigger] harts[t].waiters[k]) != t ==> harts[t].ipi_type & IPI_TYPE_FENCE != 0
}

/// How far a fence broadcast has come.
#[derive(Debug, Clone, Copy, PartialEq, Eq)]
pub struct FenceProgress {
    /// The result of the call, once every target has acknowledged; `None`
    /// while acknowledgements are outstanding.
    pub done: Option<SbiRet>,
    /// A request from the initiator's own slot, which it must apply to
    /// itself now.
    pub local: Option<RFenceContext>,
}

impl<T: IpiDevice> SbiIpi<T> {
    /// Starts a fence broadcast of the hart `current_hart` to the harts of
    /// `hart_mask`, and looks at the rendezvous counter once.
    ///
    /// Each hart that takes the signal gets `ctx` in its slot, in place of
    /// whatever waited there, and the initiator's counter goes up by one for
    /// it. Each such hart but the initiator gets the fence event, and its
    /// interrupt line is raised where no event was pending. The initiator
    /// then serves its own slot, without any interrupt, if anything is
    /// outstanding. The broadcast is complete when `done` holds the result;
    /// until then the initiator calls `poll_fence` again and again.
    ///
    /// The initiator must be a hart of the store with no broadcast of its own
    /// in flight.
    pub fn send_ipi_by_fence(
        &mut self,
        store: &mut ContextStore,
        current_hart: usize,
        hart_mask: HartMask,
        ctx: RFenceContext,
    ) -> (progress: FenceProgress)
        requires
            old(self).serves(old(store)),
            old(store).wf(),
            current_hart < old(store)@.len(),
            old(store)@[current_hart as int].wait_sync_count == 0,
        ensures
            final(store).wf(),
            final(store)@ == polled(
                fence_published(
                    old(store)@,
                    old(self).max_hart_id,
                    hart_mask,
                    current_hart,
                    ctx,
                ),
                current_hart,
            ),
            progress == progress_of(
                fence_published(
                    old(store)@,
                    old(self).max_hart_id,
                    hart_mask,
                    current_hart,
                    ctx,
                ),
                current_hart,
            ),
            final(self).max_hart_id == old(self).max_hart_id,
            final(self).ipi_dev@ == old(self).ipi_dev@.set_msip_each(
                fence_pulses(old(store)@, old(self).max_hart_id, hart_mask, current_hart),
            ),
    {
        let max_hart_id = self.max_hart_id;
        let ghost before = store@;
        let ghost dev_before = self.ipi_dev@;
        let mut hart_id: usize = 0;
        let mut scanned = false;
        proof {
            assert(store@ =~= fence_published_below(
                before,
                max_hart_id,
                hart_mask,
                current_hart,
                ctx,
                0,
            ));
        }
        while !scanned
            invariant
                hart_id <= max_hart_id,
                self.max_hart_id == max_hart_id,
                current_hart < before.len(),
                store.wf(),
                store@ == fence_published_below(
                    before,
                    max_hart_id,
                    hart_mask,
                    current_hart,
                    ctx,
                    hart_id + if scanned { 1int } else { 0int },
                ),
                self.ipi_dev@ == dev_before.set_msip_each(
                    pulses_below(
                        before,
                        max_hart_id,
                        hart_mask,
                        Some(current_hart),
                        hart_id + if scanned { 1int } else { 0int },
                    ),
                ),
                self.ipi_dev@.harts.len() == dev_before.harts.len(),
                serves_reached(dev_before, max_hart_id, before.len()),
                scanned ==> hart_id == max_hart_id,
            decreases max_hart_id - hart_id + if scanned { 0int } else { 1int },
        {
            let ghost pulsed = pulses_below(
                before,
                max_hart_id,
                hart_mask,
                Some(current_hart),
                hart_id as int,
            );
            let mut takes = false;
            if hart_mask.has_bit(hart_id) {
                if let Some(hsm) = store.remote_hsm(hart_id) {
                    if hsm.allow_ipi() {
                        takes = true;
                        proof {
                            store.lemma_len_fits();
                            lemma_eligible_count_bound(
                                before,
                                max_hart_id,
                                hart_mask,
                                hart_id as int,
                            );
                        }
                        store.publish_fence(current_hart, hart_id, ctx);
                        if hart_id != current_hart {
                            let old_ipi_type = set_ipi_type(store, hart_id, IPI_TYPE_FENCE);
                            if old_ipi_type == 0 {
                                assert(dev_before.serves(hart_id));
                                self.ipi_dev.set_msip(hart_id);
                                proof {
                                    assert(pulsed.push(hart_id).drop_last() == pulsed);
                                }
                            }
                        }
                    }
                }
            }
            proof {
                assert(takes == eligible(before, max_hart_id, hart_mask, hart_id as int));
                lemma_eligible_count_bound(before, max_hart_id, hart_mask, hart_id as int);
                assert(store@ =~= fence_published_below(
                    before,
                    max_hart_id,
                    hart_mask,
                    current_hart,
                    ctx,
                    hart_id + 1,
                ));
            }
            if hart_id == max_hart_id {
                scanned = true;
            } else {
                hart_id += 1;
            }
        }
        self.poll_fence(store, current_hart)
    }

    /// Looks at the rendezvous counter of the initiator `current_hart` once.
    ///
    /// Where acknowledgements are outstanding the initiator serves its own
    /// slot, so that two harts that fence each other both get on; the
    /// request it found there is in `local`. Where none are outstanding, now
    /// or after that, `done` holds the result of the broadcast: every target
    /// has served the request.
    pub fn poll_fence(&self, store: &mut ContextStore, current_hart: usize) -> (progress:
        FenceProgress)
        requires
            old(store).wf(),
            current_hart < old(store)@.len(),
        ensures
            final(store).wf(),
            final(store)@ == polled(old(store)@, current_hart),
            progress == progress_of(old(store)@, current_hart),
    {
        let local = if store.is_sync(current_hart) {
            None
        } else {
            store.service_fence(current_hart)
        };
        let done = if store.is_sync(current_hart) {
            Some(SbiRet::success(0))
        } else {
            None
        };
        FenceProgress { done, local }
    }
}

/// At most `bound` harts below `bound` take a signal, and no more than the
/// store holds.
pub proof fn lemma_eligible_count_bound(
    harts: Seq<HartModel>,
    max_hart_id: usize,
    mask: HartMask,
    bound: int,
)
    requires
        0 <= bound,
    ensures
        eligible_count(harts, max_hart_id, mask, bound) <= bound,
        eligible_count(harts, max_hart_id, mask, bound) <= harts.len(),
    decreases bound,
{
    if bound > 0 {
        lemma_eligible_count_bound(harts, max_hart_id, mask, bound - 1);
    }
}

/// Where a hart below the bound takes a signal, at least one hart does.
pub proof fn lemma_eligible_count_positive(
    harts: Seq<HartModel>,
    max_hart_id: usize,
    mask: HartMask,
    bound: int,
    hart_id: int,
)
    requires
        0 <= hart_id < bound,
        eligible(harts, max_hart_id, mask, hart_id),
    ensures
        eligible_count(harts, max_hart_id, mask, bound) >= 1,
    decreases bound,
{
    if hart_id < bound - 1 {
        lemma_eligible_count_positive(harts, max_hart_id, mask, bound - 1, hart_id);
    }
}

/// A broadcast keeps the rendezvous consistent, at every point of the scan.
pub proof fn lemma_fence_published_wf(
    harts: Seq<HartModel>,
    max_hart_id: usize,
    mask: HartMask,
    current_hart: usize,
    ctx: RFenceContext,
    bound: int,
)
    requires
        store_wf(harts),
        harts.len() <= usize::MAX,
        current_hart < harts.len(),
        harts[current_hart as int].wait_sync_count == 0,
        0 <= bound,
    ensures
        store_wf(fence_published_below(harts, max_hart_id, mask, current_hart, ctx, bound)),
    decreases bound,
{
    let reached = fence_published_below(harts, max_hart_id, mask, current_hart, ctx, bound);
    if bound == 0 {
        assert(reached =~= harts);
    } else {
        let hart_id = bound - 1;
        let earlier = fence_published_below(
            harts,
            max_hart_id,
            mask,
            current_hart,
            ctx,
            hart_id,
        );
        lemma_fence_published_wf(harts, max_hart_id, mask, current_hart, ctx, hart_id);
        lemma_eligible_count_bound(harts, max_hart_id, mask, hart_id);
        if eligible(harts, max_hart_id, mask, hart_id) {
            let filled = published(earlier, current_hart, hart_id as usize, ctx);
            lemma_published_wf(earlier, current_hart, hart_id as usize, ctx);
            if hart_id != current_hart {
                let marked = with_event(filled, hart_id as usize, IPI_TYPE_FENCE);
                lemma_wf_ignores_events_and_state(filled, marked);
                assert(reached =~= marked);
            } else {
                assert(reached =~= filled);
            }
        } else {
            assert(reached =~= earlier);
        }
    }
}

/// A look at the counter keeps the rendezvous consistent.
pub proof fn lemma_polled_wf(harts: Seq<HartModel>, current_hart: usize)
    requires
        store_wf(harts),
        current_hart < harts.len(),
    ensures
        store_wf(polled(harts, current_hart)),
{
    lemma_serviced_wf(harts, current_hart);
}

/// Looking at the counter again changes nothing: once an initiator has
/// served its own slot, only the traps of its targets bring it further.
pub proof fn lemma_poll_is_idempotent(harts: Seq<HartModel>, current_hart: usize)
    requires
        store_wf(harts),
        current_hart < harts.len(),
    ensures
        polled(polled(harts, current_hart), current_hart) == polled(harts, current_hart),
        progress_of(polled(harts, current_hart), current_hart).done == progress_of(
            harts,
            current_hart,
        ).done,
        progress_of(polled(harts, current_hart), current_hart).local.is_none(),
{
    lemma_service_acknowledges_once(harts, current_hart, current_hart);
    lemma_serviced_wf(harts, current_hart);
}

/// An initiator is synchronised exactly when no hart holds a request of it.
///
/// In a consistent store the counter of a hart is zero if and only if the
/// hart is among the waiters of no slot: every target that was published to
/// has served the request. So a broadcast is reported as done only after
/// each of its targets has served its slot.
pub proof fn lemma_synchronized_iff_served(harts: Seq<HartModel>, initiator: usize)
    requires
        store_wf(harts),
        initiator < harts.len(),
    ensures
        harts[initiator as int].wait_sync_count == 0 <==> forall|t: int|
            0 <= t < harts.len() ==> !(#[trigger] harts[t]).waiters.contains(initiator),
{
    assert(harts[initiator as int].wait_sync_count == owed(harts, initiator));
    lemma_owed_zero(harts, initiator);
    assert forall|t: int| 0 <= t < harts.len() implies (occurrences(
        (#[trigger] harts[t]).waiters,
        initiator,
    ) == 0 <==> !harts[t].waiters.contains(initiator)) by {
        lemma_occurrences_positive(harts[t].waiters, initiator);
    }
}

/// A broadcast counts its targets.
///
/// When a synchronised hart publishes a fence, its counter afterwards is the
/// number of harts that take the signal, each of those harts holds exactly
/// one request of the initiator, and no other hart holds any.
pub proof fn lemma_fence_counts_its_targets(
    harts: Seq<HartModel>,
    max_hart_id: usize,
    mask: HartMask,
    current_hart: usize,
    ctx: RFenceContext,
    hart_id: int,
)
    requires
        store_wf(harts),
        harts.len() <= usize::MAX,
        current_hart < harts.len(),
        harts[current_hart as int].wait_sync_count == 0,
        0 <= hart_id < harts.len(),
    ensures
        fence_published(
            harts,
            max_hart_id,
            mask,
            current_hart,
            ctx,
        )[current_hart as int].wait_sync_count == eligible_count(
            harts,
            max_hart_id,
            mask,
            max_hart_id + 1,
        ),
        occurrences(
            fence_published(harts, max_hart_id, mask, current_hart, ctx)[hart_id].waiters,
            current_hart,
        ) == if eligible(harts, max_hart_id, mask, hart_id) {
            1nat
        } else {
            0nat
        },
{
    lemma_eligible_count_bound(harts, max_hart_id, mask, max_hart_id + 1);
    assert(harts[current_hart as int].wait_sync_count == owed(harts, current_hart));
    lemma_owed_zero(harts, current_hart);
    assert(occurrences(harts[hart_id].waiters, current_hart) == 0);
    lemma_occurrences_push(harts[hart_id].waiters, current_hart, current_hart);
}

/// Serving a slot acknowledges every request in it once.
///
/// The counter of each initiator goes down by the number of requests it had
/// in the slot, the slot is empty afterwards, and serving it again changes
/// nothing: a target acknowledges a broadcast exactly once.
pub proof fn lemma_service_acknowledges_once(
    harts: Seq<HartModel>,
    hart_id: usize,
    initiator: usize,
)
    requires
        store_wf(harts),
        hart_id < harts.len(),
        initiator < harts.len(),
    ensures
        serviced(harts, hart_id)[initiator as int].wait_sync_count + occurrences(
            harts[hart_id as int].waiters,
            initiator,
        ) == harts[initiator as int].wait_sync_count,
        serviced(harts, hart_id)[hart_id as int].rfence_slot.is_none(),
        serviced(harts, hart_id)[hart_id as int].waiters.len() == 0,
        serviced(serviced(harts, hart_id), hart_id) == serviced(harts, hart_id),
{
    let once = serviced(harts, hart_id);
    let twice = serviced(once, hart_id);
    lemma_owed_covers(harts, hart_id as int, initiator);
    assert(harts[initiator as int].wait_sync_count == owed(harts, initiator));
    assert forall|i: int| 0 <= i < harts.len() implies twice[i] == once[i] by {
        assert(occurrences(Seq::<usize>::empty(), i as usize) == 0);
        assert(once[i].waiters == twice[i].waiters);
    }
    assert(twice =~= once);
}

/// A fence that names its initiator is applied there without an interrupt.
///
/// The initiator's line is never raised by its own broadcast and no event is
/// added to its pending events. Where the initiator takes the signal itself,
/// the request it finds in its own slot on the first look at the counter is
/// the one it has just published.
pub proof fn lemma_fence_spares_the_initiator(
    harts: Seq<HartModel>,
    dev: DeviceState,
    max_hart_id: usize,
    mask: HartMask,
    current_hart: usize,
    ctx: RFenceContext,
)
    requires
        harts.len() <= usize::MAX,
        current_hart < harts.len(),
        serves_reached(dev, max_hart_id, harts.len()),
    ensures
        !fence_pulses(harts, max_hart_id, mask, current_hart).contains(current_hart),
        dev.set_msip_each(fence_pulses(harts, max_hart_id, mask, current_hart)).pulse_count(
            current_hart,
        ) == dev.pulse_count(current_hart),
        dev.serves(current_hart) ==> dev.set_msip_each(
            fence_pulses(harts, max_hart_id, mask, current_hart),
        ).hart(current_hart) == dev.hart(current_hart),
        fence_published(harts, max_hart_id, mask, current_hart, ctx)[current_hart as int].ipi_type
            == harts[current_hart as int].ipi_type,
        polled(
            fence_published(harts, max_hart_id, mask, current_hart, ctx),
            current_hart,
        )[current_hart as int].ipi_type == harts[current_hart as int].ipi_type,
        eligible(harts, max_hart_id, mask, current_hart as int) ==> progress_of(
            fence_published(harts, max_hart_id, mask, current_hart, ctx),
            current_hart,
        ).local == Some(ctx),
{
    let pulses = fence_pulses(harts, max_hart_id, mask, current_hart);
    lemma_pulses_below(harts, max_hart_id, mask, Some(current_hart), max_hart_id + 1);
    lemma_occurrences_positive(pulses, current_hart);
    lemma_pulses_are_served(harts, max_hart_id, mask, Some(current_hart), dev);
    lemma_set_msip_each(dev, pulses);
    lemma_eligible_count_bound(harts, max_hart_id, mask, max_hart_id + 1);
    if eligible(harts, max_hart_id, mask, current_hart as int) {
        lemma_eligible_count_positive(
            harts,
            max_hart_id,
            mask,
            max_hart_id + 1,
            current_hart as int,
        );
    }
}

/// A hart whose state does not let it serve interrupts is left alone by a
/// fence of another hart: nothing of its context changes, and its line is
/// not raised. Its pending events are untouched even where it is the
/// initiator. This holds in particular of a hart that is stopped or about to
/// stop.
pub proof fn lemma_fence_spares_the_ineligible(
    harts: Seq<HartModel>,
    max_hart_id: usize,
    mask: HartMask,
    current_hart: usize,
    ctx: RFenceContext,
    hart_id: usize,
)
    requires
        hart_id < harts.len(),
        !harts[hart_id as int].state.ipi_eligible(),
    ensures
        hart_id != current_hart ==> fence_published(
            harts,
            max_hart_id,
            mask,
            current_hart,
            ctx,
        )[hart_id as int] == harts[hart_id as int],
        fence_published(harts, max_hart_id, mask, current_hart, ctx)[hart_id as int].ipi_type
            == harts[hart_id as int].ipi_type,
        fence_published(harts, max_hart_id, mask, current_hart, ctx)[hart_id as int].rfence_slot
            == harts[hart_id as int].rfence_slot,
        !fence_pulses(harts, max_hart_id, mask, current_hart).contains(hart_id),
{
    lemma_pulses_below(harts, max_hart_id, mask, Some(current_hart), max_hart_id + 1);
}

/// A later fence replaces an earlier one, and both initiators are
/// acknowledged.
///
/// When two synchronised harts publish to a common target, one after the
/// other, and the target takes no trap in between, the target's slot holds
/// only the second request. The trap that follows hands the target that
/// request alone, and lowers the counter of each of the two initiators by
/// one.
pub proof fn lemma_later_fence_replaces_earlier(
    harts: Seq<HartModel>,
    max_hart_id: usize,
    first_hart: usize,
    first_mask: HartMask,
    first_ctx: RFenceContext,
    second_hart: usize,
    second_mask: HartMask,
    second_ctx: RFenceContext,
    target: usize,
)
    requires
        store_wf(harts),
        harts.len() <= usize::MAX,
        first_hart < harts.len(),
        second_hart < harts.len(),
        first_hart != second_hart,
        target != first_hart,
        target != second_hart,
        harts[first_hart as int].wait_sync_count == 0,
        harts[second_hart as int].wait_sync_count == 0,
        eligible(harts, max_hart_id, first_mask, target as int),
        eligible(harts, max_hart_id, second_mask, target as int),
    ensures
        ({
            let once = fence_published(harts, max_hart_id, first_mask, first_hart, first_ctx);
            let twice = fence_published(once, max_hart_id, second_mask, second_hart, second_ctx);
            let after = trapped(twice, target);
            &&& twice[target as int].rfence_slot == Some(second_ctx)
            &&& twice[target as int].waiters == harts[target as int].waiters.push(
                first_hart,
            ).push(second_hart)
            &&& events_of(twice, target).fence == Some(second_ctx)
            &&& after[target as int].rfence_slot.is_none()
            &&& after[target as int].ipi_type == 0
            &&& after[first_hart as int].wait_sync_count + 1
                == twice[first_hart as int].wait_sync_count
            &&& after[second_hart as int].wait_sync_count + 1
                == twice[second_hart as int].wait_sync_count
        }),
{
    let once = fence_published(harts, max_hart_id, first_mask, first_hart, first_ctx);
    let twice = fence_published(once, max_hart_id, second_mask, second_hart, second_ctx);
    let waiting = harts[target as int].waiters;
    assert(eligible(once, max_hart_id, second_mask, target as int));
    lemma_event_bits(harts[target as int].ipi_type);
    lemma_event_bits(once[target as int].ipi_type);
    assert(twice[target as int].ipi_type & IPI_TYPE_FENCE != 0);
    assert(harts[first_hart as int].wait_sync_count == owed(harts, first_hart));
    assert(harts[second_hart as int].wait_sync_count == owed(harts, second_hart));
    lemma_owed_zero(harts, first_hart);
    lemma_owed_zero(harts, second_hart);
    assert(occurrences(waiting, first_hart) == 0);
    assert(occurrences(waiting, second_hart) == 0);
    lemma_occurrences_push(waiting, first_hart, first_hart);
    lemma_occurrences_push(waiting, first_hart, second_hart);
    lemma_occurrences_push(waiting.push(first_hart), second_hart, first_hart);
    lemma_occurrences_push(waiting.push(first_hart), second_hart, second_hart);
    lemma_eligible_count_bound(harts, max_hart_id, first_mask, max_hart_id + 1);
    lemma_eligible_count_bound(once, max_hart_id, second_mask, max_hart_id + 1);
    lemma_eligible_count_positive(
        harts,
        max_hart_id,
        first_mask,
        max_hart_id + 1,
        target as int,
    );
    lemma_eligible_count_positive(
        once,
        max_hart_id,
        second_mask,
        max_hart_id + 1,
        target as int,
    );
}

/// A fence only adds events: whatever was pending for a hart is still pending
/// after the broadcast and after the initiator's look at its counter, and
/// no lifecycle state changes.
pub proof fn lemma_fence_only_adds_events(
    harts: Seq<HartModel>,
    max_hart_id: usize,
    mask: HartMask,
    current_hart: usize,
    ctx: RFenceContext,
    hart_id: int,
)
    requires
        current_hart < harts.len(),
        0 <= hart_id < harts.len(),
    ensures
        fence_published(harts, max_hart_id, mask, current_hart, ctx)[hart_id].ipi_type
            & harts[hart_id].ipi_type == harts[hart_id].ipi_type,
        polled(
            fence_published(harts, max_hart_id, mask, current_hart, ctx),
            current_hart,
        )[hart_id].ipi_type == fence_published(
            harts,
            max_hart_id,
            mask,
            current_hart,
            ctx,
        )[hart_id].ipi_type,
        polled(
            fence_published(harts, max_hart_id, mask, current_hart, ctx),
            current_hart,
        )[hart_id].state == harts[hart_id].state,
{
    lemma_event_bits(harts[hart_id].ipi_type);
}

/// Coalescing loses no fence: where every hart with an event pending had its
/// line raised before a broadcast, the same holds after it.
pub proof fn lemma_fence_keeps_lines_raised(
    harts: Seq<HartModel>,
    dev: DeviceState,
    max_hart_id: usize,
    mask: HartMask,
    current_hart: usize,
    ctx: RFenceContext,
)
    requires
        lines_cover_events(harts, dev),
        serves_reached(dev, max_hart_id, harts.len()),
        current_hart < harts.len(),
    ensures
        lines_cover_events(
            polled(fence_published(harts, max_hart_id, mask, current_hart, ctx), current_hart),
            dev.set_msip_each(fence_pulses(harts, max_hart_id, mask, current_hart)),
        ),
{
    let pulses = fence_pulses(harts, max_hart_id, mask, current_hart);
    let published = fence_published(harts, max_hart_id, mask, current_hart, ctx);
    let after = polled(published, current_hart);
    let raised = dev.set_msip_each(pulses);
    lemma_pulses_below(harts, max_hart_id, mask, Some(current_hart), max_hart_id + 1);
    lemma_pulses_are_served(harts, max_hart_id, mask, Some(current_hart), dev);
    lemma_set_msip_each(dev, pulses);
    assert forall|h: usize|
        h < after.len() && raised.serves(h) && (#[trigger] after[h as int]).ipi_type
            != 0 implies raised.hart(h).msip by {
        assert(after[h as int].ipi_type == published[h as int].ipi_type);
        if harts[h as int].ipi_type == 0 {
            assert(pulses.contains(h));
        }
    }
}

/// A broadcast announces every request it publishes: where every hart that
/// held a request of another hart had the fence event pending before a
/// broadcast, the same holds after it and after the initiator's look at its
/// counter.
pub proof fn lemma_fence_announces_requests(
    harts: Seq<HartModel>,
    max_hart_id: usize,
    mask: HartMask,
    current_hart: usize,
    ctx: RFenceContext,
)
    requires
        requests_are_announced(harts),
        harts.len() <= usize::MAX,
        current_hart < harts.len(),
    ensures
        requests_are_announced(
            polled(fence_published(harts, max_hart_id, mask, current_hart, ctx), current_hart),
        ),
{
    let published = fence_published(harts, max_hart_id, mask, current_hart, ctx);
    let after = polled(published, current_hart);
    lemma_eligible_count_bound(harts, max_hart_id, mask, max_hart_id + 1);
    assert forall|t: int, k: int|
        0 <= t < after.len() && 0 <= k < after[t].waiters.len() && (
        #[trigger] after[t].waiters[k]) != t implies after[t].ipi_type & IPI_TYPE_FENCE != 0 by {
        lemma_event_bits(harts[t].ipi_type);
        if eligible(harts, max_hart_id, mask, t) {
            lemma_eligible_count_positive(harts, max_hart_id, mask, max_hart_id + 1, t);
        } else {
            assert(harts[t].waiters[k] != t);
        }
        if t != current_hart && k < harts[t].waiters.len() {
            assert(harts[t].waiters[k] != t);
        }
    }
}

/// A look at the counter keeps every request announced.
pub proof fn lemma_poll_keeps_requests_announced(harts: Seq<HartModel>, current_hart: usize)
    requires
        requests_are_announced(harts),
        current_hart < harts.len(),
    ensures
        requests_are_announced(polled(harts, current_hart)),
{
    let after = polled(harts, current_hart);
    assert forall|t: int, k: int|
        0 <= t < after.len() && 0 <= k < after[t].waiters.len() && (
        #[trigger] after[t].waiters[k]) != t implies after[t].ipi_type & IPI_TYPE_FENCE != 0 by {
        assert(harts[t].waiters[k] != t);
    }
}

/// A hart that holds a request of another hart is on its way to the trap:
/// where requests are announced and lines cover events, its interrupt line
/// is raised. So an initiator that waits for it does not wait in vain.
pub proof fn lemma_pending_request_has_line_raised(
    harts: Seq<HartModel>,
    dev: DeviceState,
    target: usize,
    initiator: usize,
)
    requires
        requests_are_announced(harts),
        lines_cover_events(harts, dev),
        target < harts.len(),
        dev.serves(target),
        initiator != target,
        harts[target as int].waiters.contains(initiator),
    ensures
        harts[target as int].ipi_type & IPI_TYPE_FENCE != 0,
        dev.hart(target).msip,
{
    let waiting = harts[target as int].waiters;
    let k = choose|k: int| 0 <= k < waiting.len() && waiting[k] == initiator;
    assert(harts[target as int].waiters[k] != target);
    assert(harts[target as int].ipi_type != 0) by {
        let events = harts[target as int].ipi_type;
        assert(events & 0x02 != 0 ==> events != 0) by (bit_vector);
    }
}

/// A signal keeps every request announced: it adds the software interrupt
/// event and takes no event away.
pub proof fn lemma_signal_keeps_requests_announced(
    harts: Seq<HartModel>,
    max_hart_id: usize,
    mask: HartMask,
)
    requires
        requests_are_announced(harts),
    ensures
        requests_are_announced(signalled(harts, max_hart_id, mask)),
{
    let after = signalled(harts, max_hart_id, mask);
    assert forall|t: int, k: int|
        0 <= t < after.len() && 0 <= k < after[t].waiters.len() && (
        #[trigger] after[t].waiters[k]) != t implies after[t].ipi_type & IPI_TYPE_FENCE != 0 by {
        lemma_event_bits(harts[t].ipi_type);
        assert(harts[t].waiters[k] != t);
    }
}

} // verus!
