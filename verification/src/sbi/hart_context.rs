//! The per-hart context store: one slot per hart, found by hart id, holding
//! the hart's pending events, its lifecycle state and its side of the
//! remote-fence rendezvous.

use crate::sbi::hsm::{HartState, HsmCell};
use crate::sbi::rfence::RFenceContext;
use crate::sbi::tally::{lemma_occurrences_concat, lemma_occurrences_push, occurrences};
use vstd::prelude::*;

verus! {

/// What the store holds for one hart.
pub ghost struct HartModel {
    /// The events that wait for the hart's next trap.
    pub ipi_type: u8,
    /// The lifecycle state.
    pub state: HartState,
    /// The fence request addressed to the hart and not yet served.
    pub rfence_slot: Option<RFenceContext>,
    /// The harts that wait for this hart to serve its slot, one entry per
    /// request, oldest first.
    pub waiters: Seq<usize>,
    /// The number of acknowledgements that this hart, as an initiator, still
    /// waits for.
    pub wait_sync_count: usize,
}

/// How many acknowledgements the harts owe to `initiator`.
pub open spec fn owed(harts: Seq<HartModel>, initiator: usize) -> nat
    decreases harts.len(),
{
    if harts.len() == 0 {
        0
    } else {
        owed(harts.drop_last(), initiator) + occurrences(harts.last().waiters, initiator)
    }
}

/// The rendezvous is consistent: a slot is filled exactly while someone waits
/// for it, every waiter is a hart of the store, and every hart's counter is
/// the number of acknowledgements owed to it.
pub open spec fn store_wf(harts: Seq<HartModel>) -> bool {
    &&& forall|t: int|
        0 <= t < harts.len() ==> ((#[trigger] harts[t]).rfence_slot.is_some()
            <==> harts[t].waiters.len() > 0)
    &&& forall|t: int, k: int|
        0 <= t < harts.len() && 0 <= k < harts[t].waiters.len() ==> (
        #[trigger] harts[t].waiters[k]) < harts.len()
    &&& forall|i: usize|
        i < harts.len() ==> harts[i as int].wait_sync_count == #[trigger] owed(harts, i)
}

/// The store after `event_id` is added to the pending events of a hart.
pub open spec fn with_event(harts: Seq<HartModel>, hart_id: usize, event_id: u8) -> Seq<
    HartModel,
> {
    harts.update(
        hart_id as int,
        HartModel { ipi_type: harts[hart_id as int].ipi_type | event_id, ..harts[hart_id as int] },
    )
}

/// The store after the pending events of a hart are taken.
pub open spec fn without_events(harts: Seq<HartModel>, hart_id: usize) -> Seq<HartModel> {
    harts.update(hart_id as int, HartModel { ipi_type: 0, ..harts[hart_id as int] })
}

/// The store after a hart moves to another lifecycle state.
pub open spec fn with_state(harts: Seq<HartModel>, hart_id: usize, state: HartState) -> Seq<
    HartModel,
> {
    harts.update(hart_id as int, HartModel { state, ..harts[hart_id as int] })
}

/// The store after `initiator` publishes `ctx` to `target`: the request
/// replaces whatever the slot held, the initiator joins those who wait for
/// the target, and its counter goes up by one.
pub open spec fn published(
    harts: Seq<HartModel>,
    initiator: usize,
    target: usize,
    ctx: RFenceContext,
) -> Seq<HartModel> {
    let filled = harts.update(
        target as int,
        HartModel {
            rfence_slot: Some(ctx),
            waiters: harts[target as int].waiters.push(initiator),
            ..harts[target as int]
        },
    );
    filled.update(
        initiator as int,
        HartModel {
            wait_sync_count: (filled[initiator as int].wait_sync_count + 1) as usize,
            ..filled[initiator as int]
        },
    )
}

/// The store after a hart serves its slot: the slot is empty, nobody waits
/// for the hart any more, and every initiator's counter is down by the
/// number of requests it had waiting there.
pub open spec fn serviced(harts: Seq<HartModel>, hart_id: usize) -> Seq<HartModel> {
    Seq::new(
        harts.len(),
        |i: int|
            HartModel {
                rfence_slot: if i == hart_id {
                    None
                } else {
                    harts[i].rfence_slot
                },
                waiters: if i == hart_id {
                    Seq::empty()
                } else {
                    harts[i].waiters
                },
                wait_sync_count: (harts[i].wait_sync_count - occurrences(
                    harts[hart_id as int].waiters,
                    i as usize,
                )) as usize,
                ..harts[i]
            },
    )
}

/// Changing who waits for one hart changes what is owed to an initiator by
/// the difference there.
pub proof fn lemma_owed_differs_at(
    before: Seq<HartModel>,
    after: Seq<HartModel>,
    t: int,
    initiator: usize,
)
    requires
        before.len() == after.len(),
        0 <= t < before.len(),
        forall|j: int| 0 <= j < before.len() && j != t ==> before[j].waiters == after[j].waiters,
    ensures
        owed(after, initiator) + occurrences(before[t].waiters, initiator) == owed(
            before,
            initiator,
        ) + occurrences(after[t].waiters, initiator),
    decreases before.len(),
{
    let b = before.drop_last();
    let a = after.drop_last();
    if t == before.len() - 1 {
        lemma_owed_same(b, a, initiator);
    } else {
        lemma_owed_differs_at(b, a, t, initiator);
    }
}

/// What is owed depends only on who waits for whom.
pub proof fn lemma_owed_same(before: Seq<HartModel>, after: Seq<HartModel>, initiator: usize)
    requires
        before.len() == after.len(),
        forall|j: int| 0 <= j < before.len() ==> before[j].waiters == after[j].waiters,
    ensures
        owed(after, initiator) == owed(before, initiator),
    decreases before.len(),
{
    if before.len() > 0 {
        lemma_owed_same(before.drop_last(), after.drop_last(), initiator);
    }
}

/// An initiator is owed at least what one hart owes it.
pub proof fn lemma_owed_covers(harts: Seq<HartModel>, t: int, initiator: usize)
    requires
        0 <= t < harts.len(),
    ensures
        occurrences(harts[t].waiters, initiator) <= owed(harts, initiator),
    decreases harts.len(),
{
    if t < harts.len() - 1 {
        lemma_owed_covers(harts.drop_last(), t, initiator);
    }
}

/// Nothing is owed to an initiator exactly when it waits for no hart.
pub proof fn lemma_owed_zero(harts: Seq<HartModel>, initiator: usize)
    ensures
        owed(harts, initiator) == 0 <==> forall|t: int|
            0 <= t < harts.len() ==> occurrences((#[trigger] harts[t]).waiters, initiator) == 0,
    decreases harts.len(),
{
    if harts.len() > 0 {
        let front = harts.drop_last();
        lemma_owed_zero(front, initiator);
        if owed(harts, initiator) == 0 {
            assert forall|t: int| 0 <= t < harts.len() implies occurrences(
                (#[trigger] harts[t]).waiters,
                initiator,
            ) == 0 by {
                if t < harts.len() - 1 {
                    assert(front[t] == harts[t]);
                }
            }
        } else if owed(front, initiator) != 0 {
            let t = choose|t: int|
                0 <= t < front.len() && occurrences((#[trigger] front[t]).waiters, initiator)
                    != 0;
            assert(harts[t] == front[t]);
        } else {
            assert(harts[harts.len() - 1] == harts.last());
        }
    }
}

/// The rendezvous record of one hart.
#[derive(Debug)]
struct RFenceCell {
    slot: Option<RFenceContext>,
    waiters: Vec<usize>,
    wait_sync_count: usize,
}

/// The context of one hart.
#[derive(Debug)]
struct HartContext {
    ipi_type: u8,
    hsm: HsmCell,
    rfence: RFenceCell,
}

impl View for HartContext {
    type V = HartModel;

    closed spec fn view(&self) -> HartModel {
        HartModel {
            ipi_type: self.ipi_type,
            state: self.hsm@,
            rfence_slot: self.rfence.slot,
            waiters: self.rfence.waiters@,
            wait_sync_count: self.rfence.wait_sync_count,
        }
    }
}

/// The store of hart contexts. The hart with id `i` has the slot `i`; an id
/// at or past the length names no hart of the system.
#[derive(Debug)]
pub struct ContextStore {
    harts: Vec<HartContext>,
}

impl View for ContextStore {
    type V = Seq<HartModel>;

    closed spec fn view(&self) -> Seq<HartModel> {
        Seq::new(self.harts@.len(), |i: int| self.harts@[i]@)
    }
}

impl ContextStore {
    /// Whether the rendezvous records of the store are consistent.
    pub open spec fn wf(&self) -> bool {
        store_wf(self@)
    }

    /// A store for `hart_count` harts: each stopped, with no event pending,
    /// an empty slot and nothing to wait for.
    pub fn new(hart_count: usize) -> (store: Self)
        ensures
            store.wf(),
            store@.len() == hart_count,
            forall|h: int|
                0 <= h < hart_count ==> (#[trigger] store@[h]) == (HartModel {
                    ipi_type: 0,
                    state: HartState::Stopped,
                    rfence_slot: None,
                    waiters: Seq::empty(),
                    wait_sync_count: 0,
                }),
    {
        let mut harts: Vec<HartContext> = Vec::new();
        let mut i: usize = 0;
        while i < hart_count
            invariant
                i <= hart_count,
                harts@.len() == i,
                forall|h: int|
                    0 <= h < i ==> (#[trigger] harts@[h])@ == (HartModel {
                        ipi_type: 0,
                        state: HartState::Stopped,
                        rfence_slot: None,
                        waiters: Seq::empty(),
                        wait_sync_count: 0,
                    }),
            decreases hart_count - i,
        {
            harts.push(
                HartContext {
                    ipi_type: 0,
                    hsm: HsmCell::new(),
                    rfence: RFenceCell { slot: None, waiters: Vec::new(), wait_sync_count: 0 },
                },
            );
            i += 1;
        }
        let store = ContextStore { harts };
        proof {
            assert forall|i: usize| i < store@.len() implies store@[i as int].wait_sync_count
                == #[trigger] owed(store@, i) by {
                lemma_owed_zero(store@, i);
            }
        }
        store
    }

    /// A store holds no more harts than a hart id can name.
    pub proof fn lemma_len_fits(&self)
        ensures
            self@.len() <= usize::MAX,
    {
        assert(self.harts.len() == self.harts@.len());
    }

    /// The number of harts in the store.
    pub fn len(&self) -> (count: usize)
        ensures
            count == self@.len(),
    {
        self.harts.len()
    }

    /// The state cell of a hart, or `None` for an id that names no hart.
    pub fn remote_hsm(&self, hart_id: usize) -> (cell: Option<HsmCell>)
        ensures
            cell.is_some() <==> hart_id < self@.len(),
            cell matches Some(c) ==> c@ == self@[hart_id as int].state,
    {
        if hart_id < self.harts.len() {
            Some(self.harts[hart_id].hsm)
        } else {
            None
        }
    }

    /// Moves a hart from `expected` to `next` as one compare-and-swap.
    ///
    /// The move happens when the id names a hart, the hart is in `expected`
    /// and the lifecycle has the edge; otherwise nothing changes and the
    /// result is false.
    pub fn hsm_transition(
        &mut self,
        hart_id: usize,
        expected: HartState,
        next: HartState,
    ) -> (moved: bool)
        requires
            old(self).wf(),
        ensures
            final(self).wf(),
            moved == (hart_id < old(self)@.len() && old(self)@[hart_id as int].state == expected
                && expected.steps_to(next)),
            moved ==> final(self)@ == with_state(old(self)@, hart_id, next),
            !moved ==> final(self)@ == old(self)@,
    {
        if hart_id < self.harts.len() {
            let moved = self.harts[hart_id].hsm.transition(expected, next);
            proof {
                if moved {
                    assert(self@ == with_state(old(self)@, hart_id, next));
                } else {
                    assert(self@ == old(self)@);
                }
                lemma_wf_ignores_events_and_state(old(self)@, self@);
            }
            moved
        } else {
            false
        }
    }

    /// The events that wait for a hart's next trap.
    pub fn ipi_type(&self, hart_id: usize) -> (events: u8)
        requires
            hart_id < self@.len(),
        ensures
            events == self@[hart_id as int].ipi_type,
    {
        self.harts[hart_id].ipi_type
    }

    /// Adds `event_id` to the pending events of a hart and returns what was
    /// pending before, as one fetch-or.
    pub fn fetch_or_ipi_type(&mut self, hart_id: usize, event_id: u8) -> (before: u8)
        requires
            old(self).wf(),
            hart_id < old(self)@.len(),
        ensures
            final(self).wf(),
            before == old(self)@[hart_id as int].ipi_type,
            final(self)@ == with_event(old(self)@, hart_id, event_id),
    {
        let before = self.harts[hart_id].ipi_type;
        self.harts[hart_id].ipi_type = before | event_id;
        proof {
            assert(self@ == with_event(old(self)@, hart_id, event_id));
            lemma_wf_ignores_events_and_state(old(self)@, self@);
        }
        before
    }

    /// Takes the pending events of a hart, as one swap with zero.
    pub fn swap_ipi_type(&mut self, hart_id: usize) -> (before: u8)
        requires
            old(self).wf(),
            hart_id < old(self)@.len(),
        ensures
            final(self).wf(),
            before == old(self)@[hart_id as int].ipi_type,
            final(self)@ == without_events(old(self)@, hart_id),
    {
        let before = self.harts[hart_id].ipi_type;
        self.harts[hart_id].ipi_type = 0;
        proof {
            assert(self@ == without_events(old(self)@, hart_id));
            lemma_wf_ignores_events_and_state(old(self)@, self@);
        }
        before
    }

    /// The fence request that waits in a hart's slot.
    pub fn rfence_slot(&self, hart_id: usize) -> (slot: Option<RFenceContext>)
        requires
            hart_id < self@.len(),
        ensures
            slot == self@[hart_id as int].rfence_slot,
    {
        self.harts[hart_id].rfence.slot
    }

    /// The number of acknowledgements that a hart still waits for.
    pub fn wait_sync_count(&self, hart_id: usize) -> (count: usize)
        requires
            hart_id < self@.len(),
        ensures
            count == self@[hart_id as int].wait_sync_count,
    {
        self.harts[hart_id].rfence.wait_sync_count
    }

    /// Whether every target of a hart's fences has acknowledged.
    pub fn is_sync(&self, hart_id: usize) -> (synchronized: bool)
        requires
            hart_id < self@.len(),
        ensures
            synchronized == (self@[hart_id as int].wait_sync_count == 0),
    {
        self.harts[hart_id].rfence.wait_sync_count == 0
    }

    /// Publishes the request `ctx` of `initiator` to `target`.
    pub fn publish_fence(&mut self, initiator: usize, target: usize, ctx: RFenceContext)
        requires
            old(self).wf(),
            initiator < old(self)@.len(),
            target < old(self)@.len(),
            old(self)@[initiator as int].wait_sync_count < usize::MAX,
        ensures
            final(self).wf(),
            final(self)@ == published(old(self)@, initiator, target, ctx),
    {
        self.harts[target].rfence.slot = Some(ctx);
        self.harts[target].rfence.waiters.push(initiator);
        self.harts[initiator].rfence.wait_sync_count += 1;
        proof {
            assert(self@ == published(old(self)@, initiator, target, ctx));
            lemma_published_wf(old(self)@, initiator, target, ctx);
        }
    }

    /// Serves the slot of a hart: empties it, acknowledges to every waiting
    /// initiator, and returns the request that the hart must now apply.
    pub fn service_fence(&mut self, hart_id: usize) -> (applied: Option<RFenceContext>)
        requires
            old(self).wf(),
            hart_id < old(self)@.len(),
        ensures
            final(self).wf(),
            applied == old(self)@[hart_id as int].rfence_slot,
            final(self)@ == serviced(old(self)@, hart_id),
    {
        let applied = self.harts[hart_id].rfence.slot;
        let count = self.harts[hart_id].rfence.waiters.len();
        let ghost before = self@;
        proof {
            self.lemma_len_fits();
            assert(before[hart_id as int].waiters.take(0) == Seq::<usize>::empty());
            assert(self@ =~= acknowledged(before, hart_id, 0));
        }
        let mut k: usize = 0;
        while k < count
            invariant
                k <= count,
                count == before[hart_id as int].waiters.len(),
                hart_id < before.len() <= usize::MAX,
                store_wf(before),
                self@.len() == before.len(),
                self@ == acknowledged(before, hart_id, k as int),
            decreases count - k,
        {
            let ghost reached = acknowledged(before, hart_id, k as int);
            proof {
                lemma_acknowledge_next(before, hart_id, k as int);
                assert(self@[hart_id as int] == reached[hart_id as int]);
            }
            let waiter = self.harts[hart_id].rfence.waiters[k];
            proof {
                assert(self@[waiter as int] == reached[waiter as int]);
            }
            self.harts[waiter].rfence.wait_sync_count -= 1;
            k += 1;
            proof {
                assert(self@ =~= acknowledged(before, hart_id, k as int));
            }
        }
        let ghost settled = self@;
        self.harts[hart_id].rfence.waiters.clear();
        self.harts[hart_id].rfence.slot = None;
        proof {
            let waiting = before[hart_id as int].waiters;
            assert(waiting.take(count as int) == waiting);
            assert forall|i: int| 0 <= i < before.len() implies self@[i] == serviced(
                before,
                hart_id,
            )[i] by {
                assert(settled[i] == acknowledged(before, hart_id, count as int)[i]);
            }
            assert(self@ =~= serviced(before, hart_id));
            lemma_serviced_wf(before, hart_id);
        }
        applied
    }
}

/// The store while a hart serves its slot, after the first `served` of those
/// who wait for it have been acknowledged.
pub open spec fn acknowledged(harts: Seq<HartModel>, hart_id: usize, served: int) -> Seq<
    HartModel,
> {
    Seq::new(
        harts.len(),
        |i: int|
            HartModel {
                wait_sync_count: (harts[i].wait_sync_count - occurrences(
                    harts[hart_id as int].waiters.take(served),
                    i as usize,
                )) as usize,
                ..harts[i]
            },
    )
}

/// The next waiter to be acknowledged is a hart of the store with a counter
/// above zero, and acknowledging it lowers that counter by one.
proof fn lemma_acknowledge_next(harts: Seq<HartModel>, hart_id: usize, served: int)
    requires
        store_wf(harts),
        hart_id < harts.len() <= usize::MAX,
        0 <= served < harts[hart_id as int].waiters.len(),
    ensures
        harts[hart_id as int].waiters[served] < harts.len(),
        acknowledged(harts, hart_id, served)[hart_id as int].waiters
            == harts[hart_id as int].waiters,
        acknowledged(
            harts,
            hart_id,
            served,
        )[harts[hart_id as int].waiters[served] as int].wait_sync_count > 0,
        acknowledged(harts, hart_id, served + 1) == acknowledged(harts, hart_id, served).update(
            harts[hart_id as int].waiters[served] as int,
            HartModel {
                wait_sync_count: (acknowledged(
                    harts,
                    hart_id,
                    served,
                )[harts[hart_id as int].waiters[served] as int].wait_sync_count - 1) as usize,
                ..acknowledged(harts, hart_id, served)[harts[hart_id as int].waiters[served] as int]
            },
        ),
{
    let waiting = harts[hart_id as int].waiters;
    let waiter = waiting[served];
    let done = waiting.take(served);
    let next = waiting.take(served + 1);
    assert(next == done.push(waiter));
    assert(waiting == next + waiting.skip(served + 1));
    assert forall|i: usize| i < harts.len() implies #[trigger] occurrences(next, i)
        <= harts[i as int].wait_sync_count && occurrences(next, i) == occurrences(done, i)
        + if waiter == i {
        1nat
    } else {
        0nat
    } by {
        lemma_owed_covers(harts, hart_id as int, i);
        assert(harts[i as int].wait_sync_count == owed(harts, i));
        lemma_occurrences_concat(next, waiting.skip(served + 1), i);
        lemma_occurrences_push(done, waiter, i);
    }
    assert(occurrences(next, waiter) <= harts[waiter as int].wait_sync_count);
    let now = acknowledged(harts, hart_id, served);
    let then = now.update(
        waiter as int,
        HartModel {
            wait_sync_count: (now[waiter as int].wait_sync_count - 1) as usize,
            ..now[waiter as int]
        },
    );
    assert forall|i: int| 0 <= i < harts.len() implies acknowledged(harts, hart_id, served + 1)[i]
        == then[i] by {
        assert(occurrences(next, i as usize) <= harts[i].wait_sync_count);
    }
    assert(acknowledged(harts, hart_id, served + 1) =~= then);
}

/// The consistency of the rendezvous does not depend on the pending events
/// or the lifecycle states.
pub proof fn lemma_wf_ignores_events_and_state(before: Seq<HartModel>, after: Seq<HartModel>)
    requires
        store_wf(before),
        before.len() == after.len(),
        forall|i: int|
            0 <= i < before.len() ==> {
                &&& (#[trigger] after[i]).rfence_slot == before[i].rfence_slot
                &&& after[i].waiters == before[i].waiters
                &&& after[i].wait_sync_count == before[i].wait_sync_count
            },
    ensures
        store_wf(after),
{
    assert forall|i: usize| i < after.len() implies after[i as int].wait_sync_count
        == #[trigger] owed(after, i) by {
        assert(before[i as int].wait_sync_count == owed(before, i));
        lemma_owed_same(before, after, i);
    }
    assert forall|t: int, k: int|
        0 <= t < after.len() && 0 <= k < after[t].waiters.len() implies (
    #[trigger] after[t].waiters[k]) < after.len() by {
        assert(before[t].waiters[k] < before.len());
    }
    assert forall|t: int| 0 <= t < after.len() implies ((#[trigger] after[t]).rfence_slot.is_some()
        <==> after[t].waiters.len() > 0) by {
        assert(before[t].rfence_slot.is_some() <==> before[t].waiters.len() > 0);
    }
}

/// Publishing keeps the rendezvous consistent.
pub proof fn lemma_published_wf(
    harts: Seq<HartModel>,
    initiator: usize,
    target: usize,
    ctx: RFenceContext,
)
    requires
        store_wf(harts),
        initiator < harts.len(),
        target < harts.len(),
        harts[initiator as int].wait_sync_count < usize::MAX,
    ensures
        store_wf(published(harts, initiator, target, ctx)),
{
    let after = published(harts, initiator, target, ctx);
    assert forall|i: usize| i < after.len() implies after[i as int].wait_sync_count
        == #[trigger] owed(after, i) by {
        assert(harts[i as int].wait_sync_count == owed(harts, i));
        lemma_owed_differs_at(harts, after, target as int, i);
        lemma_occurrences_push(harts[target as int].waiters, initiator, i);
    }
    assert forall|t: int, k: int|
        0 <= t < after.len() && 0 <= k < after[t].waiters.len() implies (
    #[trigger] after[t].waiters[k]) < after.len() by {
        if t == target && k == harts[t].waiters.len() {
        } else {
            assert(harts[t].waiters[k] < harts.len());
        }
    }
    assert forall|t: int| 0 <= t < after.len() implies ((#[trigger] after[t]).rfence_slot.is_some()
        <==> after[t].waiters.len() > 0) by {
        assert(harts[t].rfence_slot.is_some() <==> harts[t].waiters.len() > 0);
    }
}

/// Serving a slot keeps the rendezvous consistent.
pub proof fn lemma_serviced_wf(harts: Seq<HartModel>, hart_id: usize)
    requires
        store_wf(harts),
        hart_id < harts.len(),
    ensures
        store_wf(serviced(harts, hart_id)),
{
    let after = serviced(harts, hart_id);
    assert forall|i: usize| i < after.len() implies after[i as int].wait_sync_count
        == #[trigger] owed(after, i) by {
        assert(harts[i as int].wait_sync_count == owed(harts, i));
        lemma_owed_differs_at(harts, after, hart_id as int, i);
        lemma_owed_covers(harts, hart_id as int, i);
    }
    assert forall|t: int, k: int|
        0 <= t < after.len() && 0 <= k < after[t].waiters.len() implies (
    #[trigger] after[t].waiters[k]) < after.len() by {
        assert(harts[t].waiters[k] < harts.len());
    }
    assert forall|t: int| 0 <= t < after.len() implies ((#[trigger] after[t]).rfence_slot.is_some()
        <==> after[t].waiters.len() > 0) by {
        assert(harts[t].rfence_slot.is_some() <==> harts[t].waiters.len() > 0);
    }
}

} // verus!
