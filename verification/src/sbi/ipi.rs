//! Inter-processor interrupts: the dispatcher that signals a set of harts,
//! and the timer facade over the interrupt device.

use crate::sbi::binary::{HartMask, SbiRet};
use crate::sbi::device::{lemma_set_msip_each, DeviceState, IpiDevice};
use crate::sbi::hart_context::{with_event, without_events, ContextStore, HartModel};
use crate::sbi::tally::{lemma_occurrences_concat, lemma_occurrences_positive, occurrences};
use vstd::prelude::*;

verus! {

/// The event of a supervisor software interrupt.
pub const IPI_TYPE_SSOFT: u8 = 0x01;

/// The event of a remote fence that waits in the hart's slot.
pub const IPI_TYPE_FENCE: u8 = 0x02;

/// Whether the hart `hart_id` takes a signal sent to `mask`: the scan up to
/// `max_hart_id` reaches it, the mask selects it, it is a hart of the store,
/// and its lifecycle state lets it serve interrupts.
pub open spec fn eligible(
    harts: Seq<HartModel>,
    max_hart_id: usize,
    mask: HartMask,
    hart_id: int,
) -> bool {
    &&& 0 <= hart_id <= max_hart_id
    &&& hart_id < harts.len()
    &&& mask.selects(hart_id as usize)
    &&& harts[hart_id].state.ipi_eligible()
}

/// Whether a signal sent to `mask` raises the interrupt line of the hart: it
/// takes the signal, the sender does not leave it out, and it had no event
/// pending.
pub open spec fn pulse_due(
    harts: Seq<HartModel>,
    max_hart_id: usize,
    mask: HartMask,
    skip: Option<usize>,
    hart_id: int,
) -> bool {
    &&& eligible(harts, max_hart_id, mask, hart_id)
    &&& skip != Some(hart_id as usize)
    &&& harts[hart_id].ipi_type == 0
}

/// The harts below `bound` whose interrupt line a signal raises, in
/// ascending order.
pub open spec fn pulses_below(
    harts: Seq<HartModel>,
    max_hart_id: usize,
    mask: HartMask,
    skip: Option<usize>,
    bound: int,
) -> Seq<usize>
    decreases bound,
{
    if bound <= 0 {
        Seq::empty()
    } else {
        let earlier = pulses_below(harts, max_hart_id, mask, skip, bound - 1);
        if pulse_due(harts, max_hart_id, mask, skip, bound - 1) {
            earlier.push((bound - 1) as usize)
        } else {
            earlier
        }
    }
}

/// The store after the harts below `bound` that take a signal sent to `mask`
/// have the software interrupt event pending.
pub open spec fn signalled_below(
    harts: Seq<HartModel>,
    max_hart_id: usize,
    mask: HartMask,
    bound: int,
) -> Seq<HartModel> {
    Seq::new(
        harts.len(),
        |h: int|
            if h < bound && eligible(harts, max_hart_id, mask, h) {
                HartModel { ipi_type: harts[h].ipi_type | IPI_TYPE_SSOFT, ..harts[h] }
            } else {
                harts[h]
            },
    )
}

/// The store after a signal sent to `mask`: every hart that takes it has the
/// software interrupt event pending, and every other hart is as before.
pub open spec fn signalled(harts: Seq<HartModel>, max_hart_id: usize, mask: HartMask) -> Seq<
    HartModel,
> {
    signalled_below(harts, max_hart_id, mask, max_hart_id + 1)
}

/// The harts whose interrupt line a signal sent to `mask` raises, in
/// ascending order: those that take it and had no event pending.
pub open spec fn signal_pulses(harts: Seq<HartModel>, max_hart_id: usize, mask: HartMask) -> Seq<
    usize,
> {
    pulses_below(harts, max_hart_id, mask, None, max_hart_id + 1)
}

/// The timer registers that are local to one hart.
#[derive(Debug, Clone, Copy, PartialEq, Eq)]
pub struct TimerCsr {
    /// The supervisor timer compare register of the fast-compare extension.
    pub stime_compare: u64,
    /// Whether the supervisor timer interrupt is pending.
    pub stimer_pending: bool,
    /// Whether the machine timer interrupt is enabled.
    pub mtimer_enabled: bool,
}

/// The low machine word of a machine time: all of it on a machine with words
/// of 64 bits, its low half on one with words of 32 bits.
pub open spec fn time_low(mtime: u64) -> usize {
    mtime as usize
}

/// The high 32 bits of a machine time.
pub open spec fn time_high(mtime: u64) -> usize {
    (mtime >> 32) as usize
}

/// Whether the device serves every hart that a scan up to `max_hart_id`
/// reaches in a store of `hart_count` harts.
pub open spec fn serves_reached(dev: DeviceState, max_hart_id: usize, hart_count: nat) -> bool {
    forall|h: usize| h <= max_hart_id && h < hart_count ==> #[trigger] dev.serves(h)
}

/// Whether every hart with an event pending has its interrupt line raised,
/// as far as the device serves it. While this holds no event is lost: the
/// hart will trap and find it.
pub open spec fn lines_cover_events(harts: Seq<HartModel>, dev: DeviceState) -> bool {
    forall|h: usize|
        h < harts.len() && dev.serves(h) && (#[trigger] harts[h as int]).ipi_type != 0
            ==> dev.hart(h).msip
}

/// The inter-processor interrupt service: the interrupt device, and the
/// highest hart id that a scan over the harts reaches.
pub struct SbiIpi<T: IpiDevice> {
    /// The interrupt device.
    pub ipi_dev: T,
    /// The highest hart id in the system.
    pub max_hart_id: usize,
}

/// Adds `event_id` to the pending events of a hart and returns the events
/// that were pending before.
pub fn set_ipi_type(store: &mut ContextStore, hart_id: usize, event_id: u8) -> (before: u8)
    requires
        old(store).wf(),
        hart_id < old(store)@.len(),
    ensures
        final(store).wf(),
        before == old(store)@[hart_id as int].ipi_type,
        final(store)@ == with_event(old(store)@, hart_id, event_id),
{
    store.fetch_or_ipi_type(hart_id, event_id)
}

/// Takes the pending events of a hart: returns them and leaves none pending.
pub fn get_and_reset_ipi_type(store: &mut ContextStore, hart_id: usize) -> (events: u8)
    requires
        old(store).wf(),
        hart_id < old(store)@.len(),
    ensures
        final(store).wf(),
        events == old(store)@[hart_id as int].ipi_type,
        final(store)@ == without_events(old(store)@, hart_id),
{
    store.swap_ipi_type(hart_id)
}

/// Clears the pending machine software interrupt of the hart `hart_id`,
/// where the service has been set up; does nothing where it has not.
pub fn clear_msip<T: IpiDevice>(ipi: &mut Option<SbiIpi<T>>, hart_id: usize)
    requires
        *old(ipi) matches Some(service) ==> service.ipi_dev@.serves(hart_id),
    ensures
        *old(ipi) is None ==> *final(ipi) is None,
        *old(ipi) matches Some(service) ==> *final(ipi) is Some && (*final(ipi))->0.max_hart_id
            == service.max_hart_id && (*final(ipi))->0.ipi_dev@ == service.ipi_dev@.clear_msip(
            hart_id,
        ),
{
    match ipi {
        Some(service) => service.clear_msip(hart_id),
        None => {},
    }
}

/// Moves the timer deadline of the hart `hart_id` to the end of time, where
/// the service has been set up; does nothing where it has not.
pub fn clear_mtime<T: IpiDevice>(ipi: &mut Option<SbiIpi<T>>, hart_id: usize)
    requires
        *old(ipi) matches Some(service) ==> service.ipi_dev@.serves(hart_id),
    ensures
        *old(ipi) is None ==> *final(ipi) is None,
        *old(ipi) matches Some(service) ==> *final(ipi) is Some && (*final(ipi))->0.max_hart_id
            == service.max_hart_id && (*final(ipi))->0.ipi_dev@ == service.ipi_dev@.write_compare(
            hart_id,
            u64::MAX,
        ),
{
    match ipi {
        Some(service) => service.write_mtimecmp(hart_id, u64::MAX),
        None => {},
    }
}

/// Disarms the hart `hart_id`, where the service has been set up: clears its
/// pending machine software interrupt and moves its timer deadline to the end
/// of time. Does nothing where the service has not been set up.
pub fn clear_all<T: IpiDevice>(ipi: &mut Option<SbiIpi<T>>, hart_id: usize)
    requires
        *old(ipi) matches Some(service) ==> service.ipi_dev@.serves(hart_id),
    ensures
        *old(ipi) is None ==> *final(ipi) is None,
        *old(ipi) matches Some(service) ==> *final(ipi) is Some && (*final(ipi))->0.max_hart_id
            == service.max_hart_id && (*final(ipi))->0.ipi_dev@ == service.ipi_dev@.clear_msip(
            hart_id,
        ).write_compare(hart_id, u64::MAX),
{
    match ipi {
        Some(service) => service.clear(hart_id),
        None => {},
    }
}

impl<T: IpiDevice> SbiIpi<T> {
    /// Whether the device serves every hart of the store that a scan
    /// reaches.
    pub open spec fn serves(&self, store: &ContextStore) -> bool {
        serves_reached(self.ipi_dev@, self.max_hart_id, store@.len())
    }

    /// The service over the given device, for the harts up to `max_hart_id`.
    pub fn new(ipi_dev: T, max_hart_id: usize) -> (ipi: Self)
        ensures
            ipi.ipi_dev == ipi_dev,
            ipi.max_hart_id == max_hart_id,
    {
        SbiIpi { ipi_dev, max_hart_id }
    }

    /// Arms the timer of the hart `hart_id` for the deadline `stime_value`.
    ///
    /// With the fast-compare extension the deadline goes to the hart's own
    /// compare register. Without it the deadline goes to the hart's compare
    /// value in the device, and the pending supervisor timer interrupt is
    /// cleared so that the new deadline is the one that fires. Either way the
    /// machine timer interrupt is enabled.
    pub fn set_timer(
        &mut self,
        csr: &mut TimerCsr,
        hart_id: usize,
        uses_sstc: bool,
        stime_value: u64,
    )
        requires
            !uses_sstc ==> old(self).ipi_dev@.serves(hart_id),
        ensures
            final(self).max_hart_id == old(self).max_hart_id,
            uses_sstc ==> final(self).ipi_dev@ == old(self).ipi_dev@ && *final(csr) == (TimerCsr {
                stime_compare: stime_value,
                mtimer_enabled: true,
                ..*old(csr)
            }),
            !uses_sstc ==> final(self).ipi_dev@ == old(self).ipi_dev@.write_compare(
                hart_id,
                stime_value,
            ) && *final(csr) == (TimerCsr {
                stimer_pending: false,
                mtimer_enabled: true,
                ..*old(csr)
            }),
    {
        if uses_sstc {
            csr.stime_compare = stime_value;
        } else {
            self.write_mtimecmp(hart_id, stime_value);
            csr.stimer_pending = false;
        }
        csr.mtimer_enabled = true;
    }

    /// The low machine word of the machine time.
    pub fn get_time(&self) -> (low: usize)
        ensures
            low == time_low(self.ipi_dev@.mtime),
    {
        self.ipi_dev.read_mtime() as usize
    }

    /// The high 32 bits of the machine time.
    pub fn get_timeh(&self) -> (high: usize)
        ensures
            high == time_high(self.ipi_dev@.mtime),
    {
        (self.ipi_dev.read_mtime() >> 32) as usize
    }

    /// Sets the machine software interrupt pending bit of a hart.
    pub fn set_msip(&mut self, hart_idx: usize)
        requires
            old(self).ipi_dev@.serves(hart_idx),
        ensures
            final(self).max_hart_id == old(self).max_hart_id,
            final(self).ipi_dev@ == old(self).ipi_dev@.set_msip(hart_idx),
    {
        self.ipi_dev.set_msip(hart_idx)
    }

    /// Clears the machine software interrupt pending bit of a hart.
    pub fn clear_msip(&mut self, hart_idx: usize)
        requires
            old(self).ipi_dev@.serves(hart_idx),
        ensures
            final(self).max_hart_id == old(self).max_hart_id,
            final(self).ipi_dev@ == old(self).ipi_dev@.clear_msip(hart_idx),
    {
        self.ipi_dev.clear_msip(hart_idx)
    }

    /// Writes the machine timer compare value of a hart.
    pub fn write_mtimecmp(&mut self, hart_idx: usize, val: u64)
        requires
            old(self).ipi_dev@.serves(hart_idx),
        ensures
            final(self).max_hart_id == old(self).max_hart_id,
            final(self).ipi_dev@ == old(self).ipi_dev@.write_compare(hart_idx, val),
    {
        self.ipi_dev.write_mtimecmp(hart_idx, val)
    }

    /// Disarms the hart `hart_id`: clears its pending machine software
    /// interrupt and moves its timer deadline to the end of time.
    pub fn clear(&mut self, hart_id: usize)
        requires
            old(self).ipi_dev@.serves(hart_id),
        ensures
            final(self).max_hart_id == old(self).max_hart_id,
            final(self).ipi_dev@ == old(self).ipi_dev@.clear_msip(hart_id).write_compare(
                hart_id,
                u64::MAX,
            ),
    {
        self.ipi_dev.clear_msip(hart_id);
        self.ipi_dev.write_mtimecmp(hart_id, u64::MAX);
    }

    /// Signals the harts of `hart_mask`.
    ///
    /// Each hart up to `max_hart_id` that the mask selects, that the store
    /// knows and whose state lets it serve interrupts gets the software
    /// interrupt event; its interrupt line is raised only where no event was
    /// pending. Every other hart is left alone. The call always succeeds.
    pub fn send_ipi(&mut self, store: &mut ContextStore, hart_mask: HartMask) -> (ret: SbiRet)
        requires
            old(self).serves(old(store)),
            old(store).wf(),
        ensures
            final(store).wf(),
            final(store)@ == signalled(old(store)@, old(self).max_hart_id, hart_mask),
            final(self).max_hart_id == old(self).max_hart_id,
            final(self).ipi_dev@ == old(self).ipi_dev@.set_msip_each(
                signal_pulses(old(store)@, old(self).max_hart_id, hart_mask),
            ),
            ret == (SbiRet { error: 0, value: 0 }),
    {
        let max_hart_id = self.max_hart_id;
        let ghost before = store@;
        let ghost dev_before = self.ipi_dev@;
        let mut hart_id: usize = 0;
        let mut scanned = false;
        while !scanned
            invariant
                hart_id <= max_hart_id,
                self.max_hart_id == max_hart_id,
                store.wf(),
                store@ == signalled_below(
                    before,
                    max_hart_id,
                    hart_mask,
                    hart_id + if scanned { 1int } else { 0int },
                ),
                self.ipi_dev@ == dev_before.set_msip_each(
                    pulses_below(
                        before,
                        max_hart_id,
                        hart_mask,
                        None,
                        hart_id + if scanned { 1int } else { 0int },
                    ),
                ),
                self.ipi_dev@.harts.len() == dev_before.harts.len(),
                serves_reached(dev_before, max_hart_id, before.len()),
                scanned ==> hart_id == max_hart_id,
            decreases max_hart_id - hart_id + if scanned { 0int } else { 1int },
        {
            let ghost pulsed = pulses_below(before, max_hart_id, hart_mask, None, hart_id as int);
            let mut takes = false;
            if hart_mask.has_bit(hart_id) {
                if let Some(hsm) = store.remote_hsm(hart_id) {
                    if hsm.allow_ipi() {
                        takes = true;
                        if set_ipi_type(store, hart_id, IPI_TYPE_SSOFT) == 0 {
                            assert(dev_before.serves(hart_id));
                            self.ipi_dev.set_msip(hart_id);
                            proof {
                                assert(pulsed.push(hart_id).drop_last() == pulsed);
                            }
                        }
                    }
                }
            }
            proof {
                assert(takes == eligible(before, max_hart_id, hart_mask, hart_id as int));
                assert(store@ =~= signalled_below(before, max_hart_id, hart_mask, hart_id + 1));
            }
            if hart_id == max_hart_id {
                scanned = true;
            } else {
                hart_id += 1;
            }
        }
        SbiRet::success(0)
    }
}

/// What the event bits do to a set of pending events: a bit that was added is
/// set and the set is no longer empty, adding one bit keeps the other, and
/// adding a bit takes none away.
pub proof fn lemma_event_bits(events: u8)
    by (bit_vector)
    ensures
        (events | 0x01) & 0x01 == 0x01,
        (events | 0x02) & 0x02 == 0x02,
        (events | 0x01) != 0,
        (events | 0x02) != 0,
        (events | 0x01) & 0x02 == events & 0x02,
        (events | 0x02) & 0x01 == events & 0x01,
        (events | 0x01) & events == events,
        (events | 0x02) & events == events,
        events & events == events,
{
}

/// The two halves of a machine time: the high half is the time shifted down
/// by 32 bits, and the low machine word is the whole time where a word has 64
/// bits and its low 32 bits where a word has 32.
pub proof fn lemma_time_halves(mtime: u64)
    ensures
        time_high(mtime) == mtime >> 32,
        time_low(mtime) == mtime || time_low(mtime) == mtime & 0xffff_ffff,
        mtime <= 0xffff_ffff ==> time_low(mtime) == mtime && time_high(mtime) == 0,
{
    assert((mtime >> 32) as usize == mtime >> 32) by (bit_vector);
    assert(mtime as usize == mtime || mtime as usize == mtime & 0xffff_ffff) by (bit_vector);
    assert(mtime <= 0xffff_ffff ==> mtime as usize == mtime && (mtime >> 32) == 0)
        by (bit_vector);
}

/// The harts whose line a signal raises are harts that the device serves,
/// where it serves every hart of the store that the scan reaches.
pub proof fn lemma_pulses_are_served(
    harts: Seq<HartModel>,
    max_hart_id: usize,
    mask: HartMask,
    skip: Option<usize>,
    dev: DeviceState,
)
    requires
        serves_reached(dev, max_hart_id, harts.len()),
    ensures
        forall|k: int|
            0 <= k < pulses_below(harts, max_hart_id, mask, skip, max_hart_id + 1).len()
                ==> dev.serves(
                #[trigger] pulses_below(harts, max_hart_id, mask, skip, max_hart_id + 1)[k],
            ),
{
    let pulses = pulses_below(harts, max_hart_id, mask, skip, max_hart_id + 1);
    lemma_pulses_below(harts, max_hart_id, mask, skip, max_hart_id + 1);
    assert forall|k: int| 0 <= k < pulses.len() implies dev.serves(#[trigger] pulses[k]) by {
        assert(pulses.contains(pulses[k]));
    }
}

/// The harts whose line a signal raises are those below the bound for which
/// a pulse is due, each once, in ascending order.
pub proof fn lemma_pulses_below(
    harts: Seq<HartModel>,
    max_hart_id: usize,
    mask: HartMask,
    skip: Option<usize>,
    bound: int,
)
    ensures
        ({
            let pulses = pulses_below(harts, max_hart_id, mask, skip, bound);
            &&& forall|h: usize| #[trigger]
                pulses.contains(h) <==> h < bound && pulse_due(
                    harts,
                    max_hart_id,
                    mask,
                    skip,
                    h as int,
                )
            &&& forall|h: usize| #[trigger] occurrences(pulses, h) <= 1
            &&& forall|i: int, j: int|
                0 <= i < j < pulses.len() ==> #[trigger] pulses[i] < #[trigger] pulses[j]
            &&& forall|i: int| 0 <= i < pulses.len() ==> #[trigger] pulses[i] < bound
        }),
    decreases bound,
{
    let pulses = pulses_below(harts, max_hart_id, mask, skip, bound);
    if bound > 0 {
        let earlier = pulses_below(harts, max_hart_id, mask, skip, bound - 1);
        let last = (bound - 1) as usize;
        let due = pulse_due(harts, max_hart_id, mask, skip, bound - 1);
        lemma_pulses_below(harts, max_hart_id, mask, skip, bound - 1);
        assert forall|h: usize| #[trigger]
            pulses.contains(h) <==> h < bound && pulse_due(
                harts,
                max_hart_id,
                mask,
                skip,
                h as int,
            ) by {
            if due {
                assert(pulses[pulses.len() - 1] == last);
                if earlier.contains(h) {
                    let k = choose|k: int| 0 <= k < earlier.len() && earlier[k] == h;
                    assert(pulses[k] == h);
                }
                if pulses.contains(h) && h != last {
                    let k = choose|k: int| 0 <= k < pulses.len() && pulses[k] == h;
                    assert(earlier[k] == h);
                }
            }
        }
        assert forall|h: usize| #[trigger] occurrences(pulses, h) <= 1 by {
            assert(occurrences(earlier, h) <= 1);
            if due {
                assert(pulses.drop_last() == earlier);
                if h == last {
                    assert(!earlier.contains(h));
                    lemma_occurrences_positive(earlier, h);
                }
            }
        }
    }
}

/// A signal marks exactly the harts that take it.
///
/// For every mask, a hart that the scan reaches, that the mask selects and
/// whose state lets it serve interrupts has the software interrupt event
/// pending afterwards, with its other events, its state and its side of the
/// rendezvous as before. Every other hart is untouched.
pub proof fn lemma_signal_marks_exactly_the_eligible(
    harts: Seq<HartModel>,
    max_hart_id: usize,
    mask: HartMask,
    hart_id: int,
)
    requires
        0 <= hart_id < harts.len(),
    ensures
        signalled(harts, max_hart_id, mask).len() == harts.len(),
        eligible(harts, max_hart_id, mask, hart_id) ==> {
            &&& signalled(harts, max_hart_id, mask)[hart_id] == (HartModel {
                ipi_type: harts[hart_id].ipi_type | IPI_TYPE_SSOFT,
                ..harts[hart_id]
            })
            &&& signalled(harts, max_hart_id, mask)[hart_id].ipi_type & IPI_TYPE_SSOFT
                == IPI_TYPE_SSOFT
            &&& signalled(harts, max_hart_id, mask)[hart_id].ipi_type & IPI_TYPE_FENCE
                == harts[hart_id].ipi_type & IPI_TYPE_FENCE
        },
        !eligible(harts, max_hart_id, mask, hart_id) ==> signalled(
            harts,
            max_hart_id,
            mask,
        )[hart_id] == harts[hart_id],
{
    lemma_event_bits(harts[hart_id].ipi_type);
}

/// Neither a signal nor a fence raises the line of a hart that has an event
/// pending already: the events coalesce until the hart takes its trap.
pub proof fn lemma_pending_hart_is_not_pulsed(
    harts: Seq<HartModel>,
    max_hart_id: usize,
    mask: HartMask,
    skip: Option<usize>,
    hart_id: usize,
)
    requires
        hart_id < harts.len(),
        harts[hart_id as int].ipi_type != 0,
    ensures
        !pulses_below(harts, max_hart_id, mask, skip, max_hart_id + 1).contains(hart_id),
{
    lemma_pulses_below(harts, max_hart_id, mask, skip, max_hart_id + 1);
}

/// Two signals in a row raise a line at most once.
///
/// A signal raises the line of a hart only where no event was pending, and
/// leaves an event pending on every hart it reaches. So of two signals in a
/// row, with no trap of the target in between, at most one raises the
/// target's line, whatever the two masks are.
pub proof fn lemma_signals_coalesce(
    harts: Seq<HartModel>,
    dev: DeviceState,
    max_hart_id: usize,
    first: HartMask,
    second: HartMask,
    hart_id: usize,
)
    requires
        serves_reached(dev, max_hart_id, harts.len()),
    ensures
        occurrences(
            signal_pulses(harts, max_hart_id, first) + signal_pulses(
                signalled(harts, max_hart_id, first),
                max_hart_id,
                second,
            ),
            hart_id,
        ) <= 1,
        dev.set_msip_each(signal_pulses(harts, max_hart_id, first)).set_msip_each(
            signal_pulses(signalled(harts, max_hart_id, first), max_hart_id, second),
        ).pulse_count(hart_id) <= dev.pulse_count(hart_id) + 1,
{
    let after = signalled(harts, max_hart_id, first);
    let once = signal_pulses(harts, max_hart_id, first);
    let again = signal_pulses(after, max_hart_id, second);
    lemma_pulses_below(harts, max_hart_id, first, None, max_hart_id + 1);
    lemma_pulses_below(after, max_hart_id, second, None, max_hart_id + 1);
    lemma_occurrences_concat(once, again, hart_id);
    lemma_occurrences_positive(once, hart_id);
    lemma_occurrences_positive(again, hart_id);
    if once.contains(hart_id) {
        lemma_event_bits(harts[hart_id as int].ipi_type);
        assert(after[hart_id as int].ipi_type != 0);
        assert(!again.contains(hart_id));
    }
    lemma_pulses_are_served(harts, max_hart_id, first, None, dev);
    lemma_set_msip_each(dev, once);
    let raised = dev.set_msip_each(once);
    assert(serves_reached(raised, max_hart_id, after.len())) by {
        assert forall|h: usize| h <= max_hart_id && h < after.len() implies #[trigger]
            raised.serves(h) by {
            assert(dev.serves(h));
        }
    }
    lemma_pulses_are_served(after, max_hart_id, second, None, raised);
    lemma_set_msip_each(raised, again);
}

/// A hart whose state does not let it serve interrupts is left alone by a
/// signal: nothing of its context changes, and its line is not raised. This
/// holds in particular of a hart that is stopped or about to stop.
pub proof fn lemma_signal_spares_the_ineligible(
    harts: Seq<HartModel>,
    max_hart_id: usize,
    mask: HartMask,
    hart_id: usize,
)
    requires
        hart_id < harts.len(),
        !harts[hart_id as int].state.ipi_eligible(),
    ensures
        signalled(harts, max_hart_id, mask)[hart_id as int] == harts[hart_id as int],
        !signal_pulses(harts, max_hart_id, mask).contains(hart_id),
{
    lemma_pulses_below(harts, max_hart_id, mask, None, max_hart_id + 1);
}

/// A signal only adds events: whatever was pending for a hart is still
/// pending afterwards, and nothing but the pending events changes.
pub proof fn lemma_signal_only_adds_events(
    harts: Seq<HartModel>,
    max_hart_id: usize,
    mask: HartMask,
    hart_id: int,
)
    requires
        0 <= hart_id < harts.len(),
    ensures
        signalled(harts, max_hart_id, mask)[hart_id].ipi_type & harts[hart_id].ipi_type
            == harts[hart_id].ipi_type,
        signalled(harts, max_hart_id, mask)[hart_id] == (HartModel {
            ipi_type: signalled(harts, max_hart_id, mask)[hart_id].ipi_type,
            ..harts[hart_id]
        }),
{
    lemma_event_bits(harts[hart_id].ipi_type);
}

/// Coalescing loses no signal: where every hart with an event pending had
/// its line raised before a signal, the same holds after it.
pub proof fn lemma_signal_keeps_lines_raised(
    harts: Seq<HartModel>,
    dev: DeviceState,
    max_hart_id: usize,
    mask: HartMask,
)
    requires
        lines_cover_events(harts, dev),
        serves_reached(dev, max_hart_id, harts.len()),
    ensures
        lines_cover_events(
            signalled(harts, max_hart_id, mask),
            dev.set_msip_each(signal_pulses(harts, max_hart_id, mask)),
        ),
{
    let pulses = signal_pulses(harts, max_hart_id, mask);
    let after = signalled(harts, max_hart_id, mask);
    let raised = dev.set_msip_each(pulses);
    lemma_pulses_below(harts, max_hart_id, mask, None, max_hart_id + 1);
    lemma_pulses_are_served(harts, max_hart_id, mask, None, dev);
    lemma_set_msip_each(dev, pulses);
    assert forall|h: usize|
        h < after.len() && raised.serves(h) && (#[trigger] after[h as int]).ipi_type
            != 0 implies raised.hart(h).msip by {
        if harts[h as int].ipi_type == 0 {
            assert(pulses.contains(h));
        }
    }
}

} // verus!
