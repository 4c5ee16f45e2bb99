//! The interrupt device: the machine timer with one compare register per
//! hart, and one software-interrupt-pending bit per hart.

use crate::sbi::tally::{lemma_occurrences_push, occurrences};
use vstd::prelude::*;

verus! {

/// The registers that the device holds for one hart.
#[derive(Debug, Clone, Copy, PartialEq, Eq)]
pub struct HartRegisters {
    /// The machine timer compare value.
    pub compare: u64,
    /// The machine software interrupt pending bit.
    pub msip: bool,
}

/// What an interrupt device holds, and which harts it has been told to
/// interrupt so far.
pub ghost struct DeviceState {
    /// The machine time.
    pub mtime: u64,
    /// The registers of each hart, by hart index.
    pub harts: Seq<HartRegisters>,
    /// The harts whose pending bit was set, one entry per request, oldest
    /// first.
    pub pulses: Seq<usize>,
}

impl DeviceState {
    /// The state after the machine time is written.
    pub open spec fn write_mtime(self, val: u64) -> DeviceState {
        DeviceState { mtime: val, ..self }
    }

    /// Whether the device has registers for the hart.
    pub open spec fn serves(self, hart_idx: usize) -> bool {
        hart_idx < self.harts.len()
    }

    /// The registers of a hart.
    pub open spec fn hart(self, hart_idx: usize) -> HartRegisters {
        self.harts[hart_idx as int]
    }

    /// The state after the compare value of a hart is written.
    pub open spec fn write_compare(self, hart_idx: usize, val: u64) -> DeviceState {
        DeviceState {
            harts: self.harts.update(
                hart_idx as int,
                HartRegisters { compare: val, ..self.harts[hart_idx as int] },
            ),
            ..self
        }
    }

    /// The state after the pending bit of a hart is set: the bit is up and
    /// the request is on record.
    pub open spec fn set_msip(self, hart_idx: usize) -> DeviceState {
        DeviceState {
            harts: self.harts.update(
                hart_idx as int,
                HartRegisters { msip: true, ..self.harts[hart_idx as int] },
            ),
            pulses: self.pulses.push(hart_idx),
            ..self
        }
    }

    /// The state after the pending bit of a hart is cleared.
    pub open spec fn clear_msip(self, hart_idx: usize) -> DeviceState {
        DeviceState {
            harts: self.harts.update(
                hart_idx as int,
                HartRegisters { msip: false, ..self.harts[hart_idx as int] },
            ),
            ..self
        }
    }

    /// The state after the pending bits of `targets` are set in turn.
    pub open spec fn set_msip_each(self, targets: Seq<usize>) -> DeviceState
        decreases targets.len(),
    {
        if targets.len() == 0 {
            self
        } else {
            self.set_msip_each(targets.drop_last()).set_msip(targets.last())
        }
    }

    /// How often the pending bit of a hart has been set.
    pub open spec fn pulse_count(self, hart_idx: usize) -> nat {
        occurrences(self.pulses, hart_idx)
    }
}

/// Setting the pending bits of some harts in turn raises exactly those bits,
/// puts the requests on record in their order, and leaves the time and the
/// compare values alone.
pub proof fn lemma_set_msip_each(dev: DeviceState, targets: Seq<usize>)
    requires
        forall|k: int| 0 <= k < targets.len() ==> dev.serves(#[trigger] targets[k]),
    ensures
        dev.set_msip_each(targets).mtime == dev.mtime,
        dev.set_msip_each(targets).harts.len() == dev.harts.len(),
        dev.set_msip_each(targets).pulses == dev.pulses + targets,
        forall|h: usize| #[trigger]
            dev.set_msip_each(targets).pulse_count(h) == dev.pulse_count(h) + occurrences(
                targets,
                h,
            ),
        forall|h: usize|
            dev.serves(h) ==> {
                &&& (#[trigger] dev.set_msip_each(targets).hart(h)).compare == dev.hart(h).compare
                &&& dev.set_msip_each(targets).hart(h).msip == (dev.hart(h).msip
                    || targets.contains(h))
            },
    decreases targets.len(),
{
    if targets.len() == 0 {
        assert(dev.pulses + targets == dev.pulses);
    } else {
        let front = targets.drop_last();
        let last = targets.last();
        lemma_set_msip_each(dev, front);
        let mid = dev.set_msip_each(front);
        assert forall|h: usize| #[trigger]
            dev.set_msip_each(targets).pulse_count(h) == dev.pulse_count(h) + occurrences(
                targets,
                h,
            ) by {
            assert(mid.pulse_count(h) == dev.pulse_count(h) + occurrences(front, h));
            lemma_occurrences_push(mid.pulses, last, h);
        }
        assert(dev.pulses + targets == (dev.pulses + front).push(last));
        assert(targets[targets.len() - 1] == last);
        assert forall|h: usize| dev.serves(h) implies {
            &&& (#[trigger] dev.set_msip_each(targets).hart(h)).compare == dev.hart(h).compare
            &&& dev.set_msip_each(targets).hart(h).msip == (dev.hart(h).msip || targets.contains(
                h,
            ))
        } by {
            assert(mid.hart(h).msip == (dev.hart(h).msip || front.contains(h)));
            if front.contains(h) {
                let k = choose|k: int| 0 <= k < front.len() && front[k] == h;
                assert(targets[k] == h);
            }
            if targets.contains(h) && h != last {
                let k = choose|k: int| 0 <= k < targets.len() && targets[k] == h;
                assert(front[k] == h);
            }
        }
    }
}

/// The interface of an interrupt device.
///
/// An implementation states what it holds as a `DeviceState`; each operation
/// says how that state changes. A hart index must be below the number of
/// harts that the device serves.
pub trait IpiDevice {
    /// What the device holds.
    spec fn view(&self) -> DeviceState;

    /// Reads the machine time.
    fn read_mtime(&self) -> (val: u64)
        ensures
            val == self@.mtime,
    ;

    /// Writes the machine time.
    fn write_mtime(&mut self, val: u64)
        ensures
            final(self)@ == old(self)@.write_mtime(val),
    ;

    /// Reads the machine timer compare value of a hart.
    fn read_mtimecmp(&self, hart_idx: usize) -> (val: u64)
        requires
            self@.serves(hart_idx),
        ensures
            val == self@.hart(hart_idx).compare,
    ;

    /// Writes the machine timer compare value of a hart.
    fn write_mtimecmp(&mut self, hart_idx: usize, val: u64)
        requires
            old(self)@.serves(hart_idx),
        ensures
            final(self)@ == old(self)@.write_compare(hart_idx, val),
    ;

    /// Reads the machine software interrupt pending bit of a hart.
    fn read_msip(&self, hart_idx: usize) -> (pending: bool)
        requires
            self@.serves(hart_idx),
        ensures
            pending == self@.hart(hart_idx).msip,
    ;

    /// Sets the machine software interrupt pending bit of a hart.
    fn set_msip(&mut self, hart_idx: usize)
        requires
            old(self)@.serves(hart_idx),
        ensures
            final(self)@ == old(self)@.set_msip(hart_idx),
    ;

    /// Clears the machine software interrupt pending bit of a hart.
    fn clear_msip(&mut self, hart_idx: usize)
        requires
            old(self)@.serves(hart_idx),
        ensures
            final(self)@ == old(self)@.clear_msip(hart_idx),
    ;
}

/// An interrupt device kept in memory. It holds the registers as plain values
/// and keeps the record of the interrupts it was asked to raise.
#[derive(Debug)]
pub struct SoftDevice {
    mtime: u64,
    harts: Vec<HartRegisters>,
    pulses: Vec<usize>,
}

impl SoftDevice {
    /// A device for `hart_count` harts: time zero, every compare value at
    /// zero, no interrupt pending and none requested yet.
    pub fn new(hart_count: usize) -> (dev: Self)
        ensures
            dev@.mtime == 0,
            dev@.harts.len() == hart_count,
            forall|h: int|
                0 <= h < hart_count ==> dev@.harts[h] == (HartRegisters {
                    compare: 0,
                    msip: false,
                }),
            dev@.pulses.len() == 0,
    {
        let mut harts: Vec<HartRegisters> = Vec::new();
        let mut i: usize = 0;
        while i < hart_count
            invariant
                i <= hart_count,
                harts@.len() == i,
                forall|h: int|
                    0 <= h < i ==> harts@[h] == (HartRegisters { compare: 0, msip: false }),
            decreases hart_count - i,
        {
            harts.push(HartRegisters { compare: 0, msip: false });
            i += 1;
        }
        SoftDevice { mtime: 0, harts, pulses: Vec::new() }
    }

    /// The number of harts that the device serves.
    pub fn hart_count(&self) -> (count: usize)
        ensures
            count == self@.harts.len(),
    {
        self.harts.len()
    }

    /// How often the pending bit of a hart has been set.
    pub fn pulse_count(&self, hart_idx: usize) -> (count: usize)
        ensures
            count == self@.pulse_count(hart_idx),
    {
        let mut count: usize = 0;
        let mut i: usize = 0;
        while i < self.pulses.len()
            invariant
                i <= self.pulses@.len(),
                count == occurrences(self.pulses@.take(i as int), hart_idx),
                count <= i,
            decreases self.pulses@.len() - i,
        {
            proof {
                let prefix = self.pulses@.take(i as int);
                assert(self.pulses@.take(i + 1) == prefix.push(self.pulses@[i as int]));
                lemma_occurrences_push(prefix, self.pulses@[i as int], hart_idx);
            }
            if self.pulses[i] == hart_idx {
                count += 1;
            }
            i += 1;
        }
        assert(self.pulses@.take(i as int) == self.pulses@);
        count
    }
}

impl IpiDevice for SoftDevice {
    closed spec fn view(&self) -> DeviceState {
        DeviceState { mtime: self.mtime, harts: self.harts@, pulses: self.pulses@ }
    }

    fn read_mtime(&self) -> (val: u64) {
        self.mtime
    }

    fn write_mtime(&mut self, val: u64) {
        self.mtime = val;
    }

    fn read_mtimecmp(&self, hart_idx: usize) -> (val: u64) {
        self.harts[hart_idx].compare
    }

    fn write_mtimecmp(&mut self, hart_idx: usize, val: u64) {
        let msip = self.harts[hart_idx].msip;
        self.harts.set(hart_idx, HartRegisters { compare: val, msip });
    }

    fn read_msip(&self, hart_idx: usize) -> (pending: bool) {
        self.harts[hart_idx].msip
    }

    fn set_msip(&mut self, hart_idx: usize) {
        let compare = self.harts[hart_idx].compare;
        self.harts.set(hart_idx, HartRegisters { compare, msip: true });
        self.pulses.push(hart_idx);
    }

    fn clear_msip(&mut self, hart_idx: usize) {
        let compare = self.harts[hart_idx].compare;
        self.harts.set(hart_idx, HartRegisters { compare, msip: false });
    }
}

} // verus!
