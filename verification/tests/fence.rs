use prototyper::sbi::binary::{HartMask, SbiRet};
use prototyper::sbi::device::{IpiDevice, SoftDevice};
use prototyper::sbi::fence::FenceProgress;
use prototyper::sbi::trap::TrapEvents;
use prototyper::sbi::hart_context::ContextStore;
use prototyper::sbi::hsm::HartState;
use prototyper::sbi::ipi::{set_ipi_type, SbiIpi, IPI_TYPE_FENCE, IPI_TYPE_SSOFT};
use prototyper::sbi::rfence::{AddrRange, RFenceContext, RFenceType};

const OK: SbiRet = SbiRet { error: 0, value: 0 };

fn walk(store: &mut ContextStore, hart_id: usize, path: &[HartState]) {
    for next in path {
        let from = store.remote_hsm(hart_id).unwrap().get_status();
        assert!(store.hsm_transition(hart_id, from, *next));
    }
}

fn start(store: &mut ContextStore, hart_id: usize) {
    walk(store, hart_id, &[HartState::StartPending, HartState::Started]);
}

fn started_store(hart_count: usize) -> ContextStore {
    let mut store = ContextStore::new(hart_count);
    for hart_id in 0..hart_count {
        start(&mut store, hart_id);
    }
    store
}

fn service(hart_count: usize) -> SbiIpi<SoftDevice> {
    SbiIpi::new(SoftDevice::new(hart_count), hart_count - 1)
}

fn range_fence(start: usize) -> RFenceContext {
    RFenceContext::sfence_vma(start, 0x1000)
}

#[test]
fn fence_builders_fill_the_request() {
    assert_eq!(
        RFenceContext::fence_i(),
        RFenceContext { op: RFenceType::FenceI, range: None, asid: None }
    );
    assert_eq!(
        RFenceContext::sfence_vma(0x8000, 0x2000),
        RFenceContext {
            op: RFenceType::SFenceVma,
            range: Some(AddrRange { start: 0x8000, size: 0x2000 }),
            asid: None,
        }
    );
    assert_eq!(
        RFenceContext::sfence_vma_asid(0x8000, 0x2000, 7),
        RFenceContext {
            op: RFenceType::SFenceVmaAsid,
            range: Some(AddrRange { start: 0x8000, size: 0x2000 }),
            asid: Some(7),
        }
    );
}

#[test]
fn fence_returns_only_after_every_target_has_served_once() {
    let mut store = started_store(5);
    let mut ipi = service(5);
    let ctx = range_fence(0x4000);
    let progress = ipi.send_ipi_by_fence(&mut store, 0, HartMask::from_mask_base(0b11110, 0), ctx);
    assert_eq!(progress, FenceProgress { done: None, local: None });
    assert_eq!(store.wait_sync_count(0), 4);
    let mut served = 0;
    for target in 1..5 {
        assert!(!store.is_sync(0));
        assert_eq!(ipi.poll_fence(&mut store, 0), FenceProgress { done: None, local: None });
        assert_eq!(store.rfence_slot(target), Some(ctx));
        assert_eq!(store.ipi_type(target), IPI_TYPE_FENCE);
        let events = ipi.handle_ipi(&mut store, target);
        assert_eq!(events, TrapEvents { ssoft: false, fence: Some(ctx) });
        served += 1;
        assert_eq!(store.wait_sync_count(0), 4 - served);
    }
    assert_eq!(served, 4);
    assert!(store.is_sync(0));
    assert_eq!(ipi.poll_fence(&mut store, 0), FenceProgress { done: Some(OK), local: None });
    for target in 1..5 {
        assert_eq!(ipi.ipi_dev.pulse_count(target), 1);
        assert_eq!(store.rfence_slot(target), None);
    }
}

#[test]
fn a_second_trap_acknowledges_nothing() {
    let mut store = started_store(3);
    let mut ipi = service(3);
    let ctx = RFenceContext::fence_i();
    ipi.send_ipi_by_fence(&mut store, 0, HartMask::from_mask_base(0b110, 0), ctx);
    assert_eq!(store.wait_sync_count(0), 2);
    assert_eq!(ipi.handle_ipi(&mut store, 1).fence, Some(ctx));
    assert_eq!(store.wait_sync_count(0), 1);
    assert_eq!(ipi.handle_ipi(&mut store, 1), TrapEvents { ssoft: false, fence: None });
    assert_eq!(store.wait_sync_count(0), 1);
    assert_eq!(store.service_fence(1), None);
    assert_eq!(store.wait_sync_count(0), 1);
    assert_eq!(ipi.poll_fence(&mut store, 0).done, None);
    assert_eq!(ipi.handle_ipi(&mut store, 2).fence, Some(ctx));
    assert_eq!(ipi.poll_fence(&mut store, 0).done, Some(OK));
}

#[test]
fn fence_to_no_eligible_hart_is_done_at_once() {
    let mut store = ContextStore::new(3);
    start(&mut store, 0);
    let mut ipi = service(3);
    let progress =
        ipi.send_ipi_by_fence(&mut store, 0, HartMask::from_mask_base(0b110, 0), range_fence(0));
    assert_eq!(progress, FenceProgress { done: Some(OK), local: None });
    for hart_id in 0..3 {
        assert_eq!(store.ipi_type(hart_id), 0);
        assert_eq!(store.rfence_slot(hart_id), None);
        assert_eq!(store.wait_sync_count(hart_id), 0);
        assert_eq!(ipi.ipi_dev.pulse_count(hart_id), 0);
    }
}

#[test]
fn fence_with_empty_mask_is_done_at_once() {
    let mut store = started_store(2);
    let mut ipi = service(2);
    let progress =
        ipi.send_ipi_by_fence(&mut store, 1, HartMask::from_mask_base(0, 0), range_fence(0));
    assert_eq!(progress, FenceProgress { done: Some(OK), local: None });
}

#[test]
fn fence_on_the_initiator_alone_is_applied_without_an_interrupt() {
    let mut store = started_store(2);
    let mut ipi = service(2);
    let ctx = RFenceContext::sfence_vma_asid(0x1000, 0x2000, 3);
    let progress = ipi.send_ipi_by_fence(&mut store, 1, HartMask::from_mask_base(0b10, 0), ctx);
    assert_eq!(progress, FenceProgress { done: Some(OK), local: Some(ctx) });
    assert_eq!(ipi.ipi_dev.pulse_count(1), 0);
    assert!(!ipi.ipi_dev.read_msip(1));
    assert_eq!(store.ipi_type(1), 0);
    assert_eq!(store.rfence_slot(1), None);
    assert_eq!(store.wait_sync_count(1), 0);
}

#[test]
fn fence_that_includes_the_initiator_pulses_only_the_others() {
    let mut store = started_store(3);
    let mut ipi = service(3);
    let ctx = range_fence(0x9000);
    let progress = ipi.send_ipi_by_fence(&mut store, 1, HartMask::all(), ctx);
    assert_eq!(progress, FenceProgress { done: None, local: Some(ctx) });
    assert_eq!(ipi.ipi_dev.pulse_count(0), 1);
    assert_eq!(ipi.ipi_dev.pulse_count(1), 0);
    assert_eq!(ipi.ipi_dev.pulse_count(2), 1);
    assert_eq!(store.ipi_type(1), 0);
    assert_eq!(store.rfence_slot(1), None);
    assert_eq!(store.wait_sync_count(1), 2);
    assert_eq!(ipi.handle_ipi(&mut store, 0).fence, Some(ctx));
    assert_eq!(ipi.poll_fence(&mut store, 1), FenceProgress { done: None, local: None });
    assert_eq!(ipi.handle_ipi(&mut store, 2).fence, Some(ctx));
    assert_eq!(ipi.poll_fence(&mut store, 1), FenceProgress { done: Some(OK), local: None });
}

#[test]
fn fence_leaves_stopped_and_stopping_harts_alone() {
    let mut store = ContextStore::new(4);
    start(&mut store, 0);
    start(&mut store, 2);
    walk(&mut store, 2, &[HartState::StopPending]);
    start(&mut store, 3);
    let mut ipi = service(4);
    let ctx = range_fence(0);
    let progress = ipi.send_ipi_by_fence(&mut store, 0, HartMask::from_mask_base(0b1110, 0), ctx);
    assert_eq!(progress.done, None);
    for idle in [1, 2] {
        assert_eq!(store.ipi_type(idle), 0);
        assert_eq!(store.rfence_slot(idle), None);
        assert_eq!(ipi.ipi_dev.pulse_count(idle), 0);
        assert!(!ipi.ipi_dev.read_msip(idle));
    }
    assert_eq!(store.wait_sync_count(0), 1);
    assert_eq!(store.rfence_slot(3), Some(ctx));
    assert_eq!(ipi.handle_ipi(&mut store, 3).fence, Some(ctx));
    assert_eq!(ipi.poll_fence(&mut store, 0).done, Some(OK));
}

#[test]
fn fence_skips_harts_the_store_does_not_know_and_those_past_the_bound() {
    let mut store = started_store(3);
    let mut ipi = SbiIpi::new(SoftDevice::new(8), 1);
    let ctx = range_fence(0);
    let progress = ipi.send_ipi_by_fence(&mut store, 0, HartMask::all(), ctx);
    assert_eq!(progress, FenceProgress { done: None, local: Some(ctx) });
    assert_eq!(store.wait_sync_count(0), 1);
    assert_eq!(store.rfence_slot(1), Some(ctx));
    assert_eq!(store.rfence_slot(2), None);
    assert_eq!(store.ipi_type(2), 0);
    for hart_id in 2..8 {
        assert_eq!(ipi.ipi_dev.pulse_count(hart_id), 0);
    }
}

#[test]
fn fence_does_not_pulse_a_target_with_an_event_pending() {
    let mut store = started_store(2);
    let mut ipi = service(2);
    ipi.send_ipi(&mut store, HartMask::from_mask_base(0b10, 0));
    assert_eq!(ipi.ipi_dev.pulse_count(1), 1);
    let ctx = range_fence(0);
    ipi.send_ipi_by_fence(&mut store, 0, HartMask::from_mask_base(0b10, 0), ctx);
    assert_eq!(ipi.ipi_dev.pulse_count(1), 1);
    assert_eq!(store.ipi_type(1), IPI_TYPE_SSOFT | IPI_TYPE_FENCE);
    let events = ipi.handle_ipi(&mut store, 1);
    assert_eq!(events, TrapEvents { ssoft: true, fence: Some(ctx) });
    assert_eq!(store.ipi_type(1), 0);
    assert_eq!(ipi.poll_fence(&mut store, 0).done, Some(OK));
}

#[test]
fn later_fence_replaces_earlier_and_both_initiators_complete() {
    let mut store = started_store(3);
    let mut ipi = service(3);
    let first = range_fence(0x1000);
    let second = range_fence(0x2000);
    let target = HartMask::from_mask_base(0b100, 0);
    assert_eq!(ipi.send_ipi_by_fence(&mut store, 0, target, first).done, None);
    assert_eq!(store.rfence_slot(2), Some(first));
    assert_eq!(ipi.send_ipi_by_fence(&mut store, 1, target, second).done, None);
    assert_eq!(store.rfence_slot(2), Some(second));
    assert_eq!(store.wait_sync_count(0), 1);
    assert_eq!(store.wait_sync_count(1), 1);
    assert_eq!(ipi.ipi_dev.pulse_count(2), 1);
    let events = ipi.handle_ipi(&mut store, 2);
    assert_eq!(events, TrapEvents { ssoft: false, fence: Some(second) });
    assert_eq!(store.rfence_slot(2), None);
    assert_eq!(store.wait_sync_count(0), 0);
    assert_eq!(store.wait_sync_count(1), 0);
    assert_eq!(ipi.poll_fence(&mut store, 0), FenceProgress { done: Some(OK), local: None });
    assert_eq!(ipi.poll_fence(&mut store, 1), FenceProgress { done: Some(OK), local: None });
    assert_eq!(ipi.handle_ipi(&mut store, 2), TrapEvents { ssoft: false, fence: None });
}

#[test]
fn two_harts_that_fence_each_other_both_complete() {
    let mut store = started_store(2);
    let mut ipi = service(2);
    let from_zero = range_fence(0xa000);
    let from_one = range_fence(0xb000);
    let p0 = ipi.send_ipi_by_fence(&mut store, 0, HartMask::from_mask_base(0b10, 0), from_zero);
    assert_eq!(p0, FenceProgress { done: None, local: None });
    let p1 = ipi.send_ipi_by_fence(&mut store, 1, HartMask::from_mask_base(0b01, 0), from_one);
    assert_eq!(p1, FenceProgress { done: None, local: Some(from_zero) });
    assert_eq!(store.wait_sync_count(0), 0);
    assert_eq!(store.wait_sync_count(1), 1);
    let p0 = ipi.poll_fence(&mut store, 0);
    assert_eq!(p0, FenceProgress { done: Some(OK), local: None });
    assert_eq!(store.rfence_slot(0), Some(from_one));
    let events = ipi.handle_ipi(&mut store, 0);
    assert_eq!(events, TrapEvents { ssoft: false, fence: Some(from_one) });
    let p1 = ipi.poll_fence(&mut store, 1);
    assert_eq!(p1, FenceProgress { done: Some(OK), local: None });
}

#[test]
fn waiting_initiator_serves_a_fence_addressed_to_itself() {
    let mut store = started_store(3);
    let mut ipi = service(3);
    let mine = range_fence(0x1000);
    let theirs = range_fence(0x2000);
    ipi.send_ipi_by_fence(&mut store, 0, HartMask::from_mask_base(0b100, 0), mine);
    ipi.send_ipi_by_fence(&mut store, 1, HartMask::from_mask_base(0b001, 0), theirs);
    assert_eq!(store.wait_sync_count(1), 1);
    let progress = ipi.poll_fence(&mut store, 0);
    assert_eq!(progress, FenceProgress { done: None, local: Some(theirs) });
    assert_eq!(store.wait_sync_count(1), 0);
    assert_eq!(store.wait_sync_count(0), 1);
    assert_eq!(ipi.poll_fence(&mut store, 1).done, Some(OK));
}

#[test]
fn poll_of_a_synchronised_hart_leaves_its_slot() {
    let mut store = started_store(2);
    let mut ipi = service(2);
    let ctx = range_fence(0);
    ipi.send_ipi_by_fence(&mut store, 0, HartMask::from_mask_base(0b10, 0), ctx);
    assert_eq!(ipi.poll_fence(&mut store, 1), FenceProgress { done: Some(OK), local: None });
    assert_eq!(store.rfence_slot(1), Some(ctx));
    assert_eq!(store.wait_sync_count(0), 1);
}

#[test]
fn trap_without_fence_event_leaves_the_slot() {
    let mut store = started_store(2);
    let mut ipi = service(2);
    let ctx = range_fence(0);
    store.publish_fence(0, 1, ctx);
    set_ipi_type(&mut store, 1, IPI_TYPE_SSOFT);
    let events = ipi.handle_ipi(&mut store, 1);
    assert_eq!(events, TrapEvents { ssoft: true, fence: None });
    assert_eq!(store.rfence_slot(1), Some(ctx));
    assert_eq!(store.wait_sync_count(0), 1);
}

#[test]
fn trap_lowers_the_interrupt_line_and_takes_both_events() {
    let mut store = started_store(2);
    let mut ipi = service(2);
    let ctx = range_fence(0);
    ipi.send_ipi_by_fence(&mut store, 0, HartMask::from_mask_base(0b10, 0), ctx);
    ipi.send_ipi(&mut store, HartMask::from_mask_base(0b10, 0));
    assert!(ipi.ipi_dev.read_msip(1));
    let events = ipi.handle_ipi(&mut store, 1);
    assert_eq!(events, TrapEvents { ssoft: true, fence: Some(ctx) });
    assert!(!ipi.ipi_dev.read_msip(1));
    assert_eq!(store.ipi_type(1), 0);
    assert_eq!(ipi.handle_ipi(&mut store, 1), TrapEvents { ssoft: false, fence: None });
}

#[test]
fn publish_and_service_keep_the_counters() {
    let mut store = started_store(3);
    let a = range_fence(1);
    let b = range_fence(2);
    store.publish_fence(0, 2, a);
    store.publish_fence(1, 2, b);
    store.publish_fence(0, 1, a);
    assert_eq!(store.wait_sync_count(0), 2);
    assert_eq!(store.wait_sync_count(1), 1);
    assert_eq!(store.rfence_slot(2), Some(b));
    assert_eq!(store.service_fence(2), Some(b));
    assert_eq!(store.wait_sync_count(0), 1);
    assert_eq!(store.wait_sync_count(1), 0);
    assert_eq!(store.service_fence(1), Some(a));
    assert_eq!(store.wait_sync_count(0), 0);
    assert!(store.is_sync(0));
    assert!(store.is_sync(1));
}

#[test]
fn fence_to_a_suspended_hart_is_delivered() {
    let mut store = ContextStore::new(2);
    start(&mut store, 0);
    start(&mut store, 1);
    walk(&mut store, 1, &[HartState::SuspendPending, HartState::Suspended]);
    let mut ipi = service(2);
    let ctx = RFenceContext::fence_i();
    let progress = ipi.send_ipi_by_fence(&mut store, 0, HartMask::from_mask_base(0b10, 0), ctx);
    assert_eq!(progress.done, None);
    assert_eq!(store.rfence_slot(1), Some(ctx));
    assert_eq!(ipi.ipi_dev.pulse_count(1), 1);
}

struct Steps(u64);

impl Steps {
    fn next(&mut self, bound: usize) -> usize {
        self.0 = self.0.wrapping_mul(6364136223846793005).wrapping_add(1442695040888963407);
        ((self.0 >> 33) as usize) % bound
    }
}

#[test]
fn every_interleaving_keeps_lines_raised_and_completes_after_the_traps() {
    const HARTS: usize = 5;
    let mut steps = Steps(0x5eed);
    for round in 0..40 {
        let mut store = ContextStore::new(HARTS);
        for hart_id in 0..HARTS {
            if hart_id != round % HARTS {
                start(&mut store, hart_id);
            }
        }
        let started: Vec<usize> = (0..HARTS).filter(|h| *h != round % HARTS).collect();
        let mut ipi = service(HARTS);
        let mut applied = [0usize; HARTS];
        let mut published = [0usize; HARTS];
        for _ in 0..200 {
            let hart_id = started[steps.next(started.len())];
            let mask = HartMask::from_mask_base(steps.next(1 << HARTS), 0);
            match steps.next(4) {
                0 => {
                    assert_eq!(ipi.send_ipi(&mut store, mask), OK);
                }
                1 => {
                    if store.is_sync(hart_id) {
                        let ctx = range_fence(steps.next(1 << 20));
                        let before: Vec<usize> =
                            (0..HARTS).map(|h| ipi.ipi_dev.pulse_count(h)).collect();
                        let progress = ipi.send_ipi_by_fence(&mut store, hart_id, mask, ctx);
                        let targets =
                            started.iter().filter(|h| mask.has_bit(**h)).count();
                        published[hart_id] += targets;
                        if mask.has_bit(hart_id) {
                            assert_eq!(progress.local, Some(ctx));
                        }
                        if progress.local.is_some() {
                            applied[hart_id] += 1;
                        }
                        assert_eq!(ipi.ipi_dev.pulse_count(hart_id), before[hart_id]);
                        for h in 0..HARTS {
                            assert!(ipi.ipi_dev.pulse_count(h) <= before[h] + 1);
                        }
                        assert_eq!(progress.done.is_some(), store.is_sync(hart_id));
                    }
                }
                2 => {
                    let progress = ipi.poll_fence(&mut store, hart_id);
                    if progress.local.is_some() {
                        applied[hart_id] += 1;
                    }
                    assert_eq!(progress.done.is_some(), store.is_sync(hart_id));
                }
                _ => {
                    let events = ipi.handle_ipi(&mut store, hart_id);
                    if events.fence.is_some() {
                        applied[hart_id] += 1;
                    }
                    assert_eq!(store.ipi_type(hart_id), 0);
                    assert!(!ipi.ipi_dev.read_msip(hart_id));
                }
            }
            for h in 0..HARTS {
                if store.ipi_type(h) != 0 {
                    assert!(ipi.ipi_dev.read_msip(h), "hart {h} has events and no interrupt");
                }
                if store.rfence_slot(h).is_some() && store.ipi_type(h) & IPI_TYPE_FENCE == 0 {
                    assert!(!store.is_sync(h), "hart {h} holds a request nobody announced");
                }
            }
            assert_eq!(store.ipi_type(round % HARTS), 0);
            assert_eq!(store.rfence_slot(round % HARTS), None);
        }
        for hart_id in &started {
            let events = ipi.handle_ipi(&mut store, *hart_id);
            if events.fence.is_some() {
                applied[*hart_id] += 1;
            }
        }
        for hart_id in &started {
            let progress = ipi.poll_fence(&mut store, *hart_id);
            if progress.local.is_some() {
                applied[*hart_id] += 1;
            }
        }
        for hart_id in 0..HARTS {
            assert!(store.is_sync(hart_id));
            assert_eq!(store.rfence_slot(hart_id), None);
            assert_eq!(ipi.poll_fence(&mut store, hart_id).done, Some(OK));
        }
        let total_applied: usize = applied.iter().sum();
        let total_published: usize = published.iter().sum();
        assert!(total_applied <= total_published);
    }
}
