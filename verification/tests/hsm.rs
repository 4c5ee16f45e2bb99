use prototyper::sbi::hart_context::ContextStore;
use prototyper::sbi::hsm::{HartState, HsmCell};

const ALL: [HartState; 7] = [
    HartState::Started,
    HartState::Stopped,
    HartState::StartPending,
    HartState::StopPending,
    HartState::Suspended,
    HartState::SuspendPending,
    HartState::ResumePending,
];

fn edge(from: HartState, to: HartState) -> bool {
    matches!(
        (from, to),
        (HartState::Stopped, HartState::StartPending)
            | (HartState::StartPending, HartState::Started)
            | (HartState::Started, HartState::StopPending)
            | (HartState::StopPending, HartState::Stopped)
            | (HartState::Started, HartState::SuspendPending)
            | (HartState::SuspendPending, HartState::Suspended)
            | (HartState::Suspended, HartState::ResumePending)
            | (HartState::ResumePending, HartState::Started)
    )
}

#[test]
fn new_cell_is_stopped() {
    let cell = HsmCell::new();
    assert_eq!(cell.get_status(), HartState::Stopped);
    assert!(!cell.allow_ipi());
}

#[test]
fn lifecycle_edges_are_exactly_the_documented_ones() {
    for from in ALL {
        for to in ALL {
            assert_eq!(from.can_step_to(to), edge(from, to), "{:?} -> {:?}", from, to);
        }
    }
}

#[test]
fn only_started_and_suspended_allow_ipi() {
    for state in ALL {
        let expected = matches!(state, HartState::Started | HartState::Suspended);
        assert_eq!(state.allow_ipi(), expected, "{:?}", state);
    }
}

#[test]
fn cell_walks_the_whole_lifecycle() {
    let mut cell = HsmCell::new();
    assert!(cell.transition(HartState::Stopped, HartState::StartPending));
    assert!(!cell.allow_ipi());
    assert!(cell.transition(HartState::StartPending, HartState::Started));
    assert!(cell.allow_ipi());
    assert!(cell.transition(HartState::Started, HartState::SuspendPending));
    assert!(!cell.allow_ipi());
    assert!(cell.transition(HartState::SuspendPending, HartState::Suspended));
    assert!(cell.allow_ipi());
    assert!(cell.transition(HartState::Suspended, HartState::ResumePending));
    assert!(!cell.allow_ipi());
    assert!(cell.transition(HartState::ResumePending, HartState::Started));
    assert!(cell.transition(HartState::Started, HartState::StopPending));
    assert!(!cell.allow_ipi());
    assert!(cell.transition(HartState::StopPending, HartState::Stopped));
    assert_eq!(cell.get_status(), HartState::Stopped);
}

#[test]
fn transition_from_unexpected_state_fails_without_effect() {
    let mut cell = HsmCell::new();
    assert!(!cell.transition(HartState::Started, HartState::StopPending));
    assert_eq!(cell.get_status(), HartState::Stopped);
    assert!(!cell.transition(HartState::StartPending, HartState::Started));
    assert_eq!(cell.get_status(), HartState::Stopped);
}

#[test]
fn transition_along_a_missing_edge_fails_without_effect() {
    let mut cell = HsmCell::new();
    assert!(!cell.transition(HartState::Stopped, HartState::Started));
    assert_eq!(cell.get_status(), HartState::Stopped);
    assert!(!cell.transition(HartState::Stopped, HartState::Stopped));
    assert_eq!(cell.get_status(), HartState::Stopped);
}

#[test]
fn every_transition_attempt_matches_the_edge_relation() {
    for current in ALL {
        for expected in ALL {
            for next in ALL {
                let mut cell = HsmCell::new();
                walk_to(&mut cell, current);
                let moved = cell.transition(expected, next);
                assert_eq!(moved, current == expected && edge(expected, next));
                let after = if moved { next } else { current };
                assert_eq!(cell.get_status(), after);
            }
        }
    }
}

fn walk_to(cell: &mut HsmCell, state: HartState) {
    let path: &[HartState] = match state {
        HartState::Stopped => &[],
        HartState::StartPending => &[HartState::StartPending],
        HartState::Started => &[HartState::StartPending, HartState::Started],
        HartState::StopPending => {
            &[HartState::StartPending, HartState::Started, HartState::StopPending]
        }
        HartState::SuspendPending => {
            &[HartState::StartPending, HartState::Started, HartState::SuspendPending]
        }
        HartState::Suspended => &[
            HartState::StartPending,
            HartState::Started,
            HartState::SuspendPending,
            HartState::Suspended,
        ],
        HartState::ResumePending => &[
            HartState::StartPending,
            HartState::Started,
            HartState::SuspendPending,
            HartState::Suspended,
            HartState::ResumePending,
        ],
    };
    for next in path {
        let from = cell.get_status();
        assert!(cell.transition(from, *next));
    }
    assert_eq!(cell.get_status(), state);
}

#[test]
fn remote_hsm_knows_only_the_harts_of_the_store() {
    let store = ContextStore::new(3);
    assert_eq!(store.len(), 3);
    assert!(store.remote_hsm(0).is_some());
    assert!(store.remote_hsm(2).is_some());
    assert!(store.remote_hsm(3).is_none());
    assert!(store.remote_hsm(usize::MAX).is_none());
}

#[test]
fn store_transition_changes_only_the_named_hart() {
    let mut store = ContextStore::new(3);
    assert!(store.hsm_transition(1, HartState::Stopped, HartState::StartPending));
    assert_eq!(store.remote_hsm(0).unwrap().get_status(), HartState::Stopped);
    assert_eq!(store.remote_hsm(1).unwrap().get_status(), HartState::StartPending);
    assert_eq!(store.remote_hsm(2).unwrap().get_status(), HartState::Stopped);
}

#[test]
fn store_transition_of_unknown_hart_fails() {
    let mut store = ContextStore::new(2);
    assert!(!store.hsm_transition(2, HartState::Stopped, HartState::StartPending));
    assert!(!store.hsm_transition(usize::MAX, HartState::Stopped, HartState::StartPending));
    assert_eq!(store.remote_hsm(0).unwrap().get_status(), HartState::Stopped);
    assert_eq!(store.remote_hsm(1).unwrap().get_status(), HartState::Stopped);
}

#[test]
fn store_transition_from_unexpected_state_fails_without_effect() {
    let mut store = ContextStore::new(1);
    assert!(!store.hsm_transition(0, HartState::Started, HartState::StopPending));
    assert_eq!(store.remote_hsm(0).unwrap().get_status(), HartState::Stopped);
}

#[test]
fn empty_store_knows_no_hart() {
    let store = ContextStore::new(0);
    assert_eq!(store.len(), 0);
    assert!(store.remote_hsm(0).is_none());
}
