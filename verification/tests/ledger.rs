use kms_owner::ledger::{LedgerState, Submitted};
use std::{cell::Cell, rc::Rc};

#[derive(Debug)]
struct Counted(Rc<Cell<usize>>);
impl Drop for Counted {
    fn drop(&mut self) {
        self.0.set(self.0.get() + 1);
    }
}

#[test]
fn a_rejection_hands_the_new_state_out_by_value_exactly_once() {
    let drops = Rc::new(Cell::new(0));
    let ledger = Submitted::new(
        vec![Counted(Rc::clone(&drops))],
        vec![Counted(Rc::clone(&drops))],
    );
    let (rejected, released) = ledger.rejected();
    assert_eq!(released.len(), 1);
    assert_eq!(drops.get(), 0, "handing over is not dropping");
    drop(released);
    assert_eq!(drops.get(), 1, "the never-current new state is destroyed");

    let still_current = rejected.into_current();
    assert_eq!(still_current.len(), 1);
    assert_eq!(
        drops.get(),
        1,
        "retiring the ledger did not destroy the old state"
    );
    drop(still_current);
    assert_eq!(
        drops.get(),
        2,
        "it is destroyed only when its new owner drops it"
    );
}

#[test]
fn acceptance_releases_nothing_and_keeps_both_states() {
    let drops = Rc::new(Cell::new(0));
    let accepted = Submitted::new(
        vec![Counted(Rc::clone(&drops))],
        vec![Counted(Rc::clone(&drops))],
    )
    .accepted();
    assert_eq!(drops.get(), 0);
    let quarantined = accepted.unknown();
    assert_eq!(
        quarantined.held().len(),
        2,
        "both states survive into quarantine"
    );
    assert_eq!(drops.get(), 0);
}

#[test]
fn quarantine_holds_both_states_and_offers_no_way_out() {
    let drops = Rc::new(Cell::new(0));
    let q = Submitted::new(
        vec![Counted(Rc::clone(&drops))],
        vec![Counted(Rc::clone(&drops))],
    )
    .unknown();
    assert_eq!(q.held().len(), 2);
    assert_eq!(drops.get(), 0);
}

#[test]
fn the_ledger_state_enum_treats_poisoned_as_holding_everything() {
    let state: LedgerState<Counted> = LedgerState::Poisoned;
    assert!(
        state.releases_nothing(),
        "an unknown ledger state releases nothing"
    );
}
