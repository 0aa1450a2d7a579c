use upstroke::identity::{
    AttemptIdentities, InvocationId, InvocationLedger, InvocationRole, InvocationScope, ReservationKind, Reservations,
    SlotAssertion, SlotPair,
};
use upstroke::model::{AttemptNumber, GenerationId, TaskKey};
use upstroke::text::{decimal_text, join_strings, push_decimal, same_text};

fn worker(key: u32, generation: u32, attempt: u32) -> InvocationId {
    InvocationId { scope: InvocationScope::Attempt { key, generation, attempt }, role: InvocationRole::Worker }
}

fn gate(key: u32, gate: u32) -> InvocationId {
    InvocationId { scope: InvocationScope::Attempt { key, generation: 0, attempt: 1 }, role: InvocationRole::Gate { gate, ordinal: 0 } }
}

fn pair(agent: &str) -> SlotPair {
    SlotPair { agent: agent.to_owned(), pool: Some("pool-a".to_owned()) }
}

#[test]
fn decimal_text_writes_numbers_without_leading_zeros() {
    assert_eq!(decimal_text(0), "0");
    assert_eq!(decimal_text(7), "7");
    assert_eq!(decimal_text(10), "10");
    assert_eq!(decimal_text(2000), "2000");
    assert_eq!(decimal_text(u64::MAX), "18446744073709551615");
    let mut s = String::from("n = ");
    push_decimal(&mut s, 305);
    assert_eq!(s, "n = 305");
}

#[test]
fn join_strings_separates_parts_and_joins_nothing_to_nothing() {
    assert_eq!(join_strings(&Vec::new(), ", "), "");
    assert_eq!(join_strings(&vec!["a".to_owned()], ", "), "a");
    assert_eq!(join_strings(&vec!["a".to_owned(), "b".to_owned(), "c".to_owned()], "; "), "a; b; c");
    assert!(same_text("Ref.Write", "Ref.Write"));
    assert!(!same_text("Ref.Write", "Ref.write"));
}

#[test]
fn invocation_identities_render_their_scope_and_role() {
    assert_eq!(worker(3, 1, 2).render(), "k3-g1-a2-worker");
    assert_eq!(gate(0, 4).render(), "k0-g0-a1-gate4.0");
    let ids = AttemptIdentities::new(TaskKey(2), GenerationId(5), AttemptNumber(1));
    assert_eq!(ids.worker().render(), "k2-g5-a1-worker");
    assert_eq!(ids.review_pass(1, 0).render(), "k2-g5-a1-review1.0");
    assert_eq!(ids.review_reask(0, 2).render(), "k2-g5-a1-reask0.2");
    let sequence = InvocationId { scope: InvocationScope::Sequence { sequence: 9 }, role: InvocationRole::Gate { gate: 1, ordinal: 3 } };
    assert_eq!(sequence.render(), "s9-gate1.3");
}

#[test]
fn a_ledger_balances_after_each_registration_is_settled_once() {
    let mut ledger = InvocationLedger::new();
    assert!(ledger.balances());
    ledger.register(&worker(0, 0, 1)).expect("a new identity registers");
    ledger.register(&gate(0, 0)).expect("another new identity registers");
    assert!(!ledger.balances());
    assert_eq!(ledger.running(), vec!["k0-g0-a1-worker".to_owned(), "k0-g0-a1-gate0.0".to_owned()]);
    ledger.complete(&worker(0, 0, 1)).expect("a running identity completes");
    ledger.cancel(&gate(0, 0)).expect("a running identity is cancelled");
    assert!(ledger.balances());
    assert_eq!(ledger.completed(), 1);
    assert_eq!(ledger.cancelled(), 1);
    assert_eq!(ledger.duplicates(), 0);
}

#[test]
fn a_second_settlement_is_refused_and_counted() {
    let mut ledger = InvocationLedger::new();
    ledger.register(&worker(1, 0, 1)).expect("registers");
    ledger.complete(&worker(1, 0, 1)).expect("settles");
    let error = ledger.cancel(&worker(1, 0, 1)).expect_err("settled once already");
    assert_eq!(error.message(), "invocation `k1-g0-a1-worker` is not running, so it cannot be settled");
    assert_eq!(ledger.duplicates(), 1);
    assert_eq!(ledger.completed(), 1);
    assert_eq!(ledger.cancelled(), 0);
    let error = ledger.complete(&worker(9, 9, 9)).expect_err("never registered");
    assert_eq!(error.message(), "invocation `k9-g9-a9-worker` is not running, so it cannot be settled");
    assert_eq!(ledger.duplicates(), 2);
}

#[test]
fn an_identity_registers_once() {
    let mut ledger = InvocationLedger::new();
    ledger.register(&worker(0, 0, 1)).expect("registers");
    ledger.complete(&worker(0, 0, 1)).expect("settles");
    let error = ledger.register(&worker(0, 0, 1)).expect_err("registered before");
    assert_eq!(error.message(), "invocation `k0-g0-a1-worker` is already registered");
    assert!(ledger.balances());
}

#[test]
fn cancelling_everything_running_balances_the_ledger() {
    let mut ledger = InvocationLedger::new();
    ledger.register(&worker(0, 0, 1)).expect("registers");
    ledger.register(&worker(0, 0, 2)).expect("registers");
    ledger.register(&worker(0, 0, 3)).expect("registers");
    ledger.complete(&worker(0, 0, 2)).expect("settles");
    assert_eq!(ledger.cancel_all_running(), 2);
    assert!(ledger.balances());
    assert_eq!(ledger.cancelled(), 2);
    assert_eq!(ledger.completed(), 1);
    assert_eq!(ledger.cancel_all_running(), 0);
}

#[test]
fn one_slot_pair_is_held_at_a_time_and_gates_take_none() {
    let mut slots = SlotAssertion::new();
    assert!(slots.is_empty());
    let error = slots.acquire(&gate(0, 1), pair("agent-one")).expect_err("a gate runs no agent");
    assert_eq!(error.message(), "invocation `k0-g0-a1-gate1.0` is a gate and acquires no slot");
    slots.acquire(&worker(0, 0, 1), pair("agent-one")).expect("the first agent process takes the pair");
    assert_eq!(slots.held(), Some(&worker(0, 0, 1)));
    let error = slots.acquire(&worker(0, 0, 2), pair("agent-two")).expect_err("one is held");
    assert_eq!(
        error.message(),
        "invocation `k0-g0-a2-worker` asked for a slot pair while `k0-g0-a1-worker` holds one"
    );
    let error = slots.release(&worker(0, 0, 2)).expect_err("not the holder");
    assert_eq!(error.message(), "invocation `k0-g0-a2-worker` released a slot pair it does not hold");
    slots.release(&worker(0, 0, 1)).expect("the holder releases");
    assert!(slots.balances());
    assert_eq!(slots.held(), None);
}

#[test]
fn a_reservation_is_taken_once_and_settled_once() {
    let mut reservations = Reservations::new();
    assert!(reservations.is_empty());
    reservations.reserve(TaskKey(0), ReservationKind::Retry).expect("nothing is held");
    let error = reservations.reserve(TaskKey(1), ReservationKind::Repair).expect_err("one is held");
    assert_eq!(error.message(), "a reservation is already held");
    let error = reservations.convert(TaskKey(0), ReservationKind::Repair).expect_err("held for a retry");
    assert_eq!(error.message(), "no such reservation is held");
    reservations.convert(TaskKey(0), ReservationKind::Retry).expect("converted at its append");
    assert!(reservations.is_empty());
    assert!(reservations.convert(TaskKey(0), ReservationKind::Retry).is_err());
    reservations.reserve(TaskKey(1), ReservationKind::Repair).expect("nothing is held again");
    assert!(reservations.cancel_any());
    assert!(!reservations.cancel_any());
    assert!(reservations.is_empty());
}
