use bee_core::ids::{MessageId, OutputId, TransactionId};
use bee_core::ledger::{Address, Ed25519Address, Ledger, LedgerError, Output, Spent, IOTA_SUPPLY};
use bee_core::table::Table;

fn oid(b: u8, i: u16) -> OutputId {
    OutputId::new(TransactionId::new([b; 32]), i)
}

fn out(amount: u64, a: u8) -> Output {
    Output {
        message_id: MessageId::new([a; 32]),
        amount,
        address: Address::Ed25519(Ed25519Address { bytes: [a; 32] }),
    }
}

fn genesis() -> Ledger {
    let mut l = Ledger::new(5);
    l.insert_unspent_output(oid(1, 0), out(IOTA_SUPPLY, 1));
    l
}

fn diff_moving_supply() -> (Table<OutputId, Output>, Table<OutputId, Spent>) {
    let mut created = Table::new();
    created.insert(oid(2, 0), out(IOTA_SUPPLY - 10, 2));
    created.insert(oid(2, 1), out(10, 3));
    let mut consumed = Table::new();
    consumed.insert(oid(1, 0), Spent { transaction_id: TransactionId::new([2; 32]), milestone_index: 6 });
    (created, consumed)
}

#[test]
fn ledger_apply_order() {
    let mut l = genesis();
    let (created, consumed) = diff_moving_supply();
    assert_eq!(l.apply_diff(6, &created, &consumed), Ok(()));
    assert_eq!(l.ledger_index(), 6);
    assert!(!l.is_unspent(&oid(1, 0)));
    assert!(l.is_unspent(&oid(2, 0)));
    assert!(l.spent(&oid(1, 0)).is_some());
    assert!(!l.has_address_entry(&Ed25519Address { bytes: [1; 32] }, &oid(1, 0)));
    assert!(l.has_address_entry(&Ed25519Address { bytes: [3; 32] }, &oid(2, 1)));

    let (c2, s2) = (Table::new(), Table::new());
    assert_eq!(l.apply_diff(8, &c2, &s2), Err(LedgerError::UnexpectedDiffIndex(8)));
    assert_eq!(l.ledger_index(), 6);
    assert!(l.is_unspent(&oid(2, 0)));
    assert!(l.check_ledger_state());
}

#[test]
fn ledger_rollback_restores() {
    let mut l = genesis();
    let (created, consumed) = diff_moving_supply();
    l.apply_diff(6, &created, &consumed).unwrap();
    assert_eq!(l.rollback_diff(5, &created, &consumed), Err(LedgerError::UnexpectedDiffIndex(5)));
    assert_eq!(l.rollback_diff(6, &created, &consumed), Ok(()));
    assert_eq!(l.ledger_index(), 5);
    assert!(l.is_unspent(&oid(1, 0)));
    assert!(l.spent(&oid(1, 0)).is_none());
    assert!(l.output(&oid(2, 0)).is_none());
    assert!(!l.is_unspent(&oid(2, 1)));
    assert!(l.has_address_entry(&Ed25519Address { bytes: [1; 32] }, &oid(1, 0)));
    assert!(!l.has_address_entry(&Ed25519Address { bytes: [3; 32] }, &oid(2, 1)));
    assert!(l.check_ledger_state());
}

#[test]
fn ledger_in_order_diffs_advance_by_count() {
    let mut l = Ledger::new(0);
    for i in 1..=4u32 {
        let mut created = Table::new();
        created.insert(oid(i as u8, 0), out(1, i as u8));
        assert_eq!(l.apply_diff(i, &created, &Table::new()), Ok(()));
    }
    assert_eq!(l.ledger_index(), 4);
}

#[test]
fn ledger_state_detects_wrong_supply() {
    let mut l = Ledger::new(1);
    assert!(!l.check_ledger_state());
    l.insert_unspent_output(oid(1, 0), out(IOTA_SUPPLY - 1, 1));
    assert!(!l.check_ledger_state());
    l.insert_unspent_output(oid(1, 1), out(1, 1));
    assert!(l.check_ledger_state());
    l.insert_unspent_output(oid(1, 2), out(u64::MAX, 1));
    assert!(!l.check_ledger_state());
}

#[test]
fn ledger_rollback_of_index_zero_fails() {
    let mut l = Ledger::new(0);
    assert_eq!(
        l.rollback_diff(0, &Table::new(), &Table::new()),
        Err(LedgerError::UnexpectedDiffIndex(0))
    );
}

#[test]
fn ledger_apply_at_max_index_fails() {
    let mut l = Ledger::new(u32::MAX);
    assert_eq!(
        l.apply_diff(0, &Table::new(), &Table::new()),
        Err(LedgerError::UnexpectedDiffIndex(0))
    );
    assert_eq!(l.ledger_index(), u32::MAX);
}
