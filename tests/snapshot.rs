use bee_core::ids::{MessageId, OutputId, TransactionId};
use bee_core::ledger::{Address, Ed25519Address, Output, Spent, IOTA_SUPPLY};
use bee_core::snapshot::{
    import_snapshot, ImportPlan, MilestoneDiff, NodeStore, Snapshot, SnapshotError, SnapshotHeader,
    SnapshotKind, SnapshotWorker,
};
use bee_core::table::Table;

const NETWORK: u64 = 6530425480034647824;

fn oid(b: u8, i: u16) -> OutputId {
    OutputId::new(TransactionId::new([b; 32]), i)
}

fn out(amount: u64, a: u8) -> Output {
    Output {
        message_id: MessageId::new([a; 32]),
        amount,
        address: Address::Ed25519(Ed25519Address { bytes: [a; 32] }),
    }
}

fn header(kind: SnapshotKind, network_id: u64, ledger_index: u32) -> SnapshotHeader {
    SnapshotHeader { kind, network_id, sep_index: ledger_index, ledger_index, timestamp: 1_600_000_000 }
}

fn full() -> Snapshot {
    Snapshot {
        header: header(SnapshotKind::Full, NETWORK, 5),
        solid_entry_points: vec![MessageId::new([9; 32])],
        outputs: vec![(oid(1, 0), out(IOTA_SUPPLY, 1))],
        milestone_diffs: vec![],
    }
}

fn delta() -> Snapshot {
    let mut created = Table::new();
    created.insert(oid(2, 0), out(IOTA_SUPPLY, 2));
    let mut consumed = Table::new();
    consumed.insert(oid(1, 0), Spent { transaction_id: TransactionId::new([2; 32]), milestone_index: 6 });
    Snapshot {
        header: SnapshotHeader { sep_index: 6, ..header(SnapshotKind::Delta, NETWORK, 5) },
        solid_entry_points: vec![MessageId::new([8; 32])],
        outputs: vec![],
        milestone_diffs: vec![MilestoneDiff { index: 6, created, consumed }],
    }
}

#[test]
fn snapshot_only_delta_file_fails() {
    let store = NodeStore::new();
    assert_eq!(SnapshotWorker::plan(&store, false, true), Err(SnapshotError::OnlyDeltaFileExists));
    assert_eq!(SnapshotWorker::plan(&store, false, false), Ok(ImportPlan::DownloadBoth));
    assert_eq!(SnapshotWorker::plan(&store, true, false), Ok(ImportPlan::ImportFull));
}

#[test]
fn snapshot_bootstrap_then_no_op() {
    let mut store = NodeStore::new();
    assert_eq!(SnapshotWorker::plan(&store, true, true), Ok(ImportPlan::ImportBoth));
    let d = delta();
    assert_eq!(SnapshotWorker::import_snapshots(&mut store, NETWORK, &full(), Some(&d)), Ok(()));
    let info = store.snapshot_info.unwrap();
    assert_eq!(info.network_id, NETWORK);
    assert_eq!(info.snapshot_index, 6);
    assert_eq!(store.ledger.ledger_index(), 6);
    assert!(store.ledger.is_unspent(&oid(2, 0)));
    assert!(!store.ledger.is_unspent(&oid(1, 0)));
    assert!(store.solid_entry_points.contains(&MessageId::new([8; 32])));
    assert!(!store.solid_entry_points.contains(&MessageId::new([9; 32])));
    assert_eq!(SnapshotWorker::plan(&store, true, true), Ok(ImportPlan::Skip));
}

#[test]
fn snapshot_network_mismatch() {
    let mut store = NodeStore::new();
    assert_eq!(
        import_snapshot(&mut store, SnapshotKind::Full, &full(), NETWORK + 1),
        Err(SnapshotError::NetworkIdMismatch(NETWORK + 1, NETWORK))
    );
    assert!(store.snapshot_info.is_none());
}

#[test]
fn snapshot_kind_mismatch() {
    let mut store = NodeStore::new();
    assert_eq!(
        import_snapshot(&mut store, SnapshotKind::Delta, &full(), NETWORK),
        Err(SnapshotError::InvalidKind(SnapshotKind::Delta, SnapshotKind::Full))
    );
}

#[test]
fn snapshot_unexpected_diff_index() {
    let mut store = NodeStore::new();
    import_snapshot(&mut store, SnapshotKind::Full, &full(), NETWORK).unwrap();
    let mut d = delta();
    d.milestone_diffs[0].index = 8;
    assert_eq!(
        import_snapshot(&mut store, SnapshotKind::Delta, &d, NETWORK),
        Err(SnapshotError::UnexpectedDiffIndex(8))
    );
}

#[test]
fn snapshot_diff_at_current_index_rolls_back() {
    let mut store = NodeStore::new();
    let mut f = full();
    f.header.ledger_index = 6;
    f.outputs = vec![(oid(2, 0), out(IOTA_SUPPLY, 2))];
    let mut d = delta();
    d.header.ledger_index = 6;
    assert_eq!(import_snapshot(&mut store, SnapshotKind::Full, &f, NETWORK), Ok(()));
    // Rolling back milestone 6 brings the consumed output back but removes the
    // created one, so the supply now sits in the consumed output only.
    store.ledger.insert_unspent_output(oid(1, 0), out(IOTA_SUPPLY, 1));
    assert_eq!(import_snapshot(&mut store, SnapshotKind::Delta, &d, NETWORK), Ok(()));
    assert_eq!(store.ledger.ledger_index(), 5);
    assert!(store.ledger.is_unspent(&oid(1, 0)));
    assert!(!store.ledger.is_unspent(&oid(2, 0)));
}

#[test]
fn snapshot_invalid_ledger_state() {
    let mut store = NodeStore::new();
    let mut f = full();
    f.outputs = vec![(oid(1, 0), out(IOTA_SUPPLY - 1, 1))];
    assert_eq!(
        import_snapshot(&mut store, SnapshotKind::Full, &f, NETWORK),
        Err(SnapshotError::InvalidLedgerState)
    );
    assert!(store.snapshot_info.is_none());
}

#[test]
fn snapshot_network_checked_before_kind_and_store_unchanged() {
    let mut store = NodeStore::new();
    store.solid_entry_points.insert(MessageId::new([7; 32]), 1);
    assert_eq!(
        import_snapshot(&mut store, SnapshotKind::Delta, &full(), NETWORK + 1),
        Err(SnapshotError::NetworkIdMismatch(NETWORK + 1, NETWORK))
    );
    assert!(store.solid_entry_points.contains(&MessageId::new([7; 32])));
    assert_eq!(store.ledger.ledger_index(), 0);
    assert!(store.snapshot_info.is_none());
}

#[test]
fn snapshot_failing_diff_keeps_earlier_state() {
    let mut store = NodeStore::new();
    import_snapshot(&mut store, SnapshotKind::Full, &full(), NETWORK).unwrap();
    let info = store.snapshot_info;
    let mut d = delta();
    let mut late = Table::new();
    late.insert(oid(3, 0), out(1, 3));
    d.milestone_diffs.push(MilestoneDiff { index: 8, created: late, consumed: Table::new() });
    assert_eq!(
        import_snapshot(&mut store, SnapshotKind::Delta, &d, NETWORK),
        Err(SnapshotError::UnexpectedDiffIndex(8))
    );
    assert_eq!(store.ledger.ledger_index(), 6);
    assert!(store.ledger.is_unspent(&oid(2, 0)));
    assert!(store.ledger.output(&oid(3, 0)).is_none());
    assert_eq!(store.snapshot_info, info);
}
