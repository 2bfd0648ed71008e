use bee_core::codec::CodecError;
use bee_core::ids::{MessageId, OutputId, TransactionId};
use bee_core::ledger::IOTA_SUPPLY;
use bee_core::snapshot::{NodeStore, SnapshotKind, SnapshotWorker};
use bee_core::snapshot_file::SnapshotFile;

fn output_record(msg: u8, tx: u8, index: u16, addr: u8, amount: u64) -> Vec<u8> {
    let mut b = vec![msg; 32];
    b.extend_from_slice(&[tx; 32]);
    b.extend_from_slice(&index.to_le_bytes());
    b.push(1);
    b.extend_from_slice(&[addr; 32]);
    b.extend_from_slice(&amount.to_le_bytes());
    b
}

fn full_file(network_id: u64) -> Vec<u8> {
    let mut b = vec![0u8];
    b.extend_from_slice(&network_id.to_le_bytes());
    b.extend_from_slice(&5u32.to_le_bytes());
    b.extend_from_slice(&5u32.to_le_bytes());
    b.extend_from_slice(&1_600_000_000u64.to_le_bytes());
    b.extend_from_slice(&1u32.to_le_bytes());
    b.extend_from_slice(&1u32.to_le_bytes());
    b.extend_from_slice(&0u32.to_le_bytes());
    b.extend_from_slice(&[9u8; 32]);
    b.extend(output_record(1, 1, 0, 1, IOTA_SUPPLY));
    b
}

fn delta_file(network_id: u64) -> Vec<u8> {
    let mut b = vec![1u8];
    b.extend_from_slice(&network_id.to_le_bytes());
    b.extend_from_slice(&6u32.to_le_bytes());
    b.extend_from_slice(&5u32.to_le_bytes());
    b.extend_from_slice(&1_600_000_100u64.to_le_bytes());
    b.extend_from_slice(&0u32.to_le_bytes());
    b.extend_from_slice(&1u32.to_le_bytes());
    b.extend_from_slice(&6u32.to_le_bytes());
    b.extend_from_slice(&1u32.to_le_bytes());
    b.extend_from_slice(&1u32.to_le_bytes());
    b.extend(output_record(2, 2, 0, 2, IOTA_SUPPLY));
    b.extend(output_record(1, 1, 0, 1, IOTA_SUPPLY));
    b.extend_from_slice(&[2u8; 32]);
    b
}

#[test]
fn snapshot_file_parses_and_imports() {
    let full = SnapshotFile::unpack(&full_file(7)).unwrap();
    assert_eq!(full.header.kind, SnapshotKind::Full);
    assert_eq!(full.header.network_id, 7);
    assert_eq!(full.solid_entry_points, vec![MessageId::new([9; 32])]);
    assert_eq!(full.outputs.len(), 1);
    assert_eq!(full.outputs[0].1.amount, IOTA_SUPPLY);
    let delta = SnapshotFile::unpack(&delta_file(7)).unwrap();
    assert_eq!(delta.diffs.len(), 1);
    assert_eq!(delta.diffs[0].consumed[0].1.milestone_index, 6);
    assert_eq!(delta.diffs[0].consumed[0].1.transaction_id, TransactionId::new([2; 32]));

    let mut store = NodeStore::new();
    let d = delta.to_snapshot();
    assert_eq!(SnapshotWorker::import_snapshots(&mut store, 7, &full.to_snapshot(), Some(&d)), Ok(()));
    assert_eq!(store.ledger.ledger_index(), 6);
    assert!(store.ledger.is_unspent(&OutputId::new(TransactionId::new([2; 32]), 0)));
}

#[test]
fn snapshot_file_is_strict() {
    let bytes = full_file(7);
    for cut in [0, 1, 20, 40, bytes.len() - 1] {
        assert!(matches!(SnapshotFile::unpack(&bytes[..cut]), Err(CodecError::UnexpectedEof)));
    }
    let mut longer = bytes.clone();
    longer.push(0);
    assert!(matches!(SnapshotFile::unpack(&longer), Err(CodecError::TrailingBytes)));
    let mut bad_kind = bytes.clone();
    bad_kind[0] = 2;
    assert!(matches!(SnapshotFile::unpack(&bad_kind), Err(CodecError::InvalidTag)));
    let mut bad_address = bytes.clone();
    let tag_at = bytes.len() - 8 - 32 - 1;
    bad_address[tag_at] = 0;
    assert!(matches!(SnapshotFile::unpack(&bad_address), Err(CodecError::InvalidTag)));
}
