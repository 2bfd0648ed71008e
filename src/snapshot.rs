//! Snapshot import: seeding the ledger and the solid entry points from a full
//! snapshot and then a delta snapshot, and the decision of what to import.

use vstd::prelude::*;

use crate::ids::{MessageId, OutputId};
use crate::ledger::{
    address_of, apply_all, apply_view, consistent, diff_fits, in_order, lemma_apply_in_order,
    lemma_apply_rollback, rollback_view, DiffView, Ledger, LedgerView, Output, Spent,
    AddressEntry,
};
use crate::table::{Table, TableKey};

verus! {

/// Whether a snapshot holds the whole ledger or only the diffs after one.
#[derive(Clone, Copy, Debug, PartialEq, Eq, Structural)]
pub enum SnapshotKind {
    Full,
    Delta,
}

/// Why a snapshot import failed.
#[derive(Clone, Copy, Debug, PartialEq, Eq)]
pub enum SnapshotError {
    /// Only the delta snapshot file is there; it cannot be imported alone.
    OnlyDeltaFileExists,
    /// The expected kind, then the kind the file declares.
    InvalidKind(SnapshotKind, SnapshotKind),
    /// The network id of this node, then the one of the file.
    NetworkIdMismatch(u64, u64),
    /// A diff whose index is neither the next nor the current ledger index.
    UnexpectedDiffIndex(u32),
    /// The unspent outputs do not hold the total supply.
    InvalidLedgerState,
}

/// What a snapshot file declares about itself.
#[derive(Clone, Copy, Debug, PartialEq, Eq, Structural)]
pub struct SnapshotHeader {
    pub kind: SnapshotKind,
    pub network_id: u64,
    pub sep_index: u32,
    pub ledger_index: u32,
    pub timestamp: u64,
}

/// The record of the imported snapshot.
#[derive(Clone, Copy, Debug, PartialEq, Eq, Structural)]
pub struct SnapshotInfo {
    pub network_id: u64,
    pub entry_point_index: u32,
    pub snapshot_index: u32,
    pub pruning_index: u32,
    pub timestamp: u64,
}

impl TableKey for MessageId {
    fn same(&self, other: &MessageId) -> (r: bool) {
        *self == *other
    }
}

/// The created and consumed outputs of one milestone.
pub struct MilestoneDiff {
    pub index: u32,
    pub created: Table<OutputId, Output>,
    pub consumed: Table<OutputId, Spent>,
}

impl View for MilestoneDiff {
    type V = DiffView;

    open spec fn view(&self) -> DiffView {
        DiffView { index: self.index, created: self.created@, consumed: self.consumed@ }
    }
}

impl MilestoneDiff {
    pub open spec fn wf(&self) -> bool {
        self.created.wf() && self.consumed.wf()
    }
}

/// The contents of a snapshot file.
pub struct Snapshot {
    pub header: SnapshotHeader,
    pub solid_entry_points: Vec<MessageId>,
    /// The unspent outputs (a full snapshot only).
    pub outputs: Vec<(OutputId, Output)>,
    pub milestone_diffs: Vec<MilestoneDiff>,
}

impl Snapshot {
    pub open spec fn wf(&self) -> bool {
        forall|i: int| 0 <= i < self.milestone_diffs@.len() ==> (#[trigger] self.milestone_diffs@[i]).wf()
    }

    pub open spec fn diffs(&self) -> Seq<DiffView> {
        self.milestone_diffs@.map_values(|d: MilestoneDiff| d@)
    }
}

/// The node state that snapshot import writes.
pub struct NodeStore {
    pub ledger: Ledger,
    pub solid_entry_points: Table<MessageId, u32>,
    pub snapshot_info: Option<SnapshotInfo>,
}

impl NodeStore {
    pub open spec fn wf(&self) -> bool {
        self.ledger.wf() && self.solid_entry_points.wf()
    }

    /// An empty store.
    pub fn new() -> (r: NodeStore)
        ensures
            r.wf(),
            r.ledger@.outputs == Map::<OutputId, Output>::empty(),
            r.solid_entry_points@ == Map::<MessageId, u32>::empty(),
            r.snapshot_info is None,
    {
        NodeStore { ledger: Ledger::new(0), solid_entry_points: Table::new(), snapshot_info: None }
    }
}

/// The ledger after storing one unspent output.
pub open spec fn insert_output_view(v: LedgerView, id: OutputId, o: Output) -> LedgerView {
    LedgerView {
        outputs: v.outputs.insert(id, o),
        unspent: v.unspent.insert(id),
        addresses: v.addresses.insert(AddressEntry { address: address_of(o), output_id: id }),
        ..v
    }
}

/// The ledger after storing the unspent outputs `outs` in order.
pub open spec fn insert_outputs_view(v: LedgerView, outs: Seq<(OutputId, Output)>) -> LedgerView
    decreases outs.len(),
{
    if outs.len() == 0 {
        v
    } else {
        insert_output_view(insert_outputs_view(v, outs.drop_last()), outs.last().0, outs.last().1)
    }
}

/// Replaying diffs in order: each is applied when it is the next milestone and
/// rolled back when it is the current one; otherwise replay stops there, with
/// that diff's index and the ledger as the diffs before it left it.
pub open spec fn replay(v: LedgerView, ds: Seq<DiffView>) -> Result<LedgerView, (u32, LedgerView)>
    decreases ds.len(),
{
    if ds.len() == 0 {
        Ok(v)
    } else {
        match replay(v, ds.drop_last()) {
            Err(stop) => Err(stop),
            Ok(w) => {
                let d = ds.last();
                if d.index as int == w.index + 1 {
                    Ok(apply_view(w, d.index, d.created, d.consumed))
                } else if d.index == w.index && d.index > 0 {
                    Ok(rollback_view(w, d.index, d.created, d.consumed))
                } else {
                    Err((d.index, w))
                }
            },
        }
    }
}

proof fn lemma_replay_stops(v: LedgerView, ds: Seq<DiffView>, k: int, stop: (u32, LedgerView))
    requires
        0 <= k <= ds.len(),
        replay(v, ds.take(k)) == Err::<LedgerView, (u32, LedgerView)>(stop),
    ensures
        replay(v, ds) == Err::<LedgerView, (u32, LedgerView)>(stop),
    decreases ds.len(),
{
    if ds.len() == k {
        assert(ds.take(k) =~= ds);
    } else {
        assert(ds.drop_last().take(k) =~= ds.take(k));
        lemma_replay_stops(v, ds.drop_last(), k, stop);
    }
}

/// Replaying diffs that follow the ledger index one by one applies each of
/// them: the result is the ledger after applying them all, whose index has
/// advanced by their number.
pub proof fn lemma_replay_in_order(v: LedgerView, ds: Seq<DiffView>)
    requires
        in_order(v.index as int, ds),
    ensures
        replay(v, ds) == Ok::<LedgerView, (u32, LedgerView)>(apply_all(v, ds)),
        apply_all(v, ds).index == v.index + ds.len(),
    decreases ds.len(),
{
    lemma_apply_in_order(v, ds);
    if ds.len() > 0 {
        let init = ds.drop_last();
        assert(in_order(v.index as int, init)) by {
            assert forall|j: int| 0 <= j < init.len() implies #[trigger] init[j].index == v.index + 1
                + j by {
                assert(init[j] == ds[j]);
            }
        }
        lemma_replay_in_order(v, init);
        assert(ds.take(ds.len() - 1) =~= init);
        assert(ds.last() == ds[ds.len() - 1]);
    }
}

/// Meeting the same diff twice in a replay, first as the next milestone and
/// then as the current one, applies it and rolls it back: the ledger ends as
/// it began, in all of its indices.
pub proof fn lemma_replay_apply_then_rollback(v: LedgerView, d: DiffView)
    requires
        consistent(v),
        diff_fits(v, d.created, d.consumed),
        d.index as int == v.index + 1,
    ensures
        replay(v, seq![d, d]) == Ok::<LedgerView, (u32, LedgerView)>(v),
{
    let ds = seq![d, d];
    assert(ds.drop_last() =~= seq![d]);
    assert(seq![d].drop_last() =~= Seq::<DiffView>::empty());
    lemma_apply_rollback(v, d.index, d.created, d.consumed);
    let w = crate::ledger::apply_view(v, d.index, d.created, d.consumed);
    assert(replay(v, Seq::<DiffView>::empty()) == Ok::<LedgerView, (u32, LedgerView)>(v));
    assert(replay(v, seq![d]) == Ok::<LedgerView, (u32, LedgerView)>(w));
    assert(w.index == d.index && d.index > 0);
    assert(ds.last() == d);
}

/// The solid entry points a snapshot leaves: its own, at its entry point index.
pub open spec fn seps_view(seps: Seq<MessageId>, index: u32) -> Map<MessageId, u32> {
    Map::new(|m: MessageId| seps.contains(m), |m: MessageId| index)
}

/// The record that importing a snapshot with `h` leaves.
pub open spec fn info_of(h: SnapshotHeader) -> SnapshotInfo {
    SnapshotInfo {
        network_id: h.network_id,
        entry_point_index: h.sep_index,
        snapshot_index: h.sep_index,
        pruning_index: h.sep_index,
        timestamp: h.timestamp,
    }
}

/// The ledger once the snapshot is seeded: its index from the header, then
/// (full snapshots only) its unspent outputs.
pub open spec fn seeded_ledger(v: LedgerView, s: &Snapshot) -> LedgerView {
    let v1 = LedgerView { index: s.header.ledger_index, ..v };
    if s.header.kind == SnapshotKind::Full {
        insert_outputs_view(v1, s.outputs@)
    } else {
        v1
    }
}

/// The outcome of importing snapshot `s` of kind `kind` into a node of network
/// `network_id` whose ledger is `v`: the checks in order, then the ledger.
pub open spec fn import_outcome(v: LedgerView, kind: SnapshotKind, s: &Snapshot, network_id: u64) -> Result<
    LedgerView,
    SnapshotError,
> {
    if s.header.network_id != network_id {
        Err(SnapshotError::NetworkIdMismatch(network_id, s.header.network_id))
    } else if s.header.kind != kind {
        Err(SnapshotError::InvalidKind(kind, s.header.kind))
    } else {
        match replay(seeded_ledger(v, s), s.diffs()) {
            Err((i, _)) => Err(SnapshotError::UnexpectedDiffIndex(i)),
            Ok(w) => if w.unspent.subset_of(w.outputs.dom()) && crate::ledger::unspent_total(w)
                == crate::ledger::IOTA_SUPPLY {
                Ok(w)
            } else {
                Err(SnapshotError::InvalidLedgerState)
            },
        }
    }
}

/// Whether the header of `s` passes: the network id first, then the kind.
pub open spec fn header_fits(kind: SnapshotKind, s: &Snapshot, network_id: u64) -> bool {
    s.header.network_id == network_id && s.header.kind == kind
}

/// The ledger that importing `s` leaves, whatever the outcome: unchanged when
/// the header does not fit; otherwise seeded and replayed, up to the diff at
/// which replay stops, if it stops.
pub open spec fn import_ledger(v: LedgerView, kind: SnapshotKind, s: &Snapshot, network_id: u64) -> LedgerView {
    if !header_fits(kind, s, network_id) {
        v
    } else {
        match replay(seeded_ledger(v, s), s.diffs()) {
            Ok(w) => w,
            Err((_, w)) => w,
        }
    }
}

/// Imports one snapshot file's contents, expected to be of kind `kind`.
pub fn import_snapshot(store: &mut NodeStore, kind: SnapshotKind, snapshot: &Snapshot, network_id: u64) -> (r:
    Result<(), SnapshotError>)
    requires
        old(store).wf(),
        snapshot.wf(),
    ensures
        final(store).wf(),
        match import_outcome(old(store).ledger@, kind, snapshot, network_id) {
            Ok(w) => r is Ok && final(store).ledger@ == w && final(store).snapshot_info == Some(
                info_of(snapshot.header),
            ),
            Err(e) => r == Err::<(), SnapshotError>(e) && final(store).snapshot_info == old(
                store,
            ).snapshot_info,
        },
        final(store).ledger@ == import_ledger(old(store).ledger@, kind, snapshot, network_id),
        final(store).solid_entry_points@ == if header_fits(kind, snapshot, network_id) {
            seps_view(snapshot.solid_entry_points@, snapshot.header.sep_index)
        } else {
            old(store).solid_entry_points@
        },
{
    let header = snapshot.header;
    if header.network_id != network_id {
        return Err(SnapshotError::NetworkIdMismatch(network_id, header.network_id));
    }
    if header.kind != kind {
        return Err(SnapshotError::InvalidKind(kind, header.kind));
    }
    let ghost v0 = store.ledger@;
    store.ledger.set_ledger_index(header.ledger_index);
    store.solid_entry_points.clear();
    let mut i: usize = 0;
    while i < snapshot.solid_entry_points.len()
        invariant
            store.wf(),
            store.snapshot_info == old(store).snapshot_info,
            header == snapshot.header,
            header.kind == kind,
            header.network_id == network_id,
            v0 == old(store).ledger@,
            store.ledger@ == (LedgerView { index: header.ledger_index, ..v0 }),
            0 <= i <= snapshot.solid_entry_points@.len(),
            store.solid_entry_points@ == seps_view(
                snapshot.solid_entry_points@.take(i as int),
                header.sep_index,
            ),
        decreases snapshot.solid_entry_points@.len() - i,
    {
        store.solid_entry_points.insert(snapshot.solid_entry_points[i], header.sep_index);
        proof {
            let a = snapshot.solid_entry_points@.take(i as int);
            let b = snapshot.solid_entry_points@.take(i + 1);
            assert(b =~= a.push(snapshot.solid_entry_points@[i as int]));
            assert forall|m: MessageId| b.contains(m) <==> a.contains(m) || m
                == snapshot.solid_entry_points@[i as int] by {
                if b.contains(m) {
                    let j = choose|j: int| 0 <= j < b.len() && b[j] == m;
                    if j < a.len() {
                        assert(a[j] == m);
                    }
                }
                if a.contains(m) {
                    let j = choose|j: int| 0 <= j < a.len() && a[j] == m;
                    assert(b[j] == m);
                }
                if m == snapshot.solid_entry_points@[i as int] {
                    assert(b[i as int] == m);
                }
            }
            assert(store.solid_entry_points@ =~= seps_view(b, header.sep_index));
        }
        i = i + 1;
    }
    proof {
        assert(snapshot.solid_entry_points@.take(i as int) =~= snapshot.solid_entry_points@);
    }
    if header.kind == SnapshotKind::Full {
        let ghost v1 = store.ledger@;
        let mut k: usize = 0;
        while k < snapshot.outputs.len()
            invariant
                store.wf(),
                store.snapshot_info == old(store).snapshot_info,
            store.snapshot_info == old(store).snapshot_info,
                header == snapshot.header,
                v1 == (LedgerView { index: header.ledger_index, ..v0 }),
                store.solid_entry_points@ == seps_view(
                    snapshot.solid_entry_points@,
                    header.sep_index,
                ),
                0 <= k <= snapshot.outputs@.len(),
                store.ledger@ == insert_outputs_view(v1, snapshot.outputs@.take(k as int)),
            decreases snapshot.outputs@.len() - k,
        {
            let (id, output) = snapshot.outputs[k];
            store.ledger.insert_unspent_output(id, output);
            proof {
                assert(snapshot.outputs@.take(k + 1).drop_last() =~= snapshot.outputs@.take(
                    k as int,
                ));
            }
            k = k + 1;
        }
        proof {
            assert(snapshot.outputs@.take(k as int) =~= snapshot.outputs@);
        }
    }
    let ghost seeded = store.ledger@;
    assert(seeded == seeded_ledger(v0, snapshot));
    let ghost ds = snapshot.diffs();
    let mut d: usize = 0;
    while d < snapshot.milestone_diffs.len()
        invariant
            store.wf(),
            store.snapshot_info == old(store).snapshot_info,
            header == snapshot.header,
            header.kind == kind,
            header.network_id == network_id,
            v0 == old(store).ledger@,
            seeded == seeded_ledger(v0, snapshot),
            store.solid_entry_points@ == seps_view(snapshot.solid_entry_points@, header.sep_index),
            snapshot.wf(),
            ds == snapshot.diffs(),
            0 <= d <= snapshot.milestone_diffs@.len(),
            replay(seeded, ds.take(d as int)) == Ok::<LedgerView, (u32, LedgerView)>(store.ledger@),
        decreases snapshot.milestone_diffs@.len() - d,
    {
        let diff = &snapshot.milestone_diffs[d];
        proof {
            assert(diff.wf());
            assert(ds.take(d + 1).drop_last() =~= ds.take(d as int));
            assert(ds[d as int] == diff@);
            assert(ds.take(d + 1).last() == diff@);
        }
        let ledger_index = store.ledger.ledger_index();
        if ledger_index < u32::MAX && diff.index == ledger_index + 1 {
            let _ = store.ledger.apply_diff(diff.index, &diff.created, &diff.consumed);
        } else if diff.index == ledger_index && diff.index > 0 {
            let _ = store.ledger.rollback_diff(diff.index, &diff.created, &diff.consumed);
        } else {
            proof {
                lemma_replay_stops(seeded, ds, d + 1, (diff.index, store.ledger@));
            }
            return Err(SnapshotError::UnexpectedDiffIndex(diff.index));
        }
        d = d + 1;
    }
    proof {
        assert(ds.take(d as int) =~= ds);
    }
    if !store.ledger.check_ledger_state() {
        return Err(SnapshotError::InvalidLedgerState);
    }
    store.snapshot_info = Some(
        SnapshotInfo {
            network_id: header.network_id,
            entry_point_index: header.sep_index,
            snapshot_index: header.sep_index,
            pruning_index: header.sep_index,
            timestamp: header.timestamp,
        },
    );
    Ok(())
}

/// What snapshot import has to do, given what storage and the disk hold.
#[derive(Clone, Copy, Debug, PartialEq, Eq, Structural)]
pub enum ImportPlan {
    /// A snapshot was imported before: nothing to do.
    Skip,
    /// Import the full snapshot file, then the delta snapshot file.
    ImportBoth,
    /// Import the full snapshot file alone.
    ImportFull,
    /// Neither file is there: fetch both, then import both.
    DownloadBoth,
}

/// The import decision: skip when a snapshot was imported before; otherwise the
/// full file is needed, and the delta file is imported when both were there
/// (or both are fetched).
pub open spec fn spec_plan(imported: bool, full_exists: bool, delta_exists: bool) -> Result<
    ImportPlan,
    SnapshotError,
> {
    if imported {
        Ok(ImportPlan::Skip)
    } else if !full_exists && delta_exists {
        Err(SnapshotError::OnlyDeltaFileExists)
    } else if !full_exists {
        Ok(ImportPlan::DownloadBoth)
    } else if delta_exists {
        Ok(ImportPlan::ImportBoth)
    } else {
        Ok(ImportPlan::ImportFull)
    }
}

/// The worker that brings a node's ledger up from snapshot files at startup.
pub struct SnapshotWorker {}

impl SnapshotWorker {
    /// Decides what to import, given whether the full and the delta snapshot
    /// files exist on disk.
    pub fn plan(store: &NodeStore, full_exists: bool, delta_exists: bool) -> (r: Result<
        ImportPlan,
        SnapshotError,
    >)
        ensures
            r == spec_plan(store.snapshot_info is Some, full_exists, delta_exists),
    {
        if store.snapshot_info.is_some() {
            Ok(ImportPlan::Skip)
        } else if !full_exists && delta_exists {
            Err(SnapshotError::OnlyDeltaFileExists)
        } else if !full_exists {
            Ok(ImportPlan::DownloadBoth)
        } else if delta_exists {
            Ok(ImportPlan::ImportBoth)
        } else {
            Ok(ImportPlan::ImportFull)
        }
    }

    /// Imports the full snapshot, then the delta snapshot if there is one.
    pub fn import_snapshots(
        store: &mut NodeStore,
        network_id: u64,
        full: &Snapshot,
        delta: Option<&Snapshot>,
    ) -> (r: Result<(), SnapshotError>)
        requires
            old(store).wf(),
            full.wf(),
            delta matches Some(d) ==> d.wf(),
        ensures
            final(store).wf(),
            match import_outcome(old(store).ledger@, SnapshotKind::Full, full, network_id) {
                Err(e) => r == Err::<(), SnapshotError>(e) && final(store).snapshot_info == old(
                    store,
                ).snapshot_info,
                Ok(w) => match delta {
                    None => r is Ok && final(store).ledger@ == w && final(store).snapshot_info
                        == Some(info_of(full.header)),
                    Some(d) => match import_outcome(w, SnapshotKind::Delta, d, network_id) {
                        Err(e) => r == Err::<(), SnapshotError>(e) && final(store).snapshot_info
                            == Some(info_of(full.header)),
                        Ok(w2) => r is Ok && final(store).ledger@ == w2
                            && final(store).solid_entry_points@ == seps_view(
                            d.solid_entry_points@,
                            d.header.sep_index,
                        ) && final(store).snapshot_info == Some(info_of(d.header)),
                    },
                },
            },
    {
        import_snapshot(store, SnapshotKind::Full, full, network_id)?;
        match delta {
            Some(d) => import_snapshot(store, SnapshotKind::Delta, d, network_id),
            None => Ok(()),
        }
    }
}

} // verus!
