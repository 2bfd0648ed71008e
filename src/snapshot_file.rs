//! The on-disk snapshot format.
//!
//! A file is a header, then its solid entry points, then (full snapshots
//! only) its unspent outputs, then its milestone diffs; all integers are
//! little-endian:
//!
//! - header: kind `u8` (0 full, 1 delta), network id `u64`, entry point index
//!   `u32`, ledger index `u32`, timestamp `u64`, entry point count `u32`,
//!   output count `u32` (full only), diff count `u32`;
//! - entry point: a 32-byte message id;
//! - output: message id (32 bytes), output id (34 bytes), address kind `u8`
//!   (1, Ed25519), address (32 bytes), amount `u64`;
//! - diff: milestone index `u32`, created count `u32`, consumed count `u32`,
//!   the created outputs, then the consumed ones, each an output followed by
//!   the 32-byte id of the transaction that spent it.

use vstd::prelude::*;

use crate::codec::{
    parsed_as, read_array32, read_u32, read_u64, read_u8, spec_read_array32,
    spec_read_u32, spec_read_u64, spec_read_u8, CodecError, Parsed,
};
use crate::ids::{parse_output_id, spec_parse_output_id, MessageId, OutputId, TransactionId};
use crate::ledger::{Address, Ed25519Address, Output, Spent};
use crate::snapshot::{MilestoneDiff, Snapshot, SnapshotHeader, SnapshotKind};
use crate::table::Table;

verus! {

/// The address kind of Ed25519 addresses.
pub const ED25519_ADDRESS_KIND: u8 = 1;

/// A diff as the file holds it: the records in file order.
pub struct DiffRecordView {
    pub index: u32,
    pub created: Seq<(OutputId, Output)>,
    pub consumed: Seq<(OutputId, Spent)>,
}

/// A snapshot file's contents, in file order.
pub struct SnapshotFileView {
    pub header: SnapshotHeader,
    pub solid_entry_points: Seq<MessageId>,
    pub outputs: Seq<(OutputId, Output)>,
    pub diffs: Seq<DiffRecordView>,
}

/// Reading one output record at `pos`.
pub open spec fn spec_parse_output(s: Seq<u8>, pos: int) -> Parsed<(OutputId, Output)> {
    match spec_read_array32(s, pos) {
        Err(e) => Err(e),
        Ok((m, at1)) => match spec_parse_output_id(s, at1) {
            Err(e) => Err(e),
            Ok((id, at2)) => match spec_read_u8(s, at2) {
                Err(e) => Err(e),
                Ok((kind, at3)) => if kind != ED25519_ADDRESS_KIND {
                    Err(CodecError::InvalidTag)
                } else {
                    match spec_read_array32(s, at3) {
                        Err(e) => Err(e),
                        Ok((a, at4)) => match spec_read_u64(s, at4) {
                            Err(e) => Err(e),
                            Ok((amount, at5)) => Ok(
                                (
                                    (
                                        id,
                                        Output {
                                            message_id: MessageId { bytes: m },
                                            amount,
                                            address: Address::Ed25519(Ed25519Address { bytes: a }),
                                        },
                                    ),
                                    at5,
                                ),
                            ),
                        },
                    }
                },
            },
        },
    }
}

/// Reading one consumed record of the diff of milestone `index` at `pos`.
pub open spec fn spec_parse_consumed(s: Seq<u8>, pos: int, index: u32) -> Parsed<(OutputId, Spent)> {
    match spec_parse_output(s, pos) {
        Err(e) => Err(e),
        Ok((o, p)) => match spec_read_array32(s, p) {
            Err(e) => Err(e),
            Ok((t, q)) => Ok(
                (
                    (o.0, Spent { transaction_id: TransactionId { bytes: t }, milestone_index: index }),
                    q,
                ),
            ),
        },
    }
}

/// Reading `n` entry points at `pos`.
pub open spec fn spec_parse_seps(s: Seq<u8>, pos: int, n: nat) -> Parsed<Seq<MessageId>>
    decreases n,
{
    if n == 0 {
        Ok((Seq::empty(), pos))
    } else {
        match spec_parse_seps(s, pos, (n - 1) as nat) {
            Err(e) => Err(e),
            Ok((v, p)) => match spec_read_array32(s, p) {
                Err(e) => Err(e),
                Ok((m, q)) => Ok((v.push(MessageId { bytes: m }), q)),
            },
        }
    }
}

/// Reading `n` output records at `pos`.
pub open spec fn spec_parse_outputs(s: Seq<u8>, pos: int, n: nat) -> Parsed<Seq<(OutputId, Output)>>
    decreases n,
{
    if n == 0 {
        Ok((Seq::empty(), pos))
    } else {
        match spec_parse_outputs(s, pos, (n - 1) as nat) {
            Err(e) => Err(e),
            Ok((v, p)) => match spec_parse_output(s, p) {
                Err(e) => Err(e),
                Ok((o, q)) => Ok((v.push(o), q)),
            },
        }
    }
}

/// Reading `n` consumed records of the diff of milestone `index` at `pos`.
pub open spec fn spec_parse_consumeds(s: Seq<u8>, pos: int, n: nat, index: u32) -> Parsed<
    Seq<(OutputId, Spent)>,
>
    decreases n,
{
    if n == 0 {
        Ok((Seq::empty(), pos))
    } else {
        match spec_parse_consumeds(s, pos, (n - 1) as nat, index) {
            Err(e) => Err(e),
            Ok((v, p)) => match spec_parse_consumed(s, p, index) {
                Err(e) => Err(e),
                Ok((o, q)) => Ok((v.push(o), q)),
            },
        }
    }
}

/// Reading one diff at `pos`.
pub open spec fn spec_parse_diff(s: Seq<u8>, pos: int) -> Parsed<DiffRecordView> {
    match spec_read_u32(s, pos) {
        Err(e) => Err(e),
        Ok((index, at1)) => match spec_read_u32(s, at1) {
            Err(e) => Err(e),
            Ok((nc, at2)) => match spec_read_u32(s, at2) {
                Err(e) => Err(e),
                Ok((ns, at3)) => match spec_parse_outputs(s, at3, nc as nat) {
                    Err(e) => Err(e),
                    Ok((created, at4)) => match spec_parse_consumeds(s, at4, ns as nat, index) {
                        Err(e) => Err(e),
                        Ok((consumed, at5)) => Ok(
                            (DiffRecordView { index, created, consumed }, at5),
                        ),
                    },
                },
            },
        },
    }
}

/// Reading `n` diffs at `pos`.
pub open spec fn spec_parse_diffs(s: Seq<u8>, pos: int, n: nat) -> Parsed<Seq<DiffRecordView>>
    decreases n,
{
    if n == 0 {
        Ok((Seq::empty(), pos))
    } else {
        match spec_parse_diffs(s, pos, (n - 1) as nat) {
            Err(e) => Err(e),
            Ok((v, p)) => match spec_parse_diff(s, p) {
                Err(e) => Err(e),
                Ok((d, q)) => Ok((v.push(d), q)),
            },
        }
    }
}

/// The kind with tag `t`.
pub open spec fn kind_of_tag(t: u8) -> Option<SnapshotKind> {
    if t == 0 {
        Some(SnapshotKind::Full)
    } else if t == 1 {
        Some(SnapshotKind::Delta)
    } else {
        None
    }
}

/// Reading the header at the start of `s`: the header and the three counts.
pub open spec fn spec_parse_header(s: Seq<u8>) -> Parsed<(SnapshotHeader, u32, u32, u32)> {
    match spec_read_u8(s, 0) {
        Err(e) => Err(e),
        Ok((t, at0)) => match kind_of_tag(t) {
            None => Err(CodecError::InvalidTag),
            Some(kind) => match spec_read_u64(s, at0) {
                Err(e) => Err(e),
                Ok((network_id, at1)) => match spec_read_u32(s, at1) {
                    Err(e) => Err(e),
                    Ok((sep_index, at2)) => match spec_read_u32(s, at2) {
                        Err(e) => Err(e),
                        Ok((ledger_index, at3)) => match spec_read_u64(s, at3) {
                            Err(e) => Err(e),
                            Ok((timestamp, at4)) => match spec_read_u32(s, at4) {
                                Err(e) => Err(e),
                                Ok((nsep, at5)) => {
                                    let h = SnapshotHeader {
                                        kind,
                                        network_id,
                                        sep_index,
                                        ledger_index,
                                        timestamp,
                                    };
                                    if kind == SnapshotKind::Full {
                                        match spec_read_u32(s, at5) {
                                            Err(e) => Err(e),
                                            Ok((nout, at6)) => match spec_read_u32(s, at6) {
                                                Err(e) => Err(e),
                                                Ok((ndiff, at7)) => Ok(((h, nsep, nout, ndiff), at7)),
                                            },
                                        }
                                    } else {
                                        match spec_read_u32(s, at5) {
                                            Err(e) => Err(e),
                                            Ok((ndiff, at6)) => Ok(((h, nsep, 0, ndiff), at6)),
                                        }
                                    }
                                },
                            },
                        },
                    },
                },
            },
        },
    }
}

/// Reading a whole snapshot file: every byte must belong to it.
pub open spec fn spec_parse_snapshot(s: Seq<u8>) -> Result<SnapshotFileView, CodecError> {
    match spec_parse_header(s) {
        Err(e) => Err(e),
        Ok(((h, nsep, nout, ndiff), at0)) => match spec_parse_seps(s, at0, nsep as nat) {
            Err(e) => Err(e),
            Ok((seps, at1)) => match spec_parse_outputs(s, at1, nout as nat) {
                Err(e) => Err(e),
                Ok((outputs, at2)) => match spec_parse_diffs(s, at2, ndiff as nat) {
                    Err(e) => Err(e),
                    Ok((diffs, at3)) => if at3 == s.len() {
                        Ok(SnapshotFileView { header: h, solid_entry_points: seps, outputs, diffs })
                    } else {
                        Err(CodecError::TrailingBytes)
                    },
                },
            },
        },
    }
}

proof fn lemma_seps_stop(s: Seq<u8>, pos: int, k: nat, n: nat, e: CodecError)
    requires
        k <= n,
        spec_parse_seps(s, pos, k) == Err::<(Seq<MessageId>, int), CodecError>(e),
    ensures
        spec_parse_seps(s, pos, n) == Err::<(Seq<MessageId>, int), CodecError>(e),
    decreases n - k,
{
    if k < n {
        assert(spec_parse_seps(s, pos, (k + 1) as nat) == Err::<(Seq<MessageId>, int), CodecError>(e));
        lemma_seps_stop(s, pos, (k + 1) as nat, n, e);
    }
}

proof fn lemma_outputs_stop(s: Seq<u8>, pos: int, k: nat, n: nat, e: CodecError)
    requires
        k <= n,
        spec_parse_outputs(s, pos, k) == Err::<(Seq<(OutputId, Output)>, int), CodecError>(e),
    ensures
        spec_parse_outputs(s, pos, n) == Err::<(Seq<(OutputId, Output)>, int), CodecError>(e),
    decreases n - k,
{
    if k < n {
        assert(spec_parse_outputs(s, pos, (k + 1) as nat) == Err::<
            (Seq<(OutputId, Output)>, int),
            CodecError,
        >(e));
        lemma_outputs_stop(s, pos, (k + 1) as nat, n, e);
    }
}

proof fn lemma_consumeds_stop(s: Seq<u8>, pos: int, k: nat, n: nat, index: u32, e: CodecError)
    requires
        k <= n,
        spec_parse_consumeds(s, pos, k, index) == Err::<(Seq<(OutputId, Spent)>, int), CodecError>(e),
    ensures
        spec_parse_consumeds(s, pos, n, index) == Err::<(Seq<(OutputId, Spent)>, int), CodecError>(e),
    decreases n - k,
{
    if k < n {
        assert(spec_parse_consumeds(s, pos, (k + 1) as nat, index) == Err::<
            (Seq<(OutputId, Spent)>, int),
            CodecError,
        >(e));
        lemma_consumeds_stop(s, pos, (k + 1) as nat, n, index, e);
    }
}

proof fn lemma_diffs_stop(s: Seq<u8>, pos: int, k: nat, n: nat, e: CodecError)
    requires
        k <= n,
        spec_parse_diffs(s, pos, k) == Err::<(Seq<DiffRecordView>, int), CodecError>(e),
    ensures
        spec_parse_diffs(s, pos, n) == Err::<(Seq<DiffRecordView>, int), CodecError>(e),
    decreases n - k,
{
    if k < n {
        assert(spec_parse_diffs(s, pos, (k + 1) as nat) == Err::<(Seq<DiffRecordView>, int), CodecError>(e));
        lemma_diffs_stop(s, pos, (k + 1) as nat, n, e);
    }
}

fn parse_output(buf: &[u8], pos: usize) -> (r: Result<((OutputId, Output), usize), CodecError>)
    ensures
        parsed_as(r, spec_parse_output(buf@, pos as int)),
{
    let (m, at1) = read_array32(buf, pos)?;
    let (id, at2) = parse_output_id(buf, at1)?;
    let (kind, at3) = read_u8(buf, at2)?;
    if kind != ED25519_ADDRESS_KIND {
        return Err(CodecError::InvalidTag);
    }
    let (a, at4) = read_array32(buf, at3)?;
    let (amount, at5) = read_u64(buf, at4)?;
    Ok(
        (
            (
                id,
                Output {
                    message_id: MessageId { bytes: m },
                    amount,
                    address: Address::Ed25519(Ed25519Address { bytes: a }),
                },
            ),
            at5,
        ),
    )
}

fn parse_consumed(buf: &[u8], pos: usize, index: u32) -> (r: Result<((OutputId, Spent), usize), CodecError>)
    ensures
        parsed_as(r, spec_parse_consumed(buf@, pos as int, index)),
{
    let (o, p) = parse_output(buf, pos)?;
    let (t, q) = read_array32(buf, p)?;
    Ok(((o.0, Spent { transaction_id: TransactionId { bytes: t }, milestone_index: index }), q))
}

fn parse_seps(buf: &[u8], pos: usize, n: u32) -> (r: Result<(Vec<MessageId>, usize), CodecError>)
    ensures
        match r {
            Ok((v, p)) => spec_parse_seps(buf@, pos as int, n as nat) == Ok::<
                (Seq<MessageId>, int),
                CodecError,
            >((v@, p as int)),
            Err(e) => spec_parse_seps(buf@, pos as int, n as nat) == Err::<
                (Seq<MessageId>, int),
                CodecError,
            >(e),
        },
{
    let mut v: Vec<MessageId> = Vec::new();
    let mut p = pos;
    let mut k: u32 = 0;
    while k < n
        invariant
            0 <= k <= n,
            spec_parse_seps(buf@, pos as int, k as nat) == Ok::<(Seq<MessageId>, int), CodecError>(
                (v@, p as int),
            ),
        decreases n - k,
    {
        match read_array32(buf, p) {
            Err(e) => {
                proof {
                    lemma_seps_stop(buf@, pos as int, (k + 1) as nat, n as nat, e);
                }
                return Err(e);
            },
            Ok((m, q)) => {
                v.push(MessageId { bytes: m });
                p = q;
            },
        }
        k = k + 1;
    }
    Ok((v, p))
}

fn parse_outputs(buf: &[u8], pos: usize, n: u32) -> (r: Result<(Vec<(OutputId, Output)>, usize), CodecError>)
    ensures
        match r {
            Ok((v, p)) => spec_parse_outputs(buf@, pos as int, n as nat) == Ok::<
                (Seq<(OutputId, Output)>, int),
                CodecError,
            >((v@, p as int)),
            Err(e) => spec_parse_outputs(buf@, pos as int, n as nat) == Err::<
                (Seq<(OutputId, Output)>, int),
                CodecError,
            >(e),
        },
{
    let mut v: Vec<(OutputId, Output)> = Vec::new();
    let mut p = pos;
    let mut k: u32 = 0;
    while k < n
        invariant
            0 <= k <= n,
            spec_parse_outputs(buf@, pos as int, k as nat) == Ok::<
                (Seq<(OutputId, Output)>, int),
                CodecError,
            >((v@, p as int)),
        decreases n - k,
    {
        match parse_output(buf, p) {
            Err(e) => {
                proof {
                    lemma_outputs_stop(buf@, pos as int, (k + 1) as nat, n as nat, e);
                }
                return Err(e);
            },
            Ok((o, q)) => {
                v.push(o);
                p = q;
            },
        }
        k = k + 1;
    }
    Ok((v, p))
}

fn parse_consumeds(buf: &[u8], pos: usize, n: u32, index: u32) -> (r: Result<
    (Vec<(OutputId, Spent)>, usize),
    CodecError,
>)
    ensures
        match r {
            Ok((v, p)) => spec_parse_consumeds(buf@, pos as int, n as nat, index) == Ok::<
                (Seq<(OutputId, Spent)>, int),
                CodecError,
            >((v@, p as int)),
            Err(e) => spec_parse_consumeds(buf@, pos as int, n as nat, index) == Err::<
                (Seq<(OutputId, Spent)>, int),
                CodecError,
            >(e),
        },
{
    let mut v: Vec<(OutputId, Spent)> = Vec::new();
    let mut p = pos;
    let mut k: u32 = 0;
    while k < n
        invariant
            0 <= k <= n,
            spec_parse_consumeds(buf@, pos as int, k as nat, index) == Ok::<
                (Seq<(OutputId, Spent)>, int),
                CodecError,
            >((v@, p as int)),
        decreases n - k,
    {
        match parse_consumed(buf, p, index) {
            Err(e) => {
                proof {
                    lemma_consumeds_stop(buf@, pos as int, (k + 1) as nat, n as nat, index, e);
                }
                return Err(e);
            },
            Ok((o, q)) => {
                v.push(o);
                p = q;
            },
        }
        k = k + 1;
    }
    Ok((v, p))
}

/// A diff as the file holds it.
pub struct DiffRecord {
    pub index: u32,
    pub created: Vec<(OutputId, Output)>,
    pub consumed: Vec<(OutputId, Spent)>,
}

impl View for DiffRecord {
    type V = DiffRecordView;

    open spec fn view(&self) -> DiffRecordView {
        DiffRecordView { index: self.index, created: self.created@, consumed: self.consumed@ }
    }
}

fn parse_diff(buf: &[u8], pos: usize) -> (r: Result<(DiffRecord, usize), CodecError>)
    ensures
        match r {
            Ok((d, p)) => spec_parse_diff(buf@, pos as int) == Ok::<(DiffRecordView, int), CodecError>(
                (d@, p as int),
            ),
            Err(e) => spec_parse_diff(buf@, pos as int) == Err::<(DiffRecordView, int), CodecError>(e),
        },
{
    let (index, at1) = read_u32(buf, pos)?;
    let (nc, at2) = read_u32(buf, at1)?;
    let (ns, at3) = read_u32(buf, at2)?;
    let (created, at4) = parse_outputs(buf, at3, nc)?;
    let (consumed, at5) = parse_consumeds(buf, at4, ns, index)?;
    Ok((DiffRecord { index, created, consumed }, at5))
}

pub open spec fn diff_views(v: Seq<DiffRecord>) -> Seq<DiffRecordView> {
    v.map_values(|d: DiffRecord| d@)
}

fn parse_diffs(buf: &[u8], pos: usize, n: u32) -> (r: Result<(Vec<DiffRecord>, usize), CodecError>)
    ensures
        match r {
            Ok((v, p)) => spec_parse_diffs(buf@, pos as int, n as nat) == Ok::<
                (Seq<DiffRecordView>, int),
                CodecError,
            >((diff_views(v@), p as int)),
            Err(e) => spec_parse_diffs(buf@, pos as int, n as nat) == Err::<
                (Seq<DiffRecordView>, int),
                CodecError,
            >(e),
        },
{
    let mut v: Vec<DiffRecord> = Vec::new();
    let mut p = pos;
    let mut k: u32 = 0;
    assert(diff_views(v@) =~= Seq::<DiffRecordView>::empty());
    while k < n
        invariant
            0 <= k <= n,
            spec_parse_diffs(buf@, pos as int, k as nat) == Ok::<(Seq<DiffRecordView>, int), CodecError>(
                (diff_views(v@), p as int),
            ),
        decreases n - k,
    {
        match parse_diff(buf, p) {
            Err(e) => {
                proof {
                    lemma_diffs_stop(buf@, pos as int, (k + 1) as nat, n as nat, e);
                }
                return Err(e);
            },
            Ok((d, q)) => {
                let ghost before = v@;
                let ghost dv = d@;
                v.push(d);
                assert(diff_views(v@) =~= diff_views(before).push(dv));
                p = q;
            },
        }
        k = k + 1;
    }
    Ok((v, p))
}

/// A snapshot file's contents, in file order.
pub struct SnapshotFile {
    pub header: SnapshotHeader,
    pub solid_entry_points: Vec<MessageId>,
    pub outputs: Vec<(OutputId, Output)>,
    pub diffs: Vec<DiffRecord>,
}

impl View for SnapshotFile {
    type V = SnapshotFileView;

    open spec fn view(&self) -> SnapshotFileView {
        SnapshotFileView {
            header: self.header,
            solid_entry_points: self.solid_entry_points@,
            outputs: self.outputs@,
            diffs: diff_views(self.diffs@),
        }
    }
}

fn parse_header(buf: &[u8]) -> (r: Result<((SnapshotHeader, u32, u32, u32), usize), CodecError>)
    ensures
        parsed_as(r, spec_parse_header(buf@)),
{
    let (t, at0) = read_u8(buf, 0)?;
    let kind = if t == 0 {
        SnapshotKind::Full
    } else if t == 1 {
        SnapshotKind::Delta
    } else {
        return Err(CodecError::InvalidTag);
    };
    let (network_id, at1) = read_u64(buf, at0)?;
    let (sep_index, at2) = read_u32(buf, at1)?;
    let (ledger_index, at3) = read_u32(buf, at2)?;
    let (timestamp, at4) = read_u64(buf, at3)?;
    let (nsep, at5) = read_u32(buf, at4)?;
    let h = SnapshotHeader { kind, network_id, sep_index, ledger_index, timestamp };
    if t == 0 {
        let (nout, at6) = read_u32(buf, at5)?;
        let (ndiff, at7) = read_u32(buf, at6)?;
        Ok(((h, nsep, nout, ndiff), at7))
    } else {
        let (ndiff, at6) = read_u32(buf, at5)?;
        Ok(((h, nsep, 0, ndiff), at6))
    }
}

impl SnapshotFile {
    /// Reads a snapshot file from its bytes.
    pub fn unpack(bytes: &[u8]) -> (r: Result<SnapshotFile, CodecError>)
        ensures
            match r {
                Ok(f) => spec_parse_snapshot(bytes@) == Ok::<SnapshotFileView, CodecError>(f@),
                Err(e) => spec_parse_snapshot(bytes@) == Err::<SnapshotFileView, CodecError>(e),
            },
    {
        let ((header, nsep, nout, ndiff), at0) = parse_header(bytes)?;
        let (solid_entry_points, at1) = parse_seps(bytes, at0, nsep)?;
        let (outputs, at2) = parse_outputs(bytes, at1, nout)?;
        let (diffs, at3) = parse_diffs(bytes, at2, ndiff)?;
        if at3 != bytes.len() {
            return Err(CodecError::TrailingBytes);
        }
        Ok(SnapshotFile { header, solid_entry_points, outputs, diffs })
    }
}

/// The map that records `s` leave when inserted in order: a later record
/// with the same key wins.
pub open spec fn seq_map<K, V>(s: Seq<(K, V)>) -> Map<K, V>
    decreases s.len(),
{
    if s.len() == 0 {
        Map::empty()
    } else {
        seq_map(s.drop_last()).insert(s.last().0, s.last().1)
    }
}

fn table_of_outputs(records: &Vec<(OutputId, Output)>) -> (r: Table<OutputId, Output>)
    ensures
        r.wf(),
        r@ == seq_map(records@),
{
    let mut t: Table<OutputId, Output> = Table::new();
    let mut i: usize = 0;
    while i < records.len()
        invariant
            t.wf(),
            0 <= i <= records@.len(),
            t@ == seq_map(records@.take(i as int)),
        decreases records@.len() - i,
    {
        let (k, v) = records[i];
        t.insert(k, v);
        assert(records@.take(i + 1).drop_last() =~= records@.take(i as int));
        i = i + 1;
    }
    assert(records@.take(i as int) =~= records@);
    t
}

fn table_of_spent(records: &Vec<(OutputId, Spent)>) -> (r: Table<OutputId, Spent>)
    ensures
        r.wf(),
        r@ == seq_map(records@),
{
    let mut t: Table<OutputId, Spent> = Table::new();
    let mut i: usize = 0;
    while i < records.len()
        invariant
            t.wf(),
            0 <= i <= records@.len(),
            t@ == seq_map(records@.take(i as int)),
        decreases records@.len() - i,
    {
        let (k, v) = records[i];
        t.insert(k, v);
        assert(records@.take(i + 1).drop_last() =~= records@.take(i as int));
        i = i + 1;
    }
    assert(records@.take(i as int) =~= records@);
    t
}

impl SnapshotFile {
    /// The snapshot to import: the same header, entry points and outputs, and
    /// each diff's records gathered into tables.
    pub fn to_snapshot(&self) -> (r: Snapshot)
        ensures
            r.wf(),
            r.header == self.header,
            r.solid_entry_points@ == self.solid_entry_points@,
            r.outputs@ == self.outputs@,
            r.milestone_diffs@.len() == self.diffs@.len(),
            forall|j: int|
                0 <= j < self.diffs@.len() ==> (#[trigger] r.diffs()[j]).index == self.diffs@[j].index
                    && r.diffs()[j].created == seq_map(self.diffs@[j].created@)
                    && r.diffs()[j].consumed == seq_map(self.diffs@[j].consumed@),
    {
        let mut diffs: Vec<MilestoneDiff> = Vec::new();
        let mut i: usize = 0;
        while i < self.diffs.len()
            invariant
                0 <= i <= self.diffs@.len(),
                diffs@.len() == i,
                forall|j: int| 0 <= j < i ==> (#[trigger] diffs@[j]).wf(),
                forall|j: int|
                    0 <= j < i ==> (#[trigger] diffs@[j]).index == self.diffs@[j].index
                        && diffs@[j].created@ == seq_map(self.diffs@[j].created@)
                        && diffs@[j].consumed@ == seq_map(self.diffs@[j].consumed@),
            decreases self.diffs@.len() - i,
        {
            let d = &self.diffs[i];
            let created = table_of_outputs(&d.created);
            let consumed = table_of_spent(&d.consumed);
            diffs.push(MilestoneDiff { index: d.index, created, consumed });
            i = i + 1;
        }
        let mut seps: Vec<MessageId> = Vec::new();
        let mut k: usize = 0;
        while k < self.solid_entry_points.len()
            invariant
                0 <= k <= self.solid_entry_points@.len(),
                seps@ == self.solid_entry_points@.take(k as int),
            decreases self.solid_entry_points@.len() - k,
        {
            seps.push(self.solid_entry_points[k]);
            assert(seps@ =~= self.solid_entry_points@.take(k + 1));
            k = k + 1;
        }
        assert(seps@ =~= self.solid_entry_points@);
        let mut outputs: Vec<(OutputId, Output)> = Vec::new();
        let mut k: usize = 0;
        while k < self.outputs.len()
            invariant
                0 <= k <= self.outputs@.len(),
                outputs@ == self.outputs@.take(k as int),
            decreases self.outputs@.len() - k,
        {
            outputs.push(self.outputs[k]);
            assert(outputs@ =~= self.outputs@.take(k + 1));
            k = k + 1;
        }
        assert(outputs@ =~= self.outputs@);
        Snapshot { header: self.header, solid_entry_points: seps, outputs, milestone_diffs: diffs }
    }
}

} // verus!
