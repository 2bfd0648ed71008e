//! Messages and their payloads, and the routing of inserted messages to the
//! worker of their payload kind.

use vstd::prelude::*;

use crate::codec::{
    array32_of, lemma_array32_of, lemma_subrange_of, lemma_u16_round_trip, lemma_u32_round_trip,
    lemma_u64_round_trip, read_array32, read_u16, read_u32, read_u64, spec_finish, spec_read_array32,
    spec_read_u16, spec_read_u32, spec_read_u64, u16_bytes, u32_bytes, u64_bytes, write_array32,
    write_u16, write_u32, write_u64, CodecError, Parsed,
};
use crate::ids::{MessageId, UTXOInput};
use crate::milestone::{
    lemma_payload_len, lemma_payload_parse, payload_bytes, spec_parse_payload, MilestonePayload,
    PayloadView,
};

verus! {

/// An indexation payload: an index under which the message can be found, and data.
#[derive(Clone, Debug)]
pub struct IndexationPayload {
    pub index: Vec<u8>,
    pub data: Vec<u8>,
}

impl IndexationPayload {
    pub fn new(index: Vec<u8>, data: Vec<u8>) -> (r: IndexationPayload)
        ensures
            r.index@ == index@,
            r.data@ == data@,
    {
        IndexationPayload { index, data }
    }

    pub fn index(&self) -> (r: &[u8])
        ensures
            r@ == self.index@,
    {
        self.index.as_slice()
    }

    pub fn data(&self) -> (r: &[u8])
        ensures
            r@ == self.data@,
    {
        self.data.as_slice()
    }
}

/// A transaction: the outputs it spends, and an optional indexation payload
/// inside its essence.
#[derive(Clone, Debug)]
pub struct TransactionPayload {
    pub inputs: Vec<UTXOInput>,
    pub payload: Option<IndexationPayload>,
}

/// The payload of a message, by kind.
#[derive(Clone, Debug)]
pub enum Payload {
    Transaction(TransactionPayload),
    Milestone(MilestonePayload),
    Indexation(IndexationPayload),
    /// A receipt, kept as the bytes of its body and not otherwise processed.
    Receipt(Vec<u8>),
    /// A treasury transaction, kept as the bytes of its body and not otherwise processed.
    TreasuryTransaction(Vec<u8>),
}

/// The kind of a payload, with its type id on the wire.
#[derive(Clone, Copy, Debug, PartialEq, Eq, Structural)]
pub enum PayloadKind {
    Transaction,
    Milestone,
    Indexation,
    Receipt,
    TreasuryTransaction,
}

pub open spec fn kind_of(p: Payload) -> PayloadKind {
    match p {
        Payload::Transaction(_) => PayloadKind::Transaction,
        Payload::Milestone(_) => PayloadKind::Milestone,
        Payload::Indexation(_) => PayloadKind::Indexation,
        Payload::Receipt(_) => PayloadKind::Receipt,
        Payload::TreasuryTransaction(_) => PayloadKind::TreasuryTransaction,
    }
}

/// The type id of a payload kind.
pub open spec fn type_id(k: PayloadKind) -> u32 {
    match k {
        PayloadKind::Transaction => 0,
        PayloadKind::Milestone => 1,
        PayloadKind::Indexation => 2,
        PayloadKind::Receipt => 3,
        PayloadKind::TreasuryTransaction => 4,
    }
}

impl PayloadKind {
    pub fn type_id(&self) -> (r: u32)
        ensures
            r == type_id(*self),
    {
        match self {
            PayloadKind::Transaction => 0,
            PayloadKind::Milestone => 1,
            PayloadKind::Indexation => 2,
            PayloadKind::Receipt => 3,
            PayloadKind::TreasuryTransaction => 4,
        }
    }

    /// The kind with type id `t`, if there is one.
    pub fn from_type_id(t: u32) -> (r: Option<PayloadKind>)
        ensures
            r matches Some(k) ==> type_id(k) == t,
            r is None <==> t > 4,
    {
        if t == 0 {
            Some(PayloadKind::Transaction)
        } else if t == 1 {
            Some(PayloadKind::Milestone)
        } else if t == 2 {
            Some(PayloadKind::Indexation)
        } else if t == 3 {
            Some(PayloadKind::Receipt)
        } else if t == 4 {
            Some(PayloadKind::TreasuryTransaction)
        } else {
            None
        }
    }
}

impl Payload {
    pub fn kind(&self) -> (r: PayloadKind)
        ensures
            r == kind_of(*self),
    {
        match self {
            Payload::Transaction(_) => PayloadKind::Transaction,
            Payload::Milestone(_) => PayloadKind::Milestone,
            Payload::Indexation(_) => PayloadKind::Indexation,
            Payload::Receipt(_) => PayloadKind::Receipt,
            Payload::TreasuryTransaction(_) => PayloadKind::TreasuryTransaction,
        }
    }
}

/// A message of the tangle.
#[derive(Clone, Debug)]
pub struct Message {
    pub network_id: u64,
    pub parent1: MessageId,
    pub parent2: MessageId,
    pub payload: Option<Payload>,
    pub nonce: u64,
}

impl Message {
    pub fn payload(&self) -> (r: &Option<Payload>)
        ensures
            *r == self.payload,
    {
        &self.payload
    }
}

/// The indexation a message carries: its own payload, or the one inside the
/// essence of its transaction.
pub open spec fn indexation_of(m: Message) -> Option<IndexationPayload> {
    match m.payload {
        Some(Payload::Indexation(i)) => Some(i),
        Some(Payload::Transaction(t)) => t.payload,
        _ => None,
    }
}

/// The indexation that the indexation worker records for `message`.
pub fn indexation(message: &Message) -> (r: Option<&IndexationPayload>)
    ensures
        match r {
            Some(i) => indexation_of(*message) == Some(*i),
            None => indexation_of(*message) is None,
        },
{
    match &message.payload {
        Some(Payload::Indexation(i)) => Some(i),
        Some(Payload::Transaction(t)) => match &t.payload {
            Some(i) => Some(i),
            None => None,
        },
        _ => None,
    }
}

/// The ids waiting for each payload worker, in arrival order.
pub struct PayloadQueues {
    pub transaction: Vec<MessageId>,
    pub milestone: Vec<MessageId>,
    pub indexation: Vec<MessageId>,
}

impl PayloadQueues {
    pub fn new() -> (r: PayloadQueues)
        ensures
            r.transaction@.len() == 0,
            r.milestone@.len() == 0,
            r.indexation@.len() == 0,
    {
        PayloadQueues { transaction: Vec::new(), milestone: Vec::new(), indexation: Vec::new() }
    }

    /// Routes an inserted message to the worker of its payload kind: a
    /// transaction, milestone or indexation payload joins that worker's queue;
    /// any other payload, or none, joins no queue.
    pub fn dispatch(&mut self, message_id: MessageId, message: &Message)
        ensures
            final(self).transaction@ == (if message.payload matches Some(Payload::Transaction(_)) {
                old(self).transaction@.push(message_id)
            } else {
                old(self).transaction@
            }),
            final(self).milestone@ == (if message.payload matches Some(Payload::Milestone(_)) {
                old(self).milestone@.push(message_id)
            } else {
                old(self).milestone@
            }),
            final(self).indexation@ == (if message.payload matches Some(Payload::Indexation(_)) {
                old(self).indexation@.push(message_id)
            } else {
                old(self).indexation@
            }),
    {
        match &message.payload {
            Some(Payload::Transaction(_)) => self.transaction.push(message_id),
            Some(Payload::Milestone(_)) => self.milestone.push(message_id),
            Some(Payload::Indexation(_)) => self.indexation.push(message_id),
            _ => {},
        }
    }
}

/// The Blake2b-256 digest of `b`.
pub uninterp spec fn blake2b_256_of(b: Seq<u8>) -> Seq<u8>;

/// Relies on iota-crypto's `Blake2b256` through `Digest::digest`: the 32-byte
/// Blake2b digest of the bytes, which depends on them alone.
#[verifier::external_body]
fn blake2b_256(b: &[u8]) -> (r: [u8; 32])
    ensures
        r@ == blake2b_256_of(b@),
{
    <crypto::hashes::blake2b::Blake2b256 as crypto::hashes::Digest>::digest(b).into()
}

impl IndexationPayload {
    /// The hashed index under which the message is found: the Blake2b-256
    /// digest of the index.
    pub fn hash(&self) -> (r: [u8; 32])
        ensures
            r@ == blake2b_256_of(self.index@),
    {
        blake2b_256(self.index.as_slice())
    }
}

/// The index entries the indexation worker has recorded: a hashed index and
/// the message found under it.
pub struct IndexationIndex {
    pub entries: Vec<([u8; 32], MessageId)>,
}

impl IndexationIndex {
    pub fn new() -> (r: IndexationIndex)
        ensures
            r.entries@.len() == 0,
    {
        IndexationIndex { entries: Vec::new() }
    }

    /// Records `message_id` under the hashed index `hashed`.
    pub fn record(&mut self, hashed: [u8; 32], message_id: MessageId)
        ensures
            final(self).entries@ == old(self).entries@.push((hashed, message_id)),
    {
        self.entries.push((hashed, message_id));
    }

    /// Processes one message of the indexation worker: a message that carries
    /// an indexation, directly or inside its transaction, adds exactly one
    /// entry under the hash of its index; any other adds none.
    pub fn process(&mut self, message_id: MessageId, message: &Message)
        ensures
            match indexation_of(*message) {
                Some(i) => final(self).entries@ == old(self).entries@.push(
                    (final(self).entries@.last().0, message_id),
                ) && final(self).entries@.last().0@ == blake2b_256_of(i.index@),
                None => final(self).entries@ == old(self).entries@,
            },
    {
        match indexation(message) {
            Some(i) => {
                let hashed = i.hash();
                self.record(hashed, message_id);
            },
            None => {},
        }
    }
}

/// The packed form of an indexation payload: the index and the data, each
/// after its `u16` length.
pub open spec fn indexation_bytes(index: Seq<u8>, data: Seq<u8>) -> Seq<u8> {
    u16_bytes(index.len() as u16) + index + u16_bytes(data.len() as u16) + data
}

/// Reading a `u16`-length-prefixed byte string at `pos`.
pub open spec fn spec_parse_bytes16(s: Seq<u8>, pos: int) -> Parsed<Seq<u8>> {
    match spec_read_u16(s, pos) {
        Err(e) => Err(e),
        Ok((n, p)) => if p + n > s.len() {
            Err(CodecError::UnexpectedEof)
        } else {
            Ok((s.subrange(p, p + n), p + n))
        },
    }
}

/// Reading an indexation payload at `pos`: its index, then its data.
pub open spec fn spec_parse_indexation(s: Seq<u8>, pos: int) -> Parsed<(Seq<u8>, Seq<u8>)> {
    match spec_parse_bytes16(s, pos) {
        Err(e) => Err(e),
        Ok((index, p)) => match spec_parse_bytes16(s, p) {
            Err(e) => Err(e),
            Ok((data, q)) => Ok(((index, data), q)),
        },
    }
}

fn parse_bytes16(buf: &[u8], pos: usize) -> (r: Result<(Vec<u8>, usize), CodecError>)
    ensures
        match r {
            Ok((v, p)) => spec_parse_bytes16(buf@, pos as int) == Ok::<(Seq<u8>, int), CodecError>(
                (v@, p as int),
            ),
            Err(e) => spec_parse_bytes16(buf@, pos as int) == Err::<(Seq<u8>, int), CodecError>(e),
        },
{
    let (n, p) = read_u16(buf, pos)?;
    let n = n as usize;
    if buf.len() - p < n {
        return Err(CodecError::UnexpectedEof);
    }
    let mut out: Vec<u8> = Vec::new();
    let mut i: usize = 0;
    while i < n
        invariant
            p + n <= buf@.len(),
            buf@.len() <= usize::MAX,
            0 <= i <= n,
            out@ == buf@.subrange(p as int, p + i),
        decreases n - i,
    {
        out.push(buf[p + i]);
        i = i + 1;
        assert(out@ =~= buf@.subrange(p as int, p + i));
    }
    Ok((out, p + n))
}

fn write_bytes16(out: &mut Vec<u8>, b: &[u8])
    requires
        b@.len() <= u16::MAX,
    ensures
        final(out)@ == old(out)@ + u16_bytes(b@.len() as u16) + b@,
{
    write_u16(out, b.len() as u16);
    let ghost mid = out@;
    let mut i: usize = 0;
    while i < b.len()
        invariant
            0 <= i <= b@.len(),
            out@ == mid + b@.subrange(0, i as int),
        decreases b@.len() - i,
    {
        out.push(b[i]);
        i = i + 1;
        assert(out@ =~= mid + b@.subrange(0, i as int));
    }
    assert(b@.subrange(0, i as int) =~= b@);
}

impl IndexationPayload {
    /// Whether both lengths fit their `u16` prefixes.
    pub open spec fn wf(&self) -> bool {
        self.index@.len() <= u16::MAX && self.data@.len() <= u16::MAX
    }

    pub fn packed_len(&self) -> (r: usize)
        requires
            self.wf(),
        ensures
            r == indexation_bytes(self.index@, self.data@).len(),
    {
        2 + self.index.len() + 2 + self.data.len()
    }

    pub fn pack(&self) -> (r: Vec<u8>)
        requires
            self.wf(),
        ensures
            r@ == indexation_bytes(self.index@, self.data@),
    {
        let mut out: Vec<u8> = Vec::new();
        write_bytes16(&mut out, self.index.as_slice());
        write_bytes16(&mut out, self.data.as_slice());
        assert(out@ =~= indexation_bytes(self.index@, self.data@));
        out
    }

    pub fn unpack(bytes: &[u8]) -> (r: Result<IndexationPayload, CodecError>)
        ensures
            match r {
                Ok(i) => spec_finish(spec_parse_indexation(bytes@, 0), bytes@.len() as int) == Ok::<
                    (Seq<u8>, Seq<u8>),
                    CodecError,
                >((i.index@, i.data@)),
                Err(e) => spec_finish(spec_parse_indexation(bytes@, 0), bytes@.len() as int)
                    == Err::<(Seq<u8>, Seq<u8>), CodecError>(e),
            },
    {
        let (index, p) = parse_bytes16(bytes, 0)?;
        let (data, q) = parse_bytes16(bytes, p)?;
        if q != bytes.len() {
            return Err(CodecError::TrailingBytes);
        }
        Ok(IndexationPayload { index, data })
    }
}

proof fn lemma_bytes16_parse(b: Seq<u8>, s: Seq<u8>, pos: int)
    requires
        b.len() <= u16::MAX,
        0 <= pos,
        pos + 2 + b.len() <= s.len(),
        s.subrange(pos, pos + 2 + b.len()) == u16_bytes(b.len() as u16) + b,
    ensures
        spec_parse_bytes16(s, pos) == Ok::<(Seq<u8>, int), CodecError>((b, pos + 2 + b.len())),
{
    let w = u16_bytes(b.len() as u16) + b;
    lemma_subrange_of(s, pos, w, 0, 2);
    assert(w.subrange(0, 2) =~= u16_bytes(b.len() as u16));
    lemma_u16_round_trip(b.len() as u16);
    lemma_subrange_of(s, pos, w, 2, 2 + b.len() as int);
    assert(w.subrange(2, 2 + b.len() as int) =~= b);
}

/// Packing then unpacking an indexation payload gives it back; a strict prefix
/// of its bytes is truncated input; bytes after them are trailing bytes.
pub proof fn lemma_indexation_codec(index: Seq<u8>, data: Seq<u8>, cut: int, extra: Seq<u8>)
    requires
        index.len() <= u16::MAX,
        data.len() <= u16::MAX,
        0 <= cut < indexation_bytes(index, data).len(),
    ensures
        spec_finish(
            spec_parse_indexation(indexation_bytes(index, data), 0),
            indexation_bytes(index, data).len() as int,
        ) == Ok::<(Seq<u8>, Seq<u8>), CodecError>((index, data)),
        spec_finish(spec_parse_indexation(indexation_bytes(index, data).subrange(0, cut), 0), cut)
            == Err::<(Seq<u8>, Seq<u8>), CodecError>(CodecError::UnexpectedEof),
        extra.len() > 0 ==> spec_finish(
            spec_parse_indexation(indexation_bytes(index, data) + extra, 0),
            (indexation_bytes(index, data) + extra).len() as int,
        ) == Err::<(Seq<u8>, Seq<u8>), CodecError>(CodecError::TrailingBytes),
{
    let b = indexation_bytes(index, data);
    let a = u16_bytes(index.len() as u16) + index;
    let d = u16_bytes(data.len() as u16) + data;
    assert(b =~= a + d);
    let ni = index.len() as int;
    // Whole input, and input with more after it.
    assert forall|s: Seq<u8>| s.len() >= b.len() && s.subrange(0, b.len() as int) == b implies spec_parse_indexation(s, 0)
        == Ok::<((Seq<u8>, Seq<u8>), int), CodecError>(((index, data), b.len() as int)) by {
        lemma_subrange_of(s, 0, b, 0, 2 + ni);
        assert(b.subrange(0, 2 + ni) =~= a);
        lemma_bytes16_parse(index, s, 0);
        lemma_subrange_of(s, 0, b, 2 + ni, b.len() as int);
        assert(b.subrange(2 + ni, b.len() as int) =~= d);
        lemma_bytes16_parse(data, s, 2 + ni);
    }
    assert(b.subrange(0, b.len() as int) =~= b);
    let be = b + extra;
    assert(be.subrange(0, b.len() as int) =~= b);
    // A strict prefix.
    let t = b.subrange(0, cut);
    lemma_u16_round_trip(index.len() as u16);
    lemma_u16_round_trip(data.len() as u16);
    if cut >= 2 {
        assert(t.subrange(0, 2) =~= u16_bytes(index.len() as u16));
        if cut >= 2 + ni + 2 {
            assert(t.subrange(0, 2 + ni) =~= a);
            lemma_bytes16_parse(index, t, 0);
            assert(t.subrange(2 + ni, 4 + ni) =~= u16_bytes(data.len() as u16));
        }
    }
}

proof fn lemma_indexation_parse(index: Seq<u8>, data: Seq<u8>, s: Seq<u8>, pos: int)
    requires
        index.len() <= u16::MAX,
        data.len() <= u16::MAX,
        0 <= pos,
        pos + indexation_bytes(index, data).len() <= s.len(),
        s.subrange(pos, pos + indexation_bytes(index, data).len()) == indexation_bytes(index, data),
    ensures
        spec_parse_indexation(s, pos) == Ok::<((Seq<u8>, Seq<u8>), int), CodecError>(
            ((index, data), pos + indexation_bytes(index, data).len()),
        ),
{
    let b = indexation_bytes(index, data);
    let a = u16_bytes(index.len() as u16) + index;
    let d = u16_bytes(data.len() as u16) + data;
    assert(b =~= a + d);
    let ni = index.len() as int;
    lemma_subrange_of(s, pos, b, 0, 2 + ni);
    assert(b.subrange(0, 2 + ni) =~= a);
    lemma_bytes16_parse(index, s, pos);
    lemma_subrange_of(s, pos, b, 2 + ni, b.len() as int);
    assert(b.subrange(2 + ni, b.len() as int) =~= d);
    lemma_bytes16_parse(data, s, pos + 2 + ni);
}

/// A payload body that this library can pack, as plain values.
pub enum BodyView {
    Milestone(PayloadView),
    Indexation(Seq<u8>, Seq<u8>),
    /// A body kept as its bytes, with its type id.
    Stored(u32, Seq<u8>),
}

/// The packed form of a payload: its type id, then its body.
pub open spec fn tagged_bytes(b: BodyView) -> Seq<u8> {
    match b {
        BodyView::Milestone(m) => u32_bytes(1) + payload_bytes(m),
        BodyView::Indexation(i, d) => u32_bytes(2) + indexation_bytes(i, d),
        BodyView::Stored(t, b) => u32_bytes(t) + b,
    }
}

pub open spec fn body_wf(b: BodyView) -> bool {
    match b {
        BodyView::Milestone(m) => m.wf(),
        BodyView::Indexation(i, d) => i.len() <= u16::MAX && d.len() <= u16::MAX,
        BodyView::Stored(t, _) => t == 3 || t == 4,
    }
}

/// Reading a payload at `pos`: the type id selects the body. A receipt or a
/// treasury transaction keeps the rest of the bytes as its body; a transaction,
/// whose wire form this library does not model, and an unknown id are an
/// invalid tag.
pub open spec fn spec_parse_tagged(s: Seq<u8>, pos: int) -> Parsed<BodyView> {
    match spec_read_u32(s, pos) {
        Err(e) => Err(e),
        Ok((t, p)) => if t == 1 {
            match spec_parse_payload(s, p) {
                Err(e) => Err(e),
                Ok((m, q)) => Ok((BodyView::Milestone(m), q)),
            }
        } else if t == 2 {
            match spec_parse_indexation(s, p) {
                Err(e) => Err(e),
                Ok(((i, d), q)) => Ok((BodyView::Indexation(i, d), q)),
            }
        } else if t == 3 || t == 4 {
            Ok((BodyView::Stored(t, s.subrange(p, s.len() as int)), s.len() as int))
        } else {
            Err(CodecError::InvalidTag)
        },
    }
}

/// The body of a payload, where this library holds it.
pub open spec fn body_of(p: Payload) -> Option<BodyView> {
    match p {
        Payload::Milestone(m) => Some(BodyView::Milestone(m@)),
        Payload::Indexation(i) => Some(BodyView::Indexation(i.index@, i.data@)),
        Payload::Receipt(b) => Some(BodyView::Stored(3, b@)),
        Payload::TreasuryTransaction(b) => Some(BodyView::Stored(4, b@)),
        Payload::Transaction(_) => None,
    }
}

/// Appends `b`.
fn write_all(out: &mut Vec<u8>, b: &[u8])
    ensures
        final(out)@ == old(out)@ + b@,
{
    let mut i: usize = 0;
    while i < b.len()
        invariant
            0 <= i <= b@.len(),
            out@ == old(out)@ + b@.subrange(0, i as int),
        decreases b@.len() - i,
    {
        out.push(b[i]);
        i = i + 1;
        assert(out@ =~= old(out)@ + b@.subrange(0, i as int));
    }
    assert(b@.subrange(0, i as int) =~= b@);
}

/// The bytes of `buf` from `pos` on.
fn rest_of(buf: &[u8], pos: usize) -> (r: Vec<u8>)
    requires
        pos <= buf@.len(),
    ensures
        r@ == buf@.subrange(pos as int, buf@.len() as int),
{
    let mut out: Vec<u8> = Vec::new();
    let mut i: usize = pos;
    while i < buf.len()
        invariant
            pos <= i <= buf@.len(),
            out@ == buf@.subrange(pos as int, i as int),
        decreases buf@.len() - i,
    {
        out.push(buf[i]);
        i = i + 1;
        assert(out@ =~= buf@.subrange(pos as int, i as int));
    }
    out
}

impl Payload {
    /// Packs a payload of a kind whose body this library holds: type id, then body.
    pub fn pack(&self) -> (r: Vec<u8>)
        requires
            body_of(*self) matches Some(b) && body_wf(b),
        ensures
            r@ == tagged_bytes(body_of(*self)->Some_0),
    {
        let mut out: Vec<u8> = Vec::new();
        match self {
            Payload::Milestone(m) => {
                write_u32(&mut out, 1);
                let body = m.pack();
                let mut i: usize = 0;
                let ghost mid = out@;
                while i < body.len()
                    invariant
                        0 <= i <= body@.len(),
                        out@ == mid + body@.subrange(0, i as int),
                    decreases body@.len() - i,
                {
                    out.push(body[i]);
                    i = i + 1;
                    assert(out@ =~= mid + body@.subrange(0, i as int));
                }
                assert(body@.subrange(0, i as int) =~= body@);
            },
            Payload::Indexation(x) => {
                write_u32(&mut out, 2);
                write_bytes16(&mut out, x.index.as_slice());
                write_bytes16(&mut out, x.data.as_slice());
            },
            Payload::Receipt(b) => {
                write_u32(&mut out, 3);
                write_all(&mut out, b.as_slice());
            },
            Payload::TreasuryTransaction(b) => {
                write_u32(&mut out, 4);
                write_all(&mut out, b.as_slice());
            },
            Payload::Transaction(_) => {},
        }
        assert(out@ =~= tagged_bytes(body_of(*self)->Some_0));
        out
    }

    /// Unpacks a payload that fills `bytes`.
    pub fn unpack(bytes: &[u8]) -> (r: Result<Payload, CodecError>)
        ensures
            match r {
                Ok(p) => body_of(p) matches Some(b) && spec_finish(
                    spec_parse_tagged(bytes@, 0),
                    bytes@.len() as int,
                ) == Ok::<BodyView, CodecError>(b),
                Err(e) => spec_finish(spec_parse_tagged(bytes@, 0), bytes@.len() as int) == Err::<
                    BodyView,
                    CodecError,
                >(e),
            },
    {
        let (t, p) = read_u32(bytes, 0)?;
        if t == 1 {
            let (m, q) = MilestonePayload::parse(bytes, p)?;
            if q != bytes.len() {
                return Err(CodecError::TrailingBytes);
            }
            Ok(Payload::Milestone(m))
        } else if t == 2 {
            let (index, q1) = parse_bytes16(bytes, p)?;
            let (data, q) = parse_bytes16(bytes, q1)?;
            if q != bytes.len() {
                return Err(CodecError::TrailingBytes);
            }
            Ok(Payload::Indexation(IndexationPayload { index, data }))
        } else if t == 3 {
            Ok(Payload::Receipt(rest_of(bytes, p)))
        } else if t == 4 {
            Ok(Payload::TreasuryTransaction(rest_of(bytes, p)))
        } else {
            Err(CodecError::InvalidTag)
        }
    }
}

/// Packing then unpacking a payload gives its body back; after a milestone or
/// indexation body, whose length the body itself gives, trailing bytes fail
/// (a stored body takes every byte that follows its type id).
#[verifier::spinoff_prover]
#[verifier::rlimit(60)]
pub proof fn lemma_tagged_round_trip(b: BodyView, extra: Seq<u8>)
    requires
        body_wf(b),
    ensures
        spec_finish(spec_parse_tagged(tagged_bytes(b), 0), tagged_bytes(b).len() as int) == Ok::<
            BodyView,
            CodecError,
        >(b),
        extra.len() > 0 && !(b is Stored) ==> spec_finish(
            spec_parse_tagged(tagged_bytes(b) + extra, 0),
            (tagged_bytes(b) + extra).len() as int,
        ) == Err::<BodyView, CodecError>(CodecError::TrailingBytes),
{
    let t = tagged_bytes(b);
    let te = t + extra;
    assert(te.subrange(0, t.len() as int) =~= t);
    assert(t.subrange(0, t.len() as int) =~= t);
    match b {
        BodyView::Milestone(m) => {
            lemma_payload_len(m);
            lemma_u32_round_trip(1);
            assert(t.subrange(0, 4) =~= u32_bytes(1));
            assert(te.subrange(0, 4) =~= u32_bytes(1));
            assert(t.subrange(4, t.len() as int) =~= payload_bytes(m));
            lemma_subrange_of(te, 0, t, 4, t.len() as int);
            lemma_payload_parse(m, t, 4);
            lemma_payload_parse(m, te, 4);
        },
        BodyView::Indexation(i, d) => {
            lemma_u32_round_trip(2);
            assert(t.subrange(0, 4) =~= u32_bytes(2));
            assert(te.subrange(0, 4) =~= u32_bytes(2));
            assert(t.subrange(4, t.len() as int) =~= indexation_bytes(i, d));
            lemma_subrange_of(te, 0, t, 4, t.len() as int);
            lemma_indexation_parse(i, d, t, 4);
            lemma_indexation_parse(i, d, te, 4);
        },
        BodyView::Stored(k, body) => {
            lemma_u32_round_trip(k);
            assert(t.subrange(0, 4) =~= u32_bytes(k));
            assert(t.subrange(4, t.len() as int) =~= body);
        },
    }
}

/// The body of an optional payload, where this library holds it.
pub open spec fn payload_body(p: Option<Payload>) -> Option<BodyView> {
    match p {
        None => None,
        Some(x) => body_of(x),
    }
}

/// The packed form of an optional payload: its length as `u32` (zero for
/// none), then its bytes.
pub open spec fn optional_payload_bytes(b: Option<BodyView>) -> Seq<u8> {
    match b {
        None => u32_bytes(0),
        Some(x) => u32_bytes(tagged_bytes(x).len() as u32) + tagged_bytes(x),
    }
}

/// A message as plain values: network id, parents, payload body, nonce.
pub struct MessageView {
    pub network_id: u64,
    pub parent1: MessageId,
    pub parent2: MessageId,
    pub payload: Option<BodyView>,
    pub nonce: u64,
}

pub open spec fn message_wf(m: MessageView) -> bool {
    m.payload matches Some(b) ==> body_wf(b) && tagged_bytes(b).len() <= u32::MAX
}

/// The packed form of a message.
pub open spec fn message_bytes(m: MessageView) -> Seq<u8> {
    u64_bytes(m.network_id) + m.parent1.bytes@ + m.parent2.bytes@ + optional_payload_bytes(m.payload)
        + u64_bytes(m.nonce)
}

/// Reading an optional payload at `pos`: a zero length is none; otherwise the
/// payload must fill exactly the length given.
pub open spec fn spec_parse_optional_payload(s: Seq<u8>, pos: int) -> Parsed<Option<BodyView>> {
    match spec_read_u32(s, pos) {
        Err(e) => Err(e),
        Ok((n, p)) => if n == 0 {
            Ok((None, p))
        } else if p + n > s.len() {
            Err(CodecError::UnexpectedEof)
        } else {
            match spec_finish(spec_parse_tagged(s.subrange(p, p + n), 0), n as int) {
                Ok(b) => Ok((Some(b), p + n)),
                Err(CodecError::UnexpectedEof) => Err(CodecError::InvalidLength),
                Err(CodecError::TrailingBytes) => Err(CodecError::InvalidLength),
                Err(e) => Err(e),
            }
        },
    }
}

/// Reading a message at `pos`.
pub open spec fn spec_parse_message(s: Seq<u8>, pos: int) -> Parsed<MessageView> {
    match spec_read_u64(s, pos) {
        Err(e) => Err(e),
        Ok((network_id, at1)) => match spec_read_array32(s, at1) {
            Err(e) => Err(e),
            Ok((a, at2)) => match spec_read_array32(s, at2) {
                Err(e) => Err(e),
                Ok((b, at3)) => match spec_parse_optional_payload(s, at3) {
                    Err(e) => Err(e),
                    Ok((payload, at4)) => match spec_read_u64(s, at4) {
                        Err(e) => Err(e),
                        Ok((nonce, at5)) => Ok(
                            (
                                MessageView {
                                    network_id,
                                    parent1: MessageId { bytes: a },
                                    parent2: MessageId { bytes: b },
                                    payload,
                                    nonce,
                                },
                                at5,
                            ),
                        ),
                    },
                },
            },
        },
    }
}

impl Message {
    pub open spec fn view_parts(&self) -> MessageView {
        MessageView {
            network_id: self.network_id,
            parent1: self.parent1,
            parent2: self.parent2,
            payload: payload_body(self.payload),
            nonce: self.nonce,
        }
    }

    /// Packs a message whose payload, if any, is a milestone or indexation.
    pub fn pack(&self) -> (r: Vec<u8>)
        requires
            self.payload matches Some(p) ==> body_of(p) is Some,
            message_wf(self.view_parts()),
        ensures
            r@ == message_bytes(self.view_parts()),
    {
        let mut out: Vec<u8> = Vec::new();
        write_u64(&mut out, self.network_id);
        write_array32(&mut out, &self.parent1.bytes);
        write_array32(&mut out, &self.parent2.bytes);
        let ghost mid = out@;
        match &self.payload {
            None => write_u32(&mut out, 0),
            Some(p) => {
                let body = p.pack();
                write_u32(&mut out, body.len() as u32);
                let ghost before = out@;
                let mut i: usize = 0;
                while i < body.len()
                    invariant
                        0 <= i <= body@.len(),
                        out@ == before + body@.subrange(0, i as int),
                    decreases body@.len() - i,
                {
                    out.push(body[i]);
                    i = i + 1;
                    assert(out@ =~= before + body@.subrange(0, i as int));
                }
                assert(body@.subrange(0, i as int) =~= body@);
            },
        }
        assert(out@ =~= mid + optional_payload_bytes(self.view_parts().payload));
        write_u64(&mut out, self.nonce);
        assert(out@ =~= message_bytes(self.view_parts()));
        out
    }

    /// Unpacks a message that fills `bytes`.
    pub fn unpack(bytes: &[u8]) -> (r: Result<Message, CodecError>)
        ensures
            match r {
                Ok(m) => spec_finish(spec_parse_message(bytes@, 0), bytes@.len() as int) == Ok::<
                    MessageView,
                    CodecError,
                >(m.view_parts()) && (m.payload matches Some(p) ==> body_of(p) is Some),
                Err(e) => spec_finish(spec_parse_message(bytes@, 0), bytes@.len() as int) == Err::<
                    MessageView,
                    CodecError,
                >(e),
            },
    {
        let (network_id, at1) = read_u64(bytes, 0)?;
        let (a, at2) = read_array32(bytes, at1)?;
        let (b, at3) = read_array32(bytes, at2)?;
        let (n, at4) = read_u32(bytes, at3)?;
        let n = n as usize;
        let payload = if n == 0 {
            None
        } else {
            if bytes.len() - at4 < n {
                return Err(CodecError::UnexpectedEof);
            }
            let mut window: Vec<u8> = Vec::new();
            let mut i: usize = 0;
            while i < n
                invariant
                    at4 + n <= bytes@.len(),
                    bytes@.len() <= usize::MAX,
                    0 <= i <= n,
                    window@ == bytes@.subrange(at4 as int, at4 + i),
                decreases n - i,
            {
                window.push(bytes[at4 + i]);
                i = i + 1;
                assert(window@ =~= bytes@.subrange(at4 as int, at4 + i));
            }
            match Payload::unpack(window.as_slice()) {
                Ok(p) => Some(p),
                Err(CodecError::UnexpectedEof) => return Err(CodecError::InvalidLength),
                Err(CodecError::TrailingBytes) => return Err(CodecError::InvalidLength),
                Err(e) => return Err(e),
            }
        };
        let at5 = if n == 0 { at4 } else { at4 + n };
        let (nonce, at6) = read_u64(bytes, at5)?;
        if at6 != bytes.len() {
            return Err(CodecError::TrailingBytes);
        }
        Ok(
            Message {
                network_id,
                parent1: MessageId { bytes: a },
                parent2: MessageId { bytes: b },
                payload,
                nonce,
            },
        )
    }
}

proof fn lemma_tagged_len(b: BodyView)
    ensures
        tagged_bytes(b).len() >= 4,
{
}

/// Where each field of a packed message stands.
proof fn lemma_message_layout(m: MessageView)
    ensures
        ({
            let w = message_bytes(m);
            let n: int = match m.payload {
                None => 0,
                Some(b) => tagged_bytes(b).len() as int,
            };
            &&& w.len() == 84 + n
            &&& w.subrange(0, 8) == u64_bytes(m.network_id)
            &&& w.subrange(8, 40) == m.parent1.bytes@
            &&& w.subrange(40, 72) == m.parent2.bytes@
            &&& w.subrange(72, 76) == u32_bytes(n as u32)
            &&& w.subrange(76 + n, 84 + n) == u64_bytes(m.nonce)
            &&& m.payload matches Some(b) ==> w.subrange(76, 76 + n) == tagged_bytes(b)
        }),
{
    let w = message_bytes(m);
    let n: int = match m.payload {
        None => 0,
        Some(b) => tagged_bytes(b).len() as int,
    };
    assert(optional_payload_bytes(m.payload).len() == 4 + n);
    assert(w.subrange(0, 8) =~= u64_bytes(m.network_id));
    assert(w.subrange(8, 40) =~= m.parent1.bytes@);
    assert(w.subrange(40, 72) =~= m.parent2.bytes@);
    assert(w.subrange(72, 76) =~= u32_bytes(n as u32));
    assert(w.subrange(76 + n, 84 + n) =~= u64_bytes(m.nonce));
    if let Some(b) = m.payload {
        assert(w.subrange(76, 76 + n) =~= tagged_bytes(b));
    }
}

/// A well-formed message parses back from its packed bytes, wherever they stand.
#[verifier::spinoff_prover]
#[verifier::rlimit(60)]
pub proof fn lemma_message_parse(m: MessageView, s: Seq<u8>, pos: int)
    requires
        message_wf(m),
        0 <= pos,
        pos + message_bytes(m).len() <= s.len(),
        s.subrange(pos, pos + message_bytes(m).len()) == message_bytes(m),
    ensures
        spec_parse_message(s, pos) == Ok::<(MessageView, int), CodecError>(
            (m, pos + message_bytes(m).len()),
        ),
{
    let w = message_bytes(m);
    let n: int = match m.payload {
        None => 0,
        Some(b) => tagged_bytes(b).len() as int,
    };
    lemma_message_layout(m);
    lemma_subrange_of(s, pos, w, 0, 8);
    lemma_u64_round_trip(m.network_id);
    lemma_subrange_of(s, pos, w, 8, 40);
    lemma_array32_of(m.parent1.bytes);
    lemma_subrange_of(s, pos, w, 40, 72);
    lemma_array32_of(m.parent2.bytes);
    lemma_subrange_of(s, pos, w, 72, 76);
    lemma_u32_round_trip(n as u32);
    lemma_subrange_of(s, pos, w, 76 + n, 84 + n);
    lemma_u64_round_trip(m.nonce);
    match m.payload {
        None => {},
        Some(b) => {
            lemma_tagged_len(b);
            lemma_subrange_of(s, pos, w, 76, 76 + n);
            lemma_tagged_round_trip(b, Seq::empty());
        },
    }
}

/// A strict prefix of a packed message is truncated input.
#[verifier::spinoff_prover]
#[verifier::rlimit(60)]
pub proof fn lemma_message_truncated(m: MessageView, cut: int)
    requires
        message_wf(m),
        0 <= cut < message_bytes(m).len(),
    ensures
        spec_finish(spec_parse_message(message_bytes(m).subrange(0, cut), 0), cut) == Err::<
            MessageView,
            CodecError,
        >(CodecError::UnexpectedEof),
{
    let w = message_bytes(m);
    let t = w.subrange(0, cut);
    let n: int = match m.payload {
        None => 0,
        Some(b) => tagged_bytes(b).len() as int,
    };
    lemma_message_layout(m);
    assert(t.len() == cut);
    if cut < 8 {
        assert(spec_read_u64(t, 0) is Err);
    } else if cut < 40 {
        assert(spec_read_array32(t, 8) is Err);
    } else if cut < 72 {
        assert(spec_read_array32(t, 40) is Err);
    } else if cut < 76 {
        assert(spec_read_u32(t, 72) is Err);
    } else {
        lemma_subrange_of(w, 0, t, 72, 76);
        lemma_u32_round_trip(n as u32);
        assert(spec_read_u32(t, 72) == Ok::<(u32, int), CodecError>((n as u32, 76)));
        lemma_message_truncated_payload(m, cut);
    }
}

proof fn lemma_message_truncated_payload(m: MessageView, cut: int)
    requires
        message_wf(m),
        76 <= cut < message_bytes(m).len(),
        ({
            let n: int = match m.payload {
                None => 0,
                Some(b) => tagged_bytes(b).len() as int,
            };
            spec_read_u32(message_bytes(m).subrange(0, cut), 72) == Ok::<(u32, int), CodecError>(
                (n as u32, 76),
            )
        }),
    ensures
        spec_finish(spec_parse_message(message_bytes(m).subrange(0, cut), 0), cut) == Err::<
            MessageView,
            CodecError,
        >(CodecError::UnexpectedEof),
{
    let w = message_bytes(m);
    let t = w.subrange(0, cut);
    lemma_message_layout(m);
    match m.payload {
        None => {
            assert(spec_read_u64(t, 76) is Err);
        },
        Some(b) => {
            let n = tagged_bytes(b).len() as int;
            lemma_tagged_len(b);
            if cut < 76 + n {
                assert(spec_parse_optional_payload(t, 72) is Err);
            } else {
                lemma_subrange_of(w, 0, t, 76, 76 + n);
                lemma_tagged_round_trip(b, Seq::empty());
                assert(spec_read_u64(t, 76 + n) is Err);
            }
        },
    }
}

/// Packing then unpacking a well-formed message gives it back, and bytes
/// after its packed form are trailing bytes.
pub proof fn lemma_message_round_trip(m: MessageView, extra: Seq<u8>)
    requires
        message_wf(m),
    ensures
        spec_finish(spec_parse_message(message_bytes(m), 0), message_bytes(m).len() as int) == Ok::<
            MessageView,
            CodecError,
        >(m),
        extra.len() > 0 ==> spec_finish(
            spec_parse_message(message_bytes(m) + extra, 0),
            (message_bytes(m) + extra).len() as int,
        ) == Err::<MessageView, CodecError>(CodecError::TrailingBytes),
{
    let w = message_bytes(m);
    assert(w.subrange(0, w.len() as int) =~= w);
    lemma_message_parse(m, w, 0);
    let we = w + extra;
    assert(we.subrange(0, w.len() as int) =~= w);
    lemma_message_parse(m, we, 0);
}

} // verus!
