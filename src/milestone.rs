//! Milestone payloads: their essence, packed form and signature validation.

use vstd::prelude::*;

use crate::codec::{
    array32_of, array64_of, lemma_array32_of, lemma_array64_of, lemma_u32_round_trip,
    lemma_u64_round_trip, lemma_subrange_of, read_array32, read_array64, read_u32, read_u64, read_u8,
    spec_finish, u32_bytes, u32_from, u64_bytes, u64_from, write_array32, write_array64, write_u32,
    write_u64, write_u8, CodecError, Parsed,
};
use crate::ids::MessageId;
use crate::text::{encode_hex, hex_of};

verus! {

pub const MILESTONE_MERKLE_PROOF_LENGTH: usize = 32;

pub const MILESTONE_PUBLIC_KEY_LENGTH: usize = 32;

pub const MILESTONE_SIGNATURE_LENGTH: usize = 64;

/// Length of the fixed part of a packed essence, up to and with the key count.
pub const ESSENCE_FIXED_LENGTH: usize = 109;

/// Most keys or signatures a payload can carry: their count is packed in a byte.
pub const MAX_MILESTONE_KEYS: usize = 255;

/// The bytes of a sequence of 32-byte arrays, one after the other.
pub open spec fn flat32(ks: Seq<[u8; 32]>) -> Seq<u8>
    decreases ks.len(),
{
    if ks.len() == 0 {
        Seq::empty()
    } else {
        flat32(ks.drop_last()) + ks.last()@
    }
}

/// The bytes of a sequence of 64-byte arrays, one after the other.
pub open spec fn flat64(ks: Seq<[u8; 64]>) -> Seq<u8>
    decreases ks.len(),
{
    if ks.len() == 0 {
        Seq::empty()
    } else {
        flat64(ks.drop_last()) + ks.last()@
    }
}

pub proof fn lemma_flat32(ks: Seq<[u8; 32]>)
    ensures
        flat32(ks).len() == 32 * ks.len(),
        forall|i: int|
            0 <= i < ks.len() ==> #[trigger] flat32(ks).subrange(32 * i, 32 * i + 32) == ks[i]@,
    decreases ks.len(),
{
    if ks.len() > 0 {
        let init = ks.drop_last();
        lemma_flat32(init);
        let f = flat32(ks);
        assert forall|i: int| 0 <= i < ks.len() implies #[trigger] f.subrange(32 * i, 32 * i + 32)
            == ks[i]@ by {
            if i < init.len() {
                assert(f.subrange(32 * i, 32 * i + 32) =~= flat32(init).subrange(32 * i, 32 * i + 32));
            } else {
                assert(f.subrange(32 * i, 32 * i + 32) =~= ks.last()@);
            }
        }
    }
}

pub proof fn lemma_flat64(ks: Seq<[u8; 64]>)
    ensures
        flat64(ks).len() == 64 * ks.len(),
        forall|i: int|
            0 <= i < ks.len() ==> #[trigger] flat64(ks).subrange(64 * i, 64 * i + 64) == ks[i]@,
    decreases ks.len(),
{
    if ks.len() > 0 {
        let init = ks.drop_last();
        lemma_flat64(init);
        let f = flat64(ks);
        assert forall|i: int| 0 <= i < ks.len() implies #[trigger] f.subrange(64 * i, 64 * i + 64)
            == ks[i]@ by {
            if i < init.len() {
                assert(f.subrange(64 * i, 64 * i + 64) =~= flat64(init).subrange(64 * i, 64 * i + 64));
            } else {
                assert(f.subrange(64 * i, 64 * i + 64) =~= ks.last()@);
            }
        }
    }
}

/// The `n` arrays of 32 bytes that stand one after the other from `start`.
pub open spec fn arrays32_at(s: Seq<u8>, start: int, n: nat) -> Seq<[u8; 32]> {
    Seq::new(n, |i: int| array32_of(s.subrange(start + 32 * i, start + 32 * i + 32)))
}

/// The `n` arrays of 64 bytes that stand one after the other from `start`.
pub open spec fn arrays64_at(s: Seq<u8>, start: int, n: nat) -> Seq<[u8; 64]> {
    Seq::new(n, |i: int| array64_of(s.subrange(start + 64 * i, start + 64 * i + 64)))
}

proof fn lemma_arrays32_at(ks: Seq<[u8; 32]>, s: Seq<u8>, start: int)
    requires
        0 <= start,
        start + 32 * ks.len() <= s.len(),
        s.subrange(start, start + 32 * ks.len()) == flat32(ks),
    ensures
        arrays32_at(s, start, ks.len()) == ks,
{
    lemma_flat32(ks);
    let f = flat32(ks);
    assert forall|i: int| 0 <= i < ks.len() implies #[trigger] arrays32_at(s, start, ks.len())[i]
        == ks[i] by {
        assert(s.subrange(start + 32 * i, start + 32 * i + 32) =~= f.subrange(32 * i, 32 * i + 32));
        lemma_array32_of(ks[i]);
    }
    assert(arrays32_at(s, start, ks.len()) =~= ks);
}

proof fn lemma_arrays64_at(ks: Seq<[u8; 64]>, s: Seq<u8>, start: int)
    requires
        0 <= start,
        start + 64 * ks.len() <= s.len(),
        s.subrange(start, start + 64 * ks.len()) == flat64(ks),
    ensures
        arrays64_at(s, start, ks.len()) == ks,
{
    lemma_flat64(ks);
    let f = flat64(ks);
    assert forall|i: int| 0 <= i < ks.len() implies #[trigger] arrays64_at(s, start, ks.len())[i]
        == ks[i] by {
        assert(s.subrange(start + 64 * i, start + 64 * i + 64) =~= f.subrange(64 * i, 64 * i + 64));
        lemma_array64_of(ks[i]);
    }
    assert(arrays64_at(s, start, ks.len()) =~= ks);
}

/// What a milestone essence holds, as plain values.
pub struct EssenceView {
    pub index: u32,
    pub timestamp: u64,
    pub parent1: MessageId,
    pub parent2: MessageId,
    pub merkle_proof: [u8; 32],
    pub public_keys: Seq<[u8; 32]>,
}

impl EssenceView {
    pub open spec fn wf(self) -> bool {
        self.public_keys.len() <= MAX_MILESTONE_KEYS
    }
}

/// What a milestone payload holds, as plain values.
pub struct PayloadView {
    pub essence: EssenceView,
    pub signatures: Seq<[u8; 64]>,
}

impl PayloadView {
    pub open spec fn wf(self) -> bool {
        self.essence.wf() && self.signatures.len() <= MAX_MILESTONE_KEYS
    }
}

/// The packed form of an essence.
pub open spec fn essence_bytes(e: EssenceView) -> Seq<u8> {
    u32_bytes(e.index) + u64_bytes(e.timestamp) + e.parent1.bytes@ + e.parent2.bytes@
        + e.merkle_proof@ + seq![e.public_keys.len() as u8] + flat32(e.public_keys)
}

/// The packed form of a payload: its essence, the signature count, the signatures.
pub open spec fn payload_bytes(p: PayloadView) -> Seq<u8> {
    essence_bytes(p.essence) + seq![p.signatures.len() as u8] + flat64(p.signatures)
}

/// Reading an essence at `pos`.
pub open spec fn spec_parse_essence(s: Seq<u8>, pos: int) -> Parsed<EssenceView> {
    if !(0 <= pos && pos + 109 <= s.len()) {
        Err(CodecError::UnexpectedEof)
    } else {
        let n = s[pos + 108] as int;
        if pos + 109 + 32 * n > s.len() {
            Err(CodecError::UnexpectedEof)
        } else {
            Ok(
                (
                    EssenceView {
                        index: u32_from(s.subrange(pos, pos + 4)),
                        timestamp: u64_from(s.subrange(pos + 4, pos + 12)),
                        parent1: MessageId { bytes: array32_of(s.subrange(pos + 12, pos + 44)) },
                        parent2: MessageId { bytes: array32_of(s.subrange(pos + 44, pos + 76)) },
                        merkle_proof: array32_of(s.subrange(pos + 76, pos + 108)),
                        public_keys: arrays32_at(s, pos + 109, n as nat),
                    },
                    pos + 109 + 32 * n,
                ),
            )
        }
    }
}

/// Reading a payload at `pos`.
pub open spec fn spec_parse_payload(s: Seq<u8>, pos: int) -> Parsed<PayloadView> {
    match spec_parse_essence(s, pos) {
        Err(e) => Err(e),
        Ok((e, p)) => if p + 1 > s.len() {
            Err(CodecError::UnexpectedEof)
        } else {
            let n = s[p] as int;
            if p + 1 + 64 * n > s.len() {
                Err(CodecError::UnexpectedEof)
            } else {
                Ok(
                    (
                        PayloadView { essence: e, signatures: arrays64_at(s, p + 1, n as nat) },
                        p + 1 + 64 * n,
                    ),
                )
            }
        },
    }
}

pub proof fn lemma_essence_len(e: EssenceView)
    ensures
        essence_bytes(e).len() == 109 + 32 * e.public_keys.len(),
{
    lemma_flat32(e.public_keys);
}

pub proof fn lemma_payload_len(p: PayloadView)
    ensures
        payload_bytes(p).len() == 109 + 32 * p.essence.public_keys.len() + 1 + 64
            * p.signatures.len(),
{
    lemma_essence_len(p.essence);
    lemma_flat64(p.signatures);
}

/// A well-formed essence parses back from its packed bytes, wherever they stand.
pub proof fn lemma_essence_parse(e: EssenceView, s: Seq<u8>, pos: int)
    requires
        e.wf(),
        0 <= pos,
        pos + essence_bytes(e).len() <= s.len(),
        s.subrange(pos, pos + essence_bytes(e).len()) == essence_bytes(e),
    ensures
        spec_parse_essence(s, pos) == Ok::<(EssenceView, int), CodecError>(
            (e, pos + essence_bytes(e).len()),
        ),
{
    let b = essence_bytes(e);
    lemma_essence_len(e);
    let n = e.public_keys.len() as int;
    assert(b[108] == n as u8);
    assert(s.subrange(pos, pos + b.len())[108] == s[pos + 108]);
    lemma_subrange_of(s, pos, b, 0, 4);
    assert(b.subrange(0, 4) =~= u32_bytes(e.index));
    lemma_u32_round_trip(e.index);
    lemma_subrange_of(s, pos, b, 4, 12);
    assert(b.subrange(4, 12) =~= u64_bytes(e.timestamp));
    lemma_u64_round_trip(e.timestamp);
    lemma_subrange_of(s, pos, b, 12, 44);
    assert(b.subrange(12, 44) =~= e.parent1.bytes@);
    lemma_array32_of(e.parent1.bytes);
    lemma_subrange_of(s, pos, b, 44, 76);
    assert(b.subrange(44, 76) =~= e.parent2.bytes@);
    lemma_array32_of(e.parent2.bytes);
    lemma_subrange_of(s, pos, b, 76, 108);
    assert(b.subrange(76, 108) =~= e.merkle_proof@);
    lemma_array32_of(e.merkle_proof);
    lemma_subrange_of(s, pos, b, 109, 109 + 32 * n);
    assert(b.subrange(109, 109 + 32 * n) =~= flat32(e.public_keys));
    lemma_arrays32_at(e.public_keys, s, pos + 109);
    let parsed = spec_parse_essence(s, pos);
    assert(parsed matches Ok((v, _)) && v == e);
}

/// A well-formed payload parses back from its packed bytes, wherever they stand.
pub proof fn lemma_payload_parse(p: PayloadView, s: Seq<u8>, pos: int)
    requires
        p.wf(),
        0 <= pos,
        pos + payload_bytes(p).len() <= s.len(),
        s.subrange(pos, pos + payload_bytes(p).len()) == payload_bytes(p),
    ensures
        spec_parse_payload(s, pos) == Ok::<(PayloadView, int), CodecError>(
            (p, pos + payload_bytes(p).len()),
        ),
{
    let b = payload_bytes(p);
    lemma_payload_len(p);
    lemma_essence_len(p.essence);
    let el = essence_bytes(p.essence).len() as int;
    lemma_subrange_of(s, pos, b, 0, el);
    assert(b.subrange(0, el) =~= essence_bytes(p.essence));
    lemma_essence_parse(p.essence, s, pos);
    let n = p.signatures.len() as int;
    assert(b[el] == n as u8);
    assert(s.subrange(pos, pos + b.len())[el] == s[pos + el]);
    lemma_subrange_of(s, pos, b, el + 1, el + 1 + 64 * n);
    assert(b.subrange(el + 1, el + 1 + 64 * n) =~= flat64(p.signatures));
    lemma_arrays64_at(p.signatures, s, pos + el + 1);
}

/// A strict prefix of a packed essence is truncated input.
pub proof fn lemma_essence_truncated(e: EssenceView, s: Seq<u8>, pos: int)
    requires
        e.wf(),
        0 <= pos <= s.len(),
        s.len() < pos + essence_bytes(e).len(),
        s.subrange(pos, s.len() as int) == essence_bytes(e).subrange(0, s.len() - pos),
    ensures
        spec_parse_essence(s, pos) == Err::<(EssenceView, int), CodecError>(CodecError::UnexpectedEof),
{
    lemma_essence_len(e);
    let b = essence_bytes(e);
    if pos + 109 <= s.len() {
        assert(s[pos + 108] == s.subrange(pos, s.len() as int)[108]);
        assert(b[108] == e.public_keys.len() as u8);
    }
}

/// A strict prefix of a packed payload is truncated input.
pub proof fn lemma_payload_truncated(p: PayloadView, s: Seq<u8>, pos: int)
    requires
        p.wf(),
        0 <= pos <= s.len(),
        s.len() < pos + payload_bytes(p).len(),
        s.subrange(pos, s.len() as int) == payload_bytes(p).subrange(0, s.len() - pos),
    ensures
        spec_parse_payload(s, pos) == Err::<(PayloadView, int), CodecError>(CodecError::UnexpectedEof),
{
    lemma_payload_len(p);
    lemma_essence_len(p.essence);
    let b = payload_bytes(p);
    let el = essence_bytes(p.essence).len() as int;
    if s.len() < pos + el {
        assert(s.subrange(pos, s.len() as int) =~= essence_bytes(p.essence).subrange(0, s.len() - pos));
        lemma_essence_truncated(p.essence, s, pos);
    } else {
        assert(s.subrange(pos, pos + el) =~= b.subrange(0, el));
        assert(b.subrange(0, el) =~= essence_bytes(p.essence));
        lemma_essence_parse(p.essence, s, pos);
        if pos + el + 1 <= s.len() {
            assert(s[pos + el] == s.subrange(pos, s.len() as int)[el]);
            assert(b[el] == p.signatures.len() as u8);
        }
    }
}

/// Packing then unpacking a well-formed payload gives it back; the packed
/// length is the one `packed_len` reports; a strict prefix of the bytes fails
/// as truncated input, and bytes after them fail as trailing bytes.
pub proof fn lemma_payload_codec(p: PayloadView, extra: Seq<u8>, cut: int)
    requires
        p.wf(),
        0 <= cut < payload_bytes(p).len(),
    ensures
        spec_finish(spec_parse_payload(payload_bytes(p), 0), payload_bytes(p).len() as int)
            == Ok::<PayloadView, CodecError>(p),
        payload_bytes(p).len() == ESSENCE_FIXED_LENGTH + 32 * p.essence.public_keys.len() + 1 + 64
            * p.signatures.len(),
        spec_finish(spec_parse_payload(payload_bytes(p).subrange(0, cut), 0), cut)
            == Err::<PayloadView, CodecError>(CodecError::UnexpectedEof),
        extra.len() > 0 ==> spec_finish(
            spec_parse_payload(payload_bytes(p) + extra, 0),
            (payload_bytes(p) + extra).len() as int,
        ) == Err::<PayloadView, CodecError>(CodecError::TrailingBytes),
{
    let b = payload_bytes(p);
    lemma_payload_len(p);
    assert(b.subrange(0, b.len() as int) =~= b);
    lemma_payload_parse(p, b, 0);
    let t = b.subrange(0, cut);
    assert(t.subrange(0, cut) =~= b.subrange(0, cut));
    lemma_payload_truncated(p, t, 0);
    let be = b + extra;
    assert(be.subrange(0, b.len() as int) =~= b);
    lemma_payload_parse(p, be, 0);
}

/// Packing then unpacking a well-formed essence gives it back; a strict
/// prefix of the bytes fails as truncated input, and bytes after them fail as
/// trailing bytes.
pub proof fn lemma_essence_codec(e: EssenceView, cut: int, extra: Seq<u8>)
    requires
        e.wf(),
        0 <= cut < essence_bytes(e).len(),
    ensures
        extra.len() > 0 ==> spec_finish(
            spec_parse_essence(essence_bytes(e) + extra, 0),
            (essence_bytes(e) + extra).len() as int,
        ) == Err::<EssenceView, CodecError>(CodecError::TrailingBytes),
        spec_finish(spec_parse_essence(essence_bytes(e), 0), essence_bytes(e).len() as int)
            == Ok::<EssenceView, CodecError>(e),
        essence_bytes(e).len() == ESSENCE_FIXED_LENGTH + 32 * e.public_keys.len(),
        spec_finish(spec_parse_essence(essence_bytes(e).subrange(0, cut), 0), cut)
            == Err::<EssenceView, CodecError>(CodecError::UnexpectedEof),
{
    let b = essence_bytes(e);
    lemma_essence_len(e);
    assert(b.subrange(0, b.len() as int) =~= b);
    lemma_essence_parse(e, b, 0);
    let t = b.subrange(0, cut);
    assert(t.subrange(0, cut) =~= b.subrange(0, cut));
    lemma_essence_truncated(e, t, 0);
    let be = b + extra;
    assert(be.subrange(0, b.len() as int) =~= b);
    lemma_essence_parse(e, be, 0);
}

} // verus!

verus! {

/// The signed part of a milestone.
#[derive(Clone, Debug)]
pub struct MilestonePayloadEssence {
    index: u32,
    timestamp: u64,
    parent1: MessageId,
    parent2: MessageId,
    merkle_proof: [u8; 32],
    public_keys: Vec<[u8; 32]>,
}

impl View for MilestonePayloadEssence {
    type V = EssenceView;

    closed spec fn view(&self) -> EssenceView {
        EssenceView {
            index: self.index,
            timestamp: self.timestamp,
            parent1: self.parent1,
            parent2: self.parent2,
            merkle_proof: self.merkle_proof,
            public_keys: self.public_keys@,
        }
    }
}

impl MilestonePayloadEssence {
    pub fn new(
        index: u32,
        timestamp: u64,
        parent1: MessageId,
        parent2: MessageId,
        merkle_proof: [u8; 32],
        public_keys: Vec<[u8; 32]>,
    ) -> (r: MilestonePayloadEssence)
        ensures
            r@ == (EssenceView {
                index,
                timestamp,
                parent1,
                parent2,
                merkle_proof,
                public_keys: public_keys@,
            }),
    {
        MilestonePayloadEssence { index, timestamp, parent1, parent2, merkle_proof, public_keys }
    }

    pub fn index(&self) -> (r: u32)
        ensures
            r == self@.index,
    {
        self.index
    }

    pub fn timestamp(&self) -> (r: u64)
        ensures
            r == self@.timestamp,
    {
        self.timestamp
    }

    pub fn parent1(&self) -> (r: &MessageId)
        ensures
            *r == self@.parent1,
    {
        &self.parent1
    }

    pub fn parent2(&self) -> (r: &MessageId)
        ensures
            *r == self@.parent2,
    {
        &self.parent2
    }

    pub fn merkle_proof(&self) -> (r: &[u8])
        ensures
            r@ == self@.merkle_proof@,
    {
        self.merkle_proof.as_slice()
    }

    pub fn public_keys(&self) -> (r: &Vec<[u8; 32]>)
        ensures
            r@ == self@.public_keys,
    {
        &self.public_keys
    }

    pub fn packed_len(&self) -> (r: usize)
        requires
            self@.wf(),
        ensures
            r == essence_bytes(self@).len(),
    {
        proof {
            lemma_essence_len(self@);
        }
        ESSENCE_FIXED_LENGTH + self.public_keys.len() * MILESTONE_PUBLIC_KEY_LENGTH
    }

    pub fn pack_into(&self, out: &mut Vec<u8>)
        requires
            self@.wf(),
        ensures
            final(out)@ == old(out)@ + essence_bytes(self@),
    {
        write_u32(out, self.index);
        write_u64(out, self.timestamp);
        write_array32(out, &self.parent1.bytes);
        write_array32(out, &self.parent2.bytes);
        write_array32(out, &self.merkle_proof);
        write_u8(out, self.public_keys.len() as u8);
        let ghost before = out@;
        let mut i: usize = 0;
        while i < self.public_keys.len()
            invariant
                0 <= i <= self.public_keys@.len(),
                out@ == before + flat32(self.public_keys@.take(i as int)),
            decreases self.public_keys@.len() - i,
        {
            write_array32(out, &self.public_keys[i]);
            proof {
                let ks = self.public_keys@.take(i + 1);
                assert(ks.drop_last() =~= self.public_keys@.take(i as int));
            }
            i = i + 1;
        }
        assert(self.public_keys@.take(i as int) =~= self.public_keys@);
        assert(final(out)@ =~= old(out)@ + essence_bytes(self@));
    }

    pub fn pack(&self) -> (r: Vec<u8>)
        requires
            self@.wf(),
        ensures
            r@ == essence_bytes(self@),
    {
        let mut out: Vec<u8> = Vec::new();
        self.pack_into(&mut out);
        assert(out@ =~= essence_bytes(self@));
        out
    }

    pub fn parse(buf: &[u8], pos: usize) -> (r: Result<(MilestonePayloadEssence, usize), CodecError>)
        ensures
            match r {
                Ok((e, p)) => spec_parse_essence(buf@, pos as int) == Ok::<
                    (EssenceView, int),
                    CodecError,
                >((e@, p as int)),
                Err(x) => spec_parse_essence(buf@, pos as int) == Err::<
                    (EssenceView, int),
                    CodecError,
                >(x),
            },
    {
        if pos > buf.len() || buf.len() - pos < ESSENCE_FIXED_LENGTH {
            return Err(CodecError::UnexpectedEof);
        }
        let (index, p) = read_u32(buf, pos)?;
        let (timestamp, p) = read_u64(buf, p)?;
        let (parent1, p) = read_array32(buf, p)?;
        let (parent2, p) = read_array32(buf, p)?;
        let (merkle_proof, p) = read_array32(buf, p)?;
        let (n, p) = read_u8(buf, p)?;
        let n = n as usize;
        if buf.len() - p < MILESTONE_PUBLIC_KEY_LENGTH * n {
            return Err(CodecError::UnexpectedEof);
        }
        let start = p;
        let mut public_keys: Vec<[u8; 32]> = Vec::new();
        let mut q = p;
        let mut i: usize = 0;
        while i < n
            invariant
                0 <= i <= n <= 255,
                start + 32 * n <= buf@.len(),
                q == start + 32 * i,
                public_keys@ =~= arrays32_at(buf@, start as int, i as nat),
            decreases n - i,
        {
            let (k, q2) = read_array32(buf, q)?;
            public_keys.push(k);
            q = q2;
            i = i + 1;
            assert(public_keys@ =~= arrays32_at(buf@, start as int, i as nat));
        }
        let e = MilestonePayloadEssence {
            index,
            timestamp,
            parent1: MessageId { bytes: parent1 },
            parent2: MessageId { bytes: parent2 },
            merkle_proof,
            public_keys,
        };
        Ok((e, q))
    }

    pub fn unpack(bytes: &[u8]) -> (r: Result<MilestonePayloadEssence, CodecError>)
        ensures
            match r {
                Ok(e) => spec_finish(spec_parse_essence(bytes@, 0), bytes@.len() as int) == Ok::<
                    EssenceView,
                    CodecError,
                >(e@),
                Err(x) => spec_finish(spec_parse_essence(bytes@, 0), bytes@.len() as int) == Err::<
                    EssenceView,
                    CodecError,
                >(x),
            },
    {
        let (e, p) = MilestonePayloadEssence::parse(bytes, 0)?;
        if p == bytes.len() {
            Ok(e)
        } else {
            Err(CodecError::TrailingBytes)
        }
    }
}

} // verus!

verus! {

/// Whether `sig` is a valid Ed25519 signature of `msg` under the public key
/// whose compressed bytes are `key` (false where `key` is no valid point).
pub uninterp spec fn ed25519_verifies(key: Seq<u8>, sig: Seq<u8>, msg: Seq<u8>) -> bool;

/// Relies on iota-crypto's `ed25519::PublicKey::try_from_bytes`, which turns
/// compressed bytes into a key or fails, and `PublicKey::verify`, which checks
/// a signature of a message; the outcome depends on the three byte strings alone.
#[verifier::external_body]
fn verify_ed25519(key: &[u8; 32], sig: &[u8; 64], msg: &[u8]) -> (r: bool)
    ensures
        r == ed25519_verifies(key@, sig@, msg@),
{
    match crypto::signatures::ed25519::PublicKey::try_from_bytes(*key) {
        Ok(k) => k.verify(&crypto::signatures::ed25519::Signature::from_bytes(*sig), msg),
        Err(_) => false,
    }
}

/// Why a milestone payload failed validation.
#[derive(Clone, Debug, PartialEq, Eq)]
pub enum MilestoneValidationError {
    InvalidMinThreshold,
    /// The threshold, then the number of signatures.
    TooFewSignatures(usize, usize),
    /// The number of signatures, then the number of public keys.
    SignaturesPublicKeysCountMismatch(usize, usize),
    /// The number of applicable keys, then the threshold.
    InsufficientApplicablePublicKeys(usize, usize),
    /// The hexadecimal text of the key.
    UnapplicablePublicKey(String),
    /// The position of the signature and the hexadecimal text of its key.
    InvalidSignature(usize, String),
}

/// A validation failure as plain values.
pub enum ValidationFailure {
    InvalidMinThreshold,
    TooFewSignatures(int, int),
    SignaturesPublicKeysCountMismatch(int, int),
    InsufficientApplicablePublicKeys(int, int),
    UnapplicablePublicKey(Seq<char>),
    InvalidSignature(int, Seq<char>),
}

impl View for MilestoneValidationError {
    type V = ValidationFailure;

    open spec fn view(&self) -> ValidationFailure {
        match self {
            MilestoneValidationError::InvalidMinThreshold => ValidationFailure::InvalidMinThreshold,
            MilestoneValidationError::TooFewSignatures(a, b) => ValidationFailure::TooFewSignatures(
                *a as int,
                *b as int,
            ),
            MilestoneValidationError::SignaturesPublicKeysCountMismatch(a, b) =>
                ValidationFailure::SignaturesPublicKeysCountMismatch(*a as int, *b as int),
            MilestoneValidationError::InsufficientApplicablePublicKeys(a, b) =>
                ValidationFailure::InsufficientApplicablePublicKeys(*a as int, *b as int),
            MilestoneValidationError::UnapplicablePublicKey(s) =>
                ValidationFailure::UnapplicablePublicKey(s@),
            MilestoneValidationError::InvalidSignature(i, s) => ValidationFailure::InvalidSignature(
                *i as int,
                s@,
            ),
        }
    }
}

/// The texts of a list of strings.
pub open spec fn texts(v: Seq<String>) -> Seq<Seq<char>> {
    v.map_values(|s: String| s@)
}

/// Whether each signature verifies, by Ed25519, over the packed essence under
/// the key at its position.
pub open spec fn verdicts_of(p: PayloadView) -> Seq<bool> {
    Seq::new(
        p.essence.public_keys.len(),
        |i: int|
            ed25519_verifies(p.essence.public_keys[i]@, p.signatures[i]@, essence_bytes(p.essence)),
    )
}

/// The failure, if any, of the key and signature at position `i`, given
/// whether each signature verifies: the key must be applicable, then its
/// signature must verify.
pub open spec fn key_failure(p: PayloadView, keys: Seq<Seq<char>>, verdicts: Seq<bool>, i: int) -> Option<
    ValidationFailure,
> {
    let pk = p.essence.public_keys[i];
    if !keys.contains(hex_of(pk@)) {
        Some(ValidationFailure::UnapplicablePublicKey(hex_of(pk@)))
    } else if !verdicts[i] {
        Some(ValidationFailure::InvalidSignature(i, hex_of(pk@)))
    } else {
        None
    }
}

/// The first failing key and signature from position `i` on.
pub open spec fn first_key_failure(p: PayloadView, keys: Seq<Seq<char>>, verdicts: Seq<bool>, i: int) -> Option<
    ValidationFailure,
>
    decreases p.essence.public_keys.len() - i,
{
    if i < 0 || i >= p.essence.public_keys.len() {
        None
    } else if key_failure(p, keys, verdicts, i) is Some {
        key_failure(p, keys, verdicts, i)
    } else {
        first_key_failure(p, keys, verdicts, i + 1)
    }
}

/// The outcome of validating `p` against applicable keys `keys` and threshold
/// `t`, given whether each signature verifies: the first rule that fails, in
/// the order the rules are listed.
pub open spec fn validate_given(p: PayloadView, keys: Seq<Seq<char>>, t: int, verdicts: Seq<bool>) -> Option<
    ValidationFailure,
> {
    let nsig = p.signatures.len() as int;
    let nkey = p.essence.public_keys.len() as int;
    if t == 0 {
        Some(ValidationFailure::InvalidMinThreshold)
    } else if keys.len() < t {
        Some(ValidationFailure::InsufficientApplicablePublicKeys(keys.len() as int, t))
    } else if nsig == 0 || nsig < t {
        Some(ValidationFailure::TooFewSignatures(t, nsig))
    } else if nsig != nkey {
        Some(ValidationFailure::SignaturesPublicKeysCountMismatch(nsig, nkey))
    } else {
        first_key_failure(p, keys, verdicts, 0)
    }
}

/// The outcome of validating `p` against applicable keys `keys` and threshold `t`.
pub open spec fn spec_validate(p: PayloadView, keys: Seq<Seq<char>>, t: int) -> Option<
    ValidationFailure,
> {
    validate_given(p, keys, t, verdicts_of(p))
}

/// A milestone: its essence and one signature per public key.
#[derive(Clone, Debug)]
pub struct MilestonePayload {
    essence: MilestonePayloadEssence,
    signatures: Vec<[u8; 64]>,
}

impl View for MilestonePayload {
    type V = PayloadView;

    closed spec fn view(&self) -> PayloadView {
        PayloadView { essence: self.essence@, signatures: self.signatures@ }
    }
}

impl MilestonePayload {
    pub fn new(essence: MilestonePayloadEssence, signatures: Vec<[u8; 64]>) -> (r: MilestonePayload)
        ensures
            r@ == (PayloadView { essence: essence@, signatures: signatures@ }),
    {
        MilestonePayload { essence, signatures }
    }

    pub fn essence(&self) -> (r: &MilestonePayloadEssence)
        ensures
            r@ == self@.essence,
    {
        &self.essence
    }

    pub fn signatures(&self) -> (r: &Vec<[u8; 64]>)
        ensures
            r@ == self@.signatures,
    {
        &self.signatures
    }

    pub fn packed_len(&self) -> (r: usize)
        requires
            self@.wf(),
        ensures
            r == payload_bytes(self@).len(),
    {
        proof {
            lemma_payload_len(self@);
            lemma_essence_len(self@.essence);
        }
        self.essence.packed_len() + 1 + self.signatures.len() * MILESTONE_SIGNATURE_LENGTH
    }

    pub fn pack(&self) -> (r: Vec<u8>)
        requires
            self@.wf(),
        ensures
            r@ == payload_bytes(self@),
    {
        let mut out: Vec<u8> = Vec::new();
        self.essence.pack_into(&mut out);
        write_u8(&mut out, self.signatures.len() as u8);
        let ghost before = out@;
        let mut i: usize = 0;
        while i < self.signatures.len()
            invariant
                0 <= i <= self.signatures@.len(),
                out@ == before + flat64(self.signatures@.take(i as int)),
            decreases self.signatures@.len() - i,
        {
            write_array64(&mut out, &self.signatures[i]);
            proof {
                let ks = self.signatures@.take(i + 1);
                assert(ks.drop_last() =~= self.signatures@.take(i as int));
            }
            i = i + 1;
        }
        assert(self.signatures@.take(i as int) =~= self.signatures@);
        assert(out@ =~= payload_bytes(self@));
        out
    }

    pub fn parse(buf: &[u8], pos: usize) -> (r: Result<(MilestonePayload, usize), CodecError>)
        ensures
            match r {
                Ok((m, p)) => spec_parse_payload(buf@, pos as int) == Ok::<
                    (PayloadView, int),
                    CodecError,
                >((m@, p as int)),
                Err(x) => spec_parse_payload(buf@, pos as int) == Err::<
                    (PayloadView, int),
                    CodecError,
                >(x),
            },
    {
        let (essence, p) = MilestonePayloadEssence::parse(buf, pos)?;
        let (n, p) = read_u8(buf, p)?;
        let n = n as usize;
        if buf.len() - p < MILESTONE_SIGNATURE_LENGTH * n {
            return Err(CodecError::UnexpectedEof);
        }
        let start = p;
        let mut signatures: Vec<[u8; 64]> = Vec::new();
        let mut q = p;
        let mut i: usize = 0;
        while i < n
            invariant
                0 <= i <= n <= 255,
                start + 64 * n <= buf@.len(),
                q == start + 64 * i,
                signatures@ =~= arrays64_at(buf@, start as int, i as nat),
            decreases n - i,
        {
            let (k, q2) = read_array64(buf, q)?;
            signatures.push(k);
            q = q2;
            i = i + 1;
            assert(signatures@ =~= arrays64_at(buf@, start as int, i as nat));
        }
        Ok((MilestonePayload { essence, signatures }, q))
    }

    pub fn unpack(bytes: &[u8]) -> (r: Result<MilestonePayload, CodecError>)
        ensures
            match r {
                Ok(m) => spec_finish(spec_parse_payload(bytes@, 0), bytes@.len() as int) == Ok::<
                    PayloadView,
                    CodecError,
                >(m@),
                Err(x) => spec_finish(spec_parse_payload(bytes@, 0), bytes@.len() as int) == Err::<
                    PayloadView,
                    CodecError,
                >(x),
            },
    {
        let (m, p) = MilestonePayload::parse(bytes, 0)?;
        if p == bytes.len() {
            Ok(m)
        } else {
            Err(CodecError::TrailingBytes)
        }
    }

    /// Checks this milestone against the keys that may sign (as hexadecimal
    /// text) and the least number of signatures required, given whether each
    /// signature verifies (`verdicts`, one per public key).
    pub fn validate_with_verdicts(
        &self,
        applicable_public_keys: &[String],
        min_threshold: usize,
        verdicts: &[bool],
    ) -> (r: Result<(), MilestoneValidationError>)
        requires
            self@.wf(),
            verdicts@.len() == self@.essence.public_keys.len(),
        ensures
            match r {
                Ok(()) => validate_given(
                    self@,
                    texts(applicable_public_keys@),
                    min_threshold as int,
                    verdicts@,
                ) is None,
                Err(e) => validate_given(
                    self@,
                    texts(applicable_public_keys@),
                    min_threshold as int,
                    verdicts@,
                ) == Some(e@),
            },
    {
        let ghost keys = texts(applicable_public_keys@);
        let ghost p = self@;
        if min_threshold == 0 {
            return Err(MilestoneValidationError::InvalidMinThreshold);
        }
        if applicable_public_keys.len() < min_threshold {
            return Err(
                MilestoneValidationError::InsufficientApplicablePublicKeys(
                    applicable_public_keys.len(),
                    min_threshold,
                ),
            );
        }
        let nsig = self.signatures.len();
        if nsig == 0 || nsig < min_threshold {
            return Err(MilestoneValidationError::TooFewSignatures(min_threshold, nsig));
        }
        let nkey = self.essence.public_keys.len();
        if nsig != nkey {
            return Err(MilestoneValidationError::SignaturesPublicKeysCountMismatch(nsig, nkey));
        }
        assert(validate_given(p, keys, min_threshold as int, verdicts@) == first_key_failure(
            p,
            keys,
            verdicts@,
            0,
        ));
        let mut i: usize = 0;
        while i < nkey
            invariant
                p == self@,
                keys == texts(applicable_public_keys@),
                nkey == p.essence.public_keys.len(),
                nkey == verdicts@.len(),
                0 <= i <= nkey,
                first_key_failure(p, keys, verdicts@, 0) == first_key_failure(
                    p,
                    keys,
                    verdicts@,
                    i as int,
                ),
                validate_given(p, keys, min_threshold as int, verdicts@) == first_key_failure(
                    p,
                    keys,
                    verdicts@,
                    0,
                ),
            decreases nkey - i,
        {
            let public_key = &self.essence.public_keys[i];
            let text = encode_hex(public_key.as_slice());
            let mut found = false;
            let mut j: usize = 0;
            while j < applicable_public_keys.len()
                invariant
                    keys == texts(applicable_public_keys@),
                    0 <= j <= applicable_public_keys@.len(),
                    found == (exists|k: int| 0 <= k < j && #[trigger] keys[k] == text@),
                decreases applicable_public_keys@.len() - j,
            {
                proof {
                    assert(keys[j as int] == applicable_public_keys@[j as int]@);
                }
                if applicable_public_keys[j] == text {
                    found = true;
                }
                j = j + 1;
            }
            proof {
                assert(found == keys.contains(text@));
                assert(*public_key == p.essence.public_keys[i as int]);
                assert(text@ == hex_of(p.essence.public_keys[i as int]@));
            }
            if !found {
                return Err(MilestoneValidationError::UnapplicablePublicKey(text));
            }
            if !verdicts[i] {
                return Err(MilestoneValidationError::InvalidSignature(i, text));
            }
            i = i + 1;
        }
        Ok(())
    }

    /// Checks the signatures of this milestone against the keys that may sign
    /// (as hexadecimal text) and the least number of signatures required.
    pub fn validate(&self, applicable_public_keys: &[String], min_threshold: usize) -> (r: Result<
        (),
        MilestoneValidationError,
    >)
        requires
            self@.wf(),
        ensures
            match r {
                Ok(()) => spec_validate(self@, texts(applicable_public_keys@), min_threshold as int)
                    is None,
                Err(e) => spec_validate(self@, texts(applicable_public_keys@), min_threshold as int)
                    == Some(e@),
            },
    {
        let ghost p = self@;
        let nkey = self.essence.public_keys.len();
        let mut verdicts: Vec<bool> = Vec::new();
        if self.signatures.len() == nkey {
            let signed = self.essence.pack();
            let mut i: usize = 0;
            while i < nkey
                invariant
                    p == self@,
                    nkey == p.essence.public_keys.len(),
                    nkey == p.signatures.len(),
                    signed@ == essence_bytes(p.essence),
                    0 <= i <= nkey,
                    verdicts@ == verdicts_of(p).take(i as int),
                decreases nkey - i,
            {
                let v = verify_ed25519(&self.essence.public_keys[i], &self.signatures[i], signed.as_slice());
                verdicts.push(v);
                assert(verdicts@ =~= verdicts_of(p).take(i + 1));
                i = i + 1;
            }
            assert(verdicts@ =~= verdicts_of(p));
        } else {
            let mut i: usize = 0;
            while i < nkey
                invariant
                    0 <= i <= nkey,
                    verdicts@.len() == i,
                decreases nkey - i,
            {
                verdicts.push(false);
                i = i + 1;
            }
        }
        self.validate_with_verdicts(applicable_public_keys, min_threshold, verdicts.as_slice())
    }
}

} // verus!
