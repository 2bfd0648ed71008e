//! Identifiers of messages, transactions and outputs, and the UTXO input.

use vstd::prelude::*;

use crate::codec::{
    array32_eq, parsed_as, read_array32, read_u16, spec_finish, spec_read_array32, spec_read_u16, u16_bytes,
    write_array32, write_u16, lemma_array32_of, lemma_u16_round_trip, CodecError, Parsed,
};
use crate::text::{
    bytes_of_hex, decode_hex, encode_hex, hex_of, is_hex_text, lemma_hex_round_trip,
};

verus! {

/// Failures of building message-model values from text.
#[derive(Clone, Copy, Debug, PartialEq, Eq, Structural)]
pub enum MessageError {
    /// The text is not an even number of hexadecimal digits.
    InvalidHex,
    /// The text spells bytes that are not exactly one value.
    InvalidHexLength,
}

/// The 32-byte identifier of a message.
#[derive(Clone, Copy, Debug, Eq)]
pub struct MessageId {
    pub bytes: [u8; 32],
}

impl PartialEq for MessageId {
    fn eq(&self, other: &MessageId) -> (r: bool)
        ensures
            r == (*self == *other),
    {
        array32_eq(&self.bytes, &other.bytes)
    }
}

impl vstd::std_specs::cmp::PartialEqSpecImpl for MessageId {
    open spec fn obeys_eq_spec() -> bool {
        true
    }

    open spec fn eq_spec(&self, other: &MessageId) -> bool {
        *self == *other
    }
}

impl MessageId {
    pub fn new(bytes: [u8; 32]) -> (r: MessageId)
        ensures
            r.bytes == bytes,
    {
        MessageId { bytes }
    }

    pub fn as_bytes(&self) -> (r: &[u8; 32])
        ensures
            *r == self.bytes,
    {
        &self.bytes
    }
}

/// The 32-byte identifier of a transaction.
#[derive(Clone, Copy, Debug, Eq)]
pub struct TransactionId {
    pub bytes: [u8; 32],
}

impl PartialEq for TransactionId {
    fn eq(&self, other: &TransactionId) -> (r: bool)
        ensures
            r == (*self == *other),
    {
        array32_eq(&self.bytes, &other.bytes)
    }
}

impl vstd::std_specs::cmp::PartialEqSpecImpl for TransactionId {
    open spec fn obeys_eq_spec() -> bool {
        true
    }

    open spec fn eq_spec(&self, other: &TransactionId) -> bool {
        *self == *other
    }
}

impl TransactionId {
    pub fn new(bytes: [u8; 32]) -> (r: TransactionId)
        ensures
            r.bytes == bytes,
    {
        TransactionId { bytes }
    }

    pub fn as_bytes(&self) -> (r: &[u8; 32])
        ensures
            *r == self.bytes,
    {
        &self.bytes
    }
}

/// An output: the transaction that created it and its index there.
#[derive(Clone, Copy, Debug, Eq)]
pub struct OutputId {
    pub transaction_id: TransactionId,
    pub index: u16,
}

/// Packed length of an output id.
pub const OUTPUT_ID_LENGTH: usize = 34;

/// The packed form of an output id: the transaction id, then the index.
pub open spec fn output_id_bytes(o: OutputId) -> Seq<u8> {
    o.transaction_id.bytes@ + u16_bytes(o.index)
}

pub open spec fn spec_parse_output_id(s: Seq<u8>, pos: int) -> Parsed<OutputId> {
    match spec_read_array32(s, pos) {
        Err(e) => Err(e),
        Ok((t, p)) => match spec_read_u16(s, p) {
            Err(e) => Err(e),
            Ok((i, q)) => Ok((OutputId { transaction_id: TransactionId { bytes: t }, index: i }, q)),
        },
    }
}

/// What `OutputId::from_str` gives for a text.
pub open spec fn output_id_from_text(s: Seq<char>) -> Result<OutputId, MessageError> {
    if !is_hex_text(s) {
        Err(MessageError::InvalidHex)
    } else {
        match spec_finish(spec_parse_output_id(bytes_of_hex(s), 0), bytes_of_hex(s).len() as int) {
            Ok(o) => Ok(o),
            Err(_) => Err(MessageError::InvalidHexLength),
        }
    }
}

/// An output id parses back from its packed bytes, wherever they stand.
pub proof fn lemma_output_id_parse(o: OutputId, s: Seq<u8>, pos: int)
    requires
        0 <= pos,
        pos + 34 <= s.len(),
        s.subrange(pos, pos + 34) == output_id_bytes(o),
    ensures
        spec_parse_output_id(s, pos) == Ok::<(OutputId, int), CodecError>((o, pos + 34)),
{
    let b = output_id_bytes(o);
    assert(s.subrange(pos, pos + 32) =~= b.subrange(0, 32));
    assert(b.subrange(0, 32) =~= o.transaction_id.bytes@);
    lemma_array32_of(o.transaction_id.bytes);
    assert(s.subrange(pos + 32, pos + 34) =~= b.subrange(32, 34));
    assert(b.subrange(32, 34) =~= u16_bytes(o.index));
    lemma_u16_round_trip(o.index);
}

/// Fewer than 34 bytes from `pos` is a truncated output id.
pub proof fn lemma_output_id_truncated(s: Seq<u8>, pos: int)
    requires
        0 <= pos <= s.len() < pos + 34,
    ensures
        spec_parse_output_id(s, pos) == Err::<(OutputId, int), CodecError>(CodecError::UnexpectedEof),
{
}

pub fn parse_output_id(buf: &[u8], pos: usize) -> (r: Result<(OutputId, usize), CodecError>)
    ensures
        parsed_as(r, spec_parse_output_id(buf@, pos as int)),
{
    let (t, p) = read_array32(buf, pos)?;
    let (i, q) = read_u16(buf, p)?;
    Ok((OutputId { transaction_id: TransactionId { bytes: t }, index: i }, q))
}

pub fn write_output_id(out: &mut Vec<u8>, o: &OutputId)
    ensures
        final(out)@ == old(out)@ + output_id_bytes(*o),
{
    write_array32(out, &o.transaction_id.bytes);
    write_u16(out, o.index);
    assert(final(out)@ =~= old(out)@ + output_id_bytes(*o));
}

impl PartialEq for OutputId {
    fn eq(&self, other: &OutputId) -> (r: bool)
        ensures
            r == (*self == *other),
    {
        self.index == other.index && self.transaction_id == other.transaction_id
    }
}

impl vstd::std_specs::cmp::PartialEqSpecImpl for OutputId {
    open spec fn obeys_eq_spec() -> bool {
        true
    }

    open spec fn eq_spec(&self, other: &OutputId) -> bool {
        *self == *other
    }
}

impl OutputId {
    pub fn new(transaction_id: TransactionId, index: u16) -> (r: OutputId)
        ensures
            r.transaction_id == transaction_id,
            r.index == index,
    {
        OutputId { transaction_id, index }
    }

    pub fn transaction_id(&self) -> (r: &TransactionId)
        ensures
            *r == self.transaction_id,
    {
        &self.transaction_id
    }

    pub fn index(&self) -> (r: u16)
        ensures
            r == self.index,
    {
        self.index
    }

    pub fn packed_len(&self) -> (r: usize)
        ensures
            r == output_id_bytes(*self).len(),
    {
        OUTPUT_ID_LENGTH
    }

    pub fn pack(&self) -> (r: Vec<u8>)
        ensures
            r@ == output_id_bytes(*self),
    {
        let mut out: Vec<u8> = Vec::new();
        write_output_id(&mut out, self);
        assert(out@ =~= output_id_bytes(*self));
        out
    }

    pub fn unpack(bytes: &[u8]) -> (r: Result<OutputId, CodecError>)
        ensures
            r == spec_finish(spec_parse_output_id(bytes@, 0), bytes@.len() as int),
    {
        let (o, p) = parse_output_id(bytes, 0)?;
        if p == bytes.len() {
            Ok(o)
        } else {
            Err(CodecError::TrailingBytes)
        }
    }

    /// Reads an output id from the hexadecimal text of its packed form.
    pub fn from_hex(s: &str) -> (r: Result<OutputId, MessageError>)
        ensures
            r == output_id_from_text(s@),
    {
        match decode_hex(s) {
            Err(_) => Err(MessageError::InvalidHex),
            Ok(bytes) => match OutputId::unpack(bytes.as_slice()) {
                Ok(o) => Ok(o),
                Err(_) => Err(MessageError::InvalidHexLength),
            },
        }
    }

    /// The hexadecimal text of the packed form.
    pub fn to_string(&self) -> (r: String)
        ensures
            r@ == hex_of(output_id_bytes(*self)),
    {
        let bytes = self.pack();
        encode_hex(bytes.as_slice())
    }
}

/// Text and packed bytes of an output id both lead back to it, and bytes
/// after the packed form are trailing bytes.
pub proof fn lemma_output_id_round_trip(o: OutputId, extra: Seq<u8>)
    ensures
        extra.len() > 0 ==> spec_finish(
            spec_parse_output_id(output_id_bytes(o) + extra, 0),
            34 + extra.len() as int,
        ) == Err::<OutputId, CodecError>(CodecError::TrailingBytes),
        spec_finish(spec_parse_output_id(output_id_bytes(o), 0), 34) == Ok::<OutputId, CodecError>(o),
        output_id_bytes(o).len() == OUTPUT_ID_LENGTH,
        output_id_from_text(hex_of(output_id_bytes(o))) == Ok::<OutputId, MessageError>(o),
{
    let b = output_id_bytes(o);
    assert(b.subrange(0, 34) =~= b);
    lemma_output_id_parse(o, b, 0);
    lemma_hex_round_trip(b);
    let be = b + extra;
    assert(be.subrange(0, 34) =~= b);
    lemma_output_id_parse(o, be, 0);
}

/// An input that spends the output it names.
#[derive(Clone, Copy, Debug, Eq)]
pub struct UTXOInput {
    pub output_id: OutputId,
}

impl PartialEq for UTXOInput {
    fn eq(&self, other: &UTXOInput) -> (r: bool)
        ensures
            r == (*self == *other),
    {
        self.output_id == other.output_id
    }
}

impl vstd::std_specs::cmp::PartialEqSpecImpl for UTXOInput {
    open spec fn obeys_eq_spec() -> bool {
        true
    }

    open spec fn eq_spec(&self, other: &UTXOInput) -> bool {
        *self == *other
    }
}

impl UTXOInput {
    /// The kind tag of this input.
    pub const KIND: u8 = 0;

    pub fn new(transaction_id: TransactionId, index: u16) -> (r: Result<UTXOInput, MessageError>)
        ensures
            r == Ok::<UTXOInput, MessageError>(
                UTXOInput { output_id: OutputId { transaction_id, index } },
            ),
    {
        Ok(UTXOInput { output_id: OutputId::new(transaction_id, index) })
    }

    pub fn output_id(&self) -> (r: &OutputId)
        ensures
            *r == self.output_id,
    {
        &self.output_id
    }

    pub fn packed_len(&self) -> (r: usize)
        ensures
            r == output_id_bytes(self.output_id).len(),
    {
        self.output_id.packed_len()
    }

    pub fn pack(&self) -> (r: Vec<u8>)
        ensures
            r@ == output_id_bytes(self.output_id),
    {
        self.output_id.pack()
    }

    pub fn unpack(bytes: &[u8]) -> (r: Result<UTXOInput, CodecError>)
        ensures
            r == (match spec_finish(spec_parse_output_id(bytes@, 0), bytes@.len() as int) {
                Ok(o) => Ok(UTXOInput { output_id: o }),
                Err(e) => Err(e),
            }),
    {
        let o = OutputId::unpack(bytes)?;
        Ok(UTXOInput { output_id: o })
    }

    pub fn from_hex(s: &str) -> (r: Result<UTXOInput, MessageError>)
        ensures
            r == (match output_id_from_text(s@) {
                Ok(o) => Ok(UTXOInput { output_id: o }),
                Err(e) => Err(e),
            }),
    {
        let o = OutputId::from_hex(s)?;
        Ok(UTXOInput { output_id: o })
    }

    pub fn to_string(&self) -> (r: String)
        ensures
            r@ == hex_of(output_id_bytes(self.output_id)),
    {
        self.output_id.to_string()
    }
}

impl From<OutputId> for UTXOInput {
    fn from(output_id: OutputId) -> (r: UTXOInput)
        ensures
            r == (UTXOInput { output_id }),
    {
        UTXOInput { output_id }
    }
}

impl vstd::std_specs::convert::FromSpecImpl<OutputId> for UTXOInput {
    open spec fn obeys_from_spec() -> bool {
        true
    }

    open spec fn from_spec(v: OutputId) -> UTXOInput {
        UTXOInput { output_id: v }
    }
}

impl core::str::FromStr for OutputId {
    type Err = MessageError;

    fn from_str(s: &str) -> Result<OutputId, MessageError> {
        OutputId::from_hex(s)
    }
}

impl core::str::FromStr for UTXOInput {
    type Err = MessageError;

    fn from_str(s: &str) -> Result<UTXOInput, MessageError> {
        UTXOInput::from_hex(s)
    }
}

} // verus!
