//! The datagram header with its protocol tag as a field, converted from and
//! to immutable buffers.

use crate::wire::{
    be_bytes,
    be_word,
    freeze,
    frozen,
    get_u32_frozen,
    lemma_be_word_of_be_bytes,
    put_u32,
    remaining_frozen,
    with_capacity,
};
use bytes::Bytes;
use vstd::prelude::*;
use vstd::std_specs::convert::{FromSpecImpl, TryFromSpecImpl};

verus! {

/// Tag that opens every datagram of this protocol.
pub const PROTOCOL_ID: u32 = 694206669;

/// The four words of a datagram's header.
#[derive(Debug)]
pub struct PacketHeader {
    /// The protocol tag, [`PROTOCOL_ID`] in every header that was decoded.
    pub protocol_id: u32,
    /// The sender's sequence number of this datagram.
    pub sequence: u32,
    /// The highest sequence number the sender has seen from the recipient.
    pub ack: u32,
    /// Receipt bits for the sequence numbers just below `ack`.
    pub ack_bitfield: u32,
}

/// Why bytes were not accepted as a header.
#[allow(inconsistent_fields)]
#[derive(Debug)]
pub enum ToPacketHeaderError {
    /// Fewer bytes than a header takes.
    TooSmall { expected_min: usize, actual: usize },
    /// The first word is not the protocol tag.
    InvalidProtocolId { expected: u32, actual: u32 },
}

/// The sixteen bytes that stand for a header: its four words in network byte
/// order.
pub open spec fn encoding(header: PacketHeader) -> Seq<u8> {
    be_bytes(header.protocol_id) + be_bytes(header.sequence) + be_bytes(header.ack) + be_bytes(
        header.ack_bitfield,
    )
}

/// What the front of `bytes` stands for: a header, or the reason why not.
pub open spec fn decoding(bytes: Seq<u8>) -> Result<PacketHeader, ToPacketHeaderError> {
    if bytes.len() < 16 {
        Err(ToPacketHeaderError::TooSmall { expected_min: 16, actual: bytes.len() as usize })
    } else if be_word(bytes) != PROTOCOL_ID {
        Err(
            ToPacketHeaderError::InvalidProtocolId {
                expected: PROTOCOL_ID,
                actual: be_word(bytes),
            },
        )
    } else {
        Ok(
            PacketHeader {
                protocol_id: be_word(bytes),
                sequence: be_word(bytes.skip(4)),
                ack: be_word(bytes.skip(8)),
                ack_bitfield: be_word(bytes.skip(12)),
            },
        )
    }
}

/// Decoding the encoding of a header gives that header back if it carries the
/// protocol tag, and names the tag it carries otherwise.
pub proof fn lemma_decoding_inverts_encoding(header: PacketHeader)
    ensures
        encoding(header).len() == 16,
        header.protocol_id == PROTOCOL_ID ==> decoding(encoding(header)) == Ok::<
            PacketHeader,
            ToPacketHeaderError,
        >(header),
        header.protocol_id != PROTOCOL_ID ==> decoding(encoding(header)) == Err::<
            PacketHeader,
            ToPacketHeaderError,
        >(
            ToPacketHeaderError::InvalidProtocolId {
                expected: PROTOCOL_ID,
                actual: header.protocol_id,
            },
        ),
{
    let bytes = encoding(header);
    let after_ack = be_bytes(header.ack_bitfield) + Seq::<u8>::empty();
    let after_sequence = be_bytes(header.ack) + after_ack;
    let after_tag = be_bytes(header.sequence) + after_sequence;
    assert(bytes =~= be_bytes(header.protocol_id) + after_tag);
    lemma_be_word_of_be_bytes(header.protocol_id, after_tag);
    lemma_be_word_of_be_bytes(header.sequence, after_sequence);
    lemma_be_word_of_be_bytes(header.ack, after_ack);
    lemma_be_word_of_be_bytes(header.ack_bitfield, Seq::<u8>::empty());
    assert(bytes.skip(4) =~= after_tag);
    assert(bytes.skip(8) =~= after_sequence);
    assert(bytes.skip(12) =~= after_ack);
}

impl TryFrom<Bytes> for PacketHeader {
    type Error = ToPacketHeaderError;

    /// Takes a header from the front of `bytes`.
    fn try_from(bytes: Bytes) -> (header: Result<Self, Self::Error>) {
        let mut bytes = bytes;
        let ghost input = frozen(bytes);
        let available = remaining_frozen(&bytes);
        if available < 16 {
            return Err(ToPacketHeaderError::TooSmall { expected_min: 16, actual: available });
        }
        let protocol_id = get_u32_frozen(&mut bytes);
        if protocol_id != PROTOCOL_ID {
            return Err(
                ToPacketHeaderError::InvalidProtocolId {
                    expected: PROTOCOL_ID,
                    actual: protocol_id,
                },
            );
        }
        let sequence = get_u32_frozen(&mut bytes);
        assert(input.skip(4).skip(4) =~= input.skip(8));
        let ack = get_u32_frozen(&mut bytes);
        assert(input.skip(8).skip(4) =~= input.skip(12));
        let ack_bitfield = get_u32_frozen(&mut bytes);

        Ok(PacketHeader { protocol_id, sequence, ack, ack_bitfield })
    }
}

impl TryFromSpecImpl<Bytes> for PacketHeader {
    open spec fn obeys_try_from_spec() -> bool {
        true
    }

    open spec fn try_from_spec(bytes: Bytes) -> Result<Self, Self::Error> {
        decoding(frozen(bytes))
    }
}

impl From<PacketHeader> for Bytes {
    /// A buffer that holds the encoding of `value`.
    fn from(value: PacketHeader) -> (bytes: Bytes)
        ensures
            frozen(bytes) == encoding(value),
    {
        let mut bytes = with_capacity(16);
        put_u32(&mut bytes, value.protocol_id);
        put_u32(&mut bytes, value.sequence);
        put_u32(&mut bytes, value.ack);
        put_u32(&mut bytes, value.ack_bitfield);
        assert(crate::wire::held(bytes) =~= encoding(value));

        freeze(bytes)
    }
}

impl FromSpecImpl<PacketHeader> for Bytes {
    open spec fn obeys_from_spec() -> bool {
        false
    }

    open spec fn from_spec(value: PacketHeader) -> Bytes {
        choose|bytes: Bytes| frozen(bytes) == encoding(value)
    }
}

} // verus!
