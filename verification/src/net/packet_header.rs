//! The header that frames every datagram.

use crate::wire::{be_bytes, be_word, get_u32, held, lemma_be_word_of_be_bytes, put_u32, remaining};
use bytes::BytesMut;
use vstd::prelude::*;

verus! {

/// Tag that opens every datagram of this protocol.
pub const PROTOCOL_ID: u32 = 694206669;

/// Number of bytes of an encoded header: four 32-bit words.
pub const HEADER_SIZE: usize = 16;

/// A datagram, which so far is its header alone.
#[derive(Debug)]
pub struct Packet(pub PacketHeader);

/// Sequencing fields of one datagram.
#[derive(Debug)]
pub struct PacketHeader {
    /// The sender's sequence number of this datagram.
    pub sequence: u32,
    /// The highest sequence number the sender has seen from the recipient.
    pub ack: u32,
    /// Receipt bits for the sequence numbers just below `ack`.
    pub ack_bitfield: u32,
}

/// Why bytes were not accepted as a header.
#[allow(inconsistent_fields)]
#[derive(Debug)]
pub enum ToPacketHeaderError {
    /// Fewer bytes than a header takes.
    TooSmall { expected_min: usize, actual: usize },
    /// The first word is not the protocol tag.
    InvalidProtocolId { expected: u32, actual: u32 },
}

/// The sixteen bytes that stand for a header: the protocol tag, the sequence
/// number, the acknowledged number and the bitfield, each as a word in
/// network byte order.
pub open spec fn encoding(header: PacketHeader) -> Seq<u8> {
    be_bytes(PROTOCOL_ID) + be_bytes(header.sequence) + be_bytes(header.ack) + be_bytes(
        header.ack_bitfield,
    )
}

/// What the front of `bytes` stands for: a header, or the reason why not.
pub open spec fn decoding(bytes: Seq<u8>) -> Result<PacketHeader, ToPacketHeaderError> {
    if bytes.len() < HEADER_SIZE {
        Err(
            ToPacketHeaderError::TooSmall {
                expected_min: HEADER_SIZE,
                actual: bytes.len() as usize,
            },
        )
    } else if be_word(bytes) != PROTOCOL_ID {
        Err(
            ToPacketHeaderError::InvalidProtocolId {
                expected: PROTOCOL_ID,
                actual: be_word(bytes),
            },
        )
    } else {
        Ok(
            PacketHeader {
                sequence: be_word(bytes.skip(4)),
                ack: be_word(bytes.skip(8)),
                ack_bitfield: be_word(bytes.skip(12)),
            },
        )
    }
}

/// Number of bytes that decoding takes from the front of `bytes`: none from
/// too few, the first word where it is not the protocol tag, a whole header
/// otherwise.
pub open spec fn consumed(bytes: Seq<u8>) -> int {
    if bytes.len() < HEADER_SIZE {
        0
    } else if be_word(bytes) != PROTOCOL_ID {
        4
    } else {
        16
    }
}

/// Decoding the encoding of a header gives that header back, whatever bytes
/// follow it.
pub proof fn lemma_decoding_inverts_encoding(header: PacketHeader, rest: Seq<u8>)
    ensures
        encoding(header).len() == HEADER_SIZE,
        decoding(encoding(header) + rest) == Ok::<PacketHeader, ToPacketHeaderError>(header),
        consumed(encoding(header) + rest) == HEADER_SIZE,
        (encoding(header) + rest).skip(HEADER_SIZE as int) == rest,
{
    let bytes = encoding(header) + rest;
    let after_ack = be_bytes(header.ack_bitfield) + rest;
    let after_sequence = be_bytes(header.ack) + after_ack;
    let after_tag = be_bytes(header.sequence) + after_sequence;
    assert(bytes =~= be_bytes(PROTOCOL_ID) + after_tag);
    lemma_be_word_of_be_bytes(PROTOCOL_ID, after_tag);
    lemma_be_word_of_be_bytes(header.sequence, after_sequence);
    lemma_be_word_of_be_bytes(header.ack, after_ack);
    lemma_be_word_of_be_bytes(header.ack_bitfield, rest);
    assert(bytes.skip(4) =~= after_tag);
    assert(bytes.skip(8) =~= after_sequence);
    assert(bytes.skip(12) =~= after_ack);
    assert(bytes.skip(16) =~= rest);
}

/// Whether `buffer` can grow by the encoding of a header.
pub fn has_room(buffer: &BytesMut) -> (room: bool)
    ensures
        room == (held(*buffer).len() + HEADER_SIZE <= isize::MAX),
{
    remaining(buffer) <= isize::MAX as usize - HEADER_SIZE
}

impl Packet {
    /// Takes a datagram from the front of `bytes`.
    pub fn try_deserialize(bytes: &mut BytesMut) -> (packet: Result<Self, ToPacketHeaderError>)
        ensures
            match packet {
                Ok(Packet(header)) => decoding(held(*old(bytes))) == Ok::<
                    PacketHeader,
                    ToPacketHeaderError,
                >(header),
                Err(error) => decoding(held(*old(bytes))) == Err::<
                    PacketHeader,
                    ToPacketHeaderError,
                >(error),
            },
            held(*final(bytes)) == held(*old(bytes)).skip(consumed(held(*old(bytes)))),
    {
        match PacketHeader::try_deserialize(bytes) {
            Ok(header) => Ok(Packet(header)),
            Err(error) => Err(error),
        }
    }

    /// Appends the encoding of the datagram to `buffer`.
    pub fn serialize(&self, buffer: &mut BytesMut)
        requires
            held(*old(buffer)).len() + HEADER_SIZE <= isize::MAX,
        ensures
            held(*final(buffer)) == held(*old(buffer)) + encoding(self.0),
    {
        self.0.serialize(buffer)
    }
}

impl PacketHeader {
    /// Takes a header from the front of `bytes`.
    ///
    /// Fewer than sixteen bytes are refused as too small and left in place. A
    /// first word other than the protocol tag is refused after that word has
    /// been read. Otherwise the sixteen bytes are read and give the header.
    pub fn try_deserialize(bytes: &mut BytesMut) -> (header: Result<Self, ToPacketHeaderError>)
        ensures
            header == decoding(held(*old(bytes))),
            held(*final(bytes)) == held(*old(bytes)).skip(consumed(held(*old(bytes)))),
    {
        let ghost input = held(*bytes);
        let available = remaining(bytes);
        if available < HEADER_SIZE {
            assert(input.skip(0) =~= input);
            return Err(
                ToPacketHeaderError::TooSmall { expected_min: HEADER_SIZE, actual: available },
            );
        }
        let protocol_id = get_u32(bytes);
        if protocol_id != PROTOCOL_ID {
            return Err(
                ToPacketHeaderError::InvalidProtocolId {
                    expected: PROTOCOL_ID,
                    actual: protocol_id,
                },
            );
        }
        let sequence = get_u32(bytes);
        assert(input.skip(4).skip(4) =~= input.skip(8));
        let ack = get_u32(bytes);
        assert(input.skip(8).skip(4) =~= input.skip(12));
        let ack_bitfield = get_u32(bytes);
        assert(input.skip(12).skip(4) =~= input.skip(16));

        Ok(PacketHeader { sequence, ack, ack_bitfield })
    }

    /// Appends the encoding of the header to `buffer`.
    pub fn serialize(&self, buffer: &mut BytesMut)
        requires
            held(*old(buffer)).len() + HEADER_SIZE <= isize::MAX,
        ensures
            held(*final(buffer)) == held(*old(buffer)) + encoding(*self),
    {
        put_u32(buffer, PROTOCOL_ID);
        put_u32(buffer, self.sequence);
        put_u32(buffer, self.ack);
        put_u32(buffer, self.ack_bitfield);
        assert(held(*buffer) =~= held(*old(buffer)) + encoding(*self));
    }
}

} // verus!
