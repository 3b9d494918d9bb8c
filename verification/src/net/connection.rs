//! The two ends of the socket as far as bytes go: what an arrived datagram
//! amounts to, and the bytes of a datagram to send.

use crate::net::packet_header::{decoding, encoding, Packet, ToPacketHeaderError, HEADER_SIZE};
use crate::wire::{clear, held, with_capacity};
use bytes::BytesMut;
use vstd::prelude::*;

verus! {

/// Room that the buffers are made with, in bytes.
pub const BUFFER_CAPACITY: usize = 256;

/// Where datagrams to one peer go.
#[derive(Clone, Copy)]
pub struct ConnectionWriter {
    to_address: u64,
}

impl View for ConnectionWriter {
    type V = u64;

    closed spec fn view(&self) -> u64 {
        self.to_address
    }
}

impl ConnectionWriter {
    /// The writer for the peer at `to_address`, an integer that stands for
    /// the address.
    pub fn new(to_address: u64) -> (writer: Self)
        ensures
            writer@ == to_address,
    {
        Self { to_address }
    }

    /// The bytes to send to the peer for `packet`: its encoding.
    pub fn frame(&self, packet: Packet) -> (buffer: BytesMut)
        ensures
            held(buffer) == encoding(packet.0),
    {
        let mut buffer = with_capacity(BUFFER_CAPACITY);
        packet.serialize(&mut buffer);
        buffer
    }

    /// The address of the peer.
    pub fn to_address(&self) -> (to_address: u64)
        ensures
            to_address == self@,
    {
        self.to_address
    }
}

/// Where arrived datagrams are taken in, one at a time.
pub struct ConnectionReader {
    /// Holds the bytes of the datagram that arrived last.
    pub buffer: BytesMut,
}

/// What the bytes of a datagram from `from_address` amount to: the datagram
/// and the writer for its sender, or the reason why they are refused.
pub open spec fn arrival(bytes: Seq<u8>, from_address: u64) -> Result<
    (Packet, u64),
    ToPacketHeaderError,
> {
    match decoding(bytes) {
        Ok(header) => Ok((Packet(header), from_address)),
        Err(error) => Err(error),
    }
}

impl ConnectionReader {
    /// A reader with an empty buffer.
    pub fn new() -> (reader: Self)
        ensures
            held(reader.buffer) == Seq::<u8>::empty(),
    {
        Self { buffer: with_capacity(BUFFER_CAPACITY) }
    }

    /// Takes the datagram that the buffer holds, which came from
    /// `from_address`, and leaves the buffer empty for the next one.
    pub fn receive(&mut self, from_address: u64) -> (received: Result<
        (Packet, ConnectionWriter),
        ToPacketHeaderError,
    >)
        ensures
            held(final(self).buffer) == Seq::<u8>::empty(),
            match received {
                Ok((packet, writer)) => arrival(held(old(self).buffer), from_address) == Ok::<
                    (Packet, u64),
                    ToPacketHeaderError,
                >((packet, writer@)),
                Err(error) => arrival(held(old(self).buffer), from_address) == Err::<
                    (Packet, u64),
                    ToPacketHeaderError,
                >(error),
            },
    {
        let result = match Packet::try_deserialize(&mut self.buffer) {
            Ok(header) => {
                let conn_writer = ConnectionWriter::new(from_address);
                Ok((header, conn_writer))
            },
            Err(err) => Err(err),
        };
        clear(&mut self.buffer);
        result
    }
}

} // verus!
