//! The way in: from the bytes of an arrived datagram to the message for the
//! registry.

use crate::connection_manager::NewConnection;
use crate::net::connection::{arrival, ConnectionReader};
use crate::net::packet_header::{Packet, ToPacketHeaderError};
use crate::wire::held;
use vstd::prelude::*;

verus! {

/// Takes arrived datagrams in and turns them into messages for the registry.
pub struct Server {
    /// The reader whose buffer the socket fills.
    pub conn_reader: ConnectionReader,
}

impl Server {
    /// A server that has read nothing yet.
    pub fn new() -> (server: Self)
        ensures
            held(server.conn_reader.buffer) == Seq::<u8>::empty(),
    {
        Self { conn_reader: ConnectionReader::new() }
    }

    /// Turns the datagram that the reader's buffer holds, which came from
    /// `from_address`, into the message that announces it to the registry. A
    /// datagram that does not decode is discarded, and the reason is
    /// returned. Either way the buffer is left empty.
    pub fn route(&mut self, from_address: u64) -> (routed: Result<
        NewConnection,
        ToPacketHeaderError,
    >)
        ensures
            held(final(self).conn_reader.buffer) == Seq::<u8>::empty(),
            match routed {
                Ok(NewConnection(packet, writer)) => arrival(
                    held(old(self).conn_reader.buffer),
                    from_address,
                ) == Ok::<(Packet, u64), ToPacketHeaderError>((packet, writer@)),
                Err(error) => arrival(held(old(self).conn_reader.buffer), from_address) == Err::<
                    (Packet, u64),
                    ToPacketHeaderError,
                >(error),
            },
    {
        match self.conn_reader.receive(from_address) {
            Ok((packet, conn_writer)) => Ok(NewConnection(packet, conn_writer)),
            Err(error) => Err(error),
        }
    }
}

} // verus!
