//! The state of one peer: its sequencing, and what each datagram from it
//! calls for.

use crate::connection_manager::Prune;
use crate::net::connection::ConnectionWriter;
use crate::net::local_sequence_tracker::dropped_by;
use crate::net::packet_header::{Packet, PacketHeader};
use crate::net::packet_manager::{PacketManager, PacketSequences};
use crate::net::remote_sequence_tracker::reports;
use crate::ordered_set::is_greatest;
use std::collections::BTreeSet;
use vstd::prelude::*;

verus! {

/// Seconds without a datagram from a peer after which its connection ends.
pub const IDLE_TIMEOUT_SECS: u64 = 10;

/// A datagram from the peer of a connection.
pub struct IncomingRequest(pub Packet);

/// What a [`PlayerConnection`] stands for.
pub struct Peer {
    /// The address of the peer, as an integer that stands for it.
    pub remote_addr: u64,
    /// The sequencing state of the traffic with the peer.
    pub packets: PacketSequences,
}

/// What taking in a datagram calls for.
pub struct Reaction {
    /// Sequence numbers of own datagrams that the peer has given up, if any.
    pub dropped: Option<BTreeSet<u32>>,
    /// The datagram to send in answer.
    pub reply: Packet,
    /// Where to send the answer: the peer's address.
    pub to_address: u64,
    /// The idle timer is to be cancelled and set again to this many seconds.
    pub idle_timeout_secs: u64,
    /// What the idle timer is to deliver to the registry when it fires.
    pub on_idle: Prune,
}

impl Peer {
    /// The state of a connection that has just been made.
    pub open spec fn fresh(remote_addr: u64) -> Peer {
        Peer { remote_addr, packets: PacketSequences::fresh() }
    }

    /// The sequencing state is well formed.
    pub open spec fn wf(self) -> bool {
        self.packets.wf()
    }

    /// Whether a datagram can be taken in and answered: a sequence number is
    /// left for the answer.
    pub open spec fn can_handle(self) -> bool {
        self.packets.local.next < u32::MAX
    }

    /// The state after a datagram with `header` was taken in and answered.
    pub open spec fn after(self, header: PacketHeader) -> Peer {
        Peer {
            remote_addr: self.remote_addr,
            packets: self.packets.after_receive(header).after_send(),
        }
    }

    /// Whether `reaction` is what a datagram with `header` calls for in this
    /// state. The losses are those that the header's acknowledgement declares.
    /// The answer carries the next sequence number and acknowledges what has
    /// been received, the header's own sequence number included. It goes to
    /// the peer, and the idle timer starts over, to report the peer for
    /// removal when it fires.
    pub open spec fn calls_for(self, header: PacketHeader, reaction: Reaction) -> bool {
        let received = self.packets.after_receive(header);
        &&& match reaction.dropped {
            Some(lost) => lost@ == dropped_by(self.packets.local.unacked, header.ack) && lost@
                != Set::<u32>::empty(),
            None => dropped_by(self.packets.local.unacked, header.ack) == Set::<u32>::empty(),
        }
        &&& reaction.reply.0.sequence == self.packets.local.next
        &&& is_greatest(received.seen, reaction.reply.0.ack)
        &&& reports(received.seen, reaction.reply.0.ack_bitfield)
        &&& reaction.to_address == self.remote_addr
        &&& reaction.idle_timeout_secs == IDLE_TIMEOUT_SECS
        &&& reaction.on_idle == Prune(self.remote_addr)
    }
}

/// The connection to one peer. It lives from the peer's first datagram until
/// its idle timer fires.
pub struct PlayerConnection {
    conn_writer: ConnectionWriter,
    packet_manager: PacketManager,
}

impl View for PlayerConnection {
    type V = Peer;

    closed spec fn view(&self) -> Peer {
        Peer { remote_addr: self.conn_writer@, packets: self.packet_manager@ }
    }
}

impl PlayerConnection {
    /// The state is well formed.
    pub open spec fn wf(&self) -> bool {
        self@.wf()
    }

    /// A connection to the peer that `conn_writer` writes to, with nothing
    /// sent or received.
    pub fn new(conn_writer: ConnectionWriter) -> (connection: Self)
        ensures
            connection.wf(),
            connection@ == Peer::fresh(conn_writer@),
    {
        Self { conn_writer, packet_manager: PacketManager::new() }
    }

    /// The address of the peer.
    pub fn to_address(&self) -> (remote_addr: u64)
        ensures
            remote_addr == self@.remote_addr,
    {
        self.conn_writer.to_address()
    }

    /// Whether [`PlayerConnection::handle`] may be called.
    pub fn can_handle(&self) -> (able: bool)
        ensures
            able == self@.can_handle(),
    {
        self.packet_manager.has_sequence_left()
    }

    /// Takes in a datagram from the peer and says what it calls for.
    pub fn handle(&mut self, request: IncomingRequest) -> (reaction: Reaction)
        requires
            old(self).wf(),
            old(self)@.can_handle(),
        ensures
            final(self).wf(),
            final(self)@ == old(self)@.after(request.0.0),
            old(self)@.calls_for(request.0.0, reaction),
    {
        let header = request.0.0;
        let dropped = self.packet_manager.receive(&header);
        let reply = self.packet_manager.send().unwrap();
        Reaction {
            dropped,
            reply: Packet(reply),
            to_address: self.conn_writer.to_address(),
            idle_timeout_secs: IDLE_TIMEOUT_SECS,
            on_idle: Prune(self.conn_writer.to_address()),
        }
    }
}

} // verus!
