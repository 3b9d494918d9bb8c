//! The registry of connections: one per peer address.

use crate::net::connection::ConnectionWriter;
use crate::net::packet_header::Packet;
use crate::player_connection::{IncomingRequest, Peer, PlayerConnection, Reaction};
use std::collections::HashMap;
use vstd::prelude::*;

verus! {

/// A datagram has arrived from the peer that the writer writes to.
pub struct NewConnection(pub Packet, pub ConnectionWriter);

/// The connection of the peer at the given address is to be removed.
pub struct Prune(pub u64);

/// The connections by the address of their peer.
pub struct ConnectionManager {
    connections: HashMap<u64, PlayerConnection>,
}

impl View for ConnectionManager {
    type V = Map<u64, Peer>;

    closed spec fn view(&self) -> Map<u64, Peer> {
        Map::new(
            |addr: u64| self.connections@.contains_key(addr),
            |addr: u64| self.connections@[addr]@,
        )
    }
}

/// The state in which a datagram from `addr` finds the peer: that of its
/// connection, or that of a new one where it has none.
pub open spec fn peer_at(connections: Map<u64, Peer>, addr: u64) -> Peer {
    if connections.contains_key(addr) {
        connections[addr]
    } else {
        Peer::fresh(addr)
    }
}

/// A peer that was removed starts afresh: after the removal it has no
/// connection, and its next datagram is taken in by a new one, with nothing
/// sent or received before.
pub proof fn lemma_removed_peer_starts_afresh(connections: Map<u64, Peer>, addr: u64)
    ensures
        !connections.remove(addr).contains_key(addr),
        peer_at(connections.remove(addr), addr) == Peer::fresh(addr),
        forall|other: u64|
            other != addr ==> #[trigger] peer_at(connections.remove(addr), other) == peer_at(
                connections,
                other,
            ),
{
}

impl ConnectionManager {
    /// Every connection is well formed and stands under the address of its
    /// peer.
    pub open spec fn wf(&self) -> bool {
        forall|addr: u64| #[trigger]
            self@.contains_key(addr) ==> self@[addr].wf() && self@[addr].remote_addr == addr
    }

    /// A registry without connections.
    pub fn new() -> (manager: Self)
        ensures
            manager.wf(),
            manager@ == Map::<u64, Peer>::empty(),
    {
        let manager = Self { connections: HashMap::new() };
        assert(manager@ =~= Map::<u64, Peer>::empty());
        manager
    }

    /// Whether a datagram from `addr` can be taken in.
    pub fn can_handle(&self, addr: u64) -> (able: bool)
        ensures
            able == peer_at(self@, addr).can_handle(),
    {
        match self.connections.get(&addr) {
            Some(connection) => connection.can_handle(),
            None => true,
        }
    }

    /// Whether the peer at `addr` has a connection.
    pub fn is_connected(&self, addr: u64) -> (connected: bool)
        ensures
            connected == self@.contains_key(addr),
    {
        self.connections.contains_key(&addr)
    }

    /// Routes a datagram to the connection of its peer, which is made first
    /// where the peer has none, and says what the datagram calls for.
    pub fn handle_new_connection(&mut self, message: NewConnection) -> (reaction: Reaction)
        requires
            old(self).wf(),
            peer_at(old(self)@, message.1@).can_handle(),
        ensures
            final(self).wf(),
            final(self)@ == old(self)@.insert(
                message.1@,
                peer_at(old(self)@, message.1@).after(message.0.0),
            ),
            peer_at(old(self)@, message.1@).calls_for(message.0.0, reaction),
    {
        let NewConnection(packet, conn_writer) = message;
        let addr = conn_writer.to_address();
        let connection = self.connections.entry(addr).or_insert(
            PlayerConnection::new(conn_writer),
        );
        let reaction = connection.handle(IncomingRequest(packet));
        assert(self@ =~= old(self)@.insert(addr, peer_at(old(self)@, addr).after(packet.0)));
        reaction
    }

    /// Removes the connection of the peer at the given address, if there is
    /// one.
    pub fn handle_prune(&mut self, message: Prune)
        requires
            old(self).wf(),
        ensures
            final(self).wf(),
            final(self)@ == old(self)@.remove(message.0),
    {
        let Prune(addr) = message;
        self.connections.remove(&addr);
        assert(self@ =~= old(self)@.remove(addr));
    }
}

} // verus!
