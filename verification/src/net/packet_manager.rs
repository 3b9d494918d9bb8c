//! Both sequence trackers of one peer, driven together.

use crate::net::local_sequence_tracker::{dropped_by, LocalSequenceTracker, LocalSequences};
use crate::net::packet_header::PacketHeader;
use crate::net::remote_sequence_tracker::{
    reports,
    seen_after,
    within_window,
    RemoteSequenceTracker,
};
use crate::ordered_set::is_greatest;
use std::collections::BTreeSet;
use vstd::prelude::*;

verus! {

/// What a [`PacketManager`] stands for.
pub struct PacketSequences {
    /// The sending side: the next sequence number and the open ones.
    pub local: LocalSequences,
    /// The receiving side: the tracked sequence numbers of the peer.
    pub seen: Set<u32>,
}

/// The sequencing state of one peer.
pub struct PacketManager {
    local_sequence: LocalSequenceTracker,
    remote_sequence: RemoteSequenceTracker,
}

impl PacketSequences {
    /// The state before anything was sent or received.
    pub open spec fn fresh() -> PacketSequences {
        PacketSequences { local: LocalSequences::fresh(), seen: Set::<u32>::empty() }
    }

    /// Both sides are well formed.
    pub open spec fn wf(self) -> bool {
        self.local.wf() && within_window(self.seen)
    }

    /// The state after a header with these fields was received.
    pub open spec fn after_receive(self, header: PacketHeader) -> PacketSequences {
        PacketSequences {
            local: self.local.after_receive(header.ack, header.ack_bitfield),
            seen: seen_after(self.seen, header.sequence),
        }
    }

    /// The state after a datagram was sent, which was possible.
    pub open spec fn after_send(self) -> PacketSequences {
        PacketSequences { local: self.local.after_send(), seen: self.seen }
    }
}

impl View for PacketManager {
    type V = PacketSequences;

    closed spec fn view(&self) -> PacketSequences {
        PacketSequences { local: self.local_sequence@, seen: self.remote_sequence@ }
    }
}

impl PacketManager {
    /// The state is well formed.
    pub open spec fn wf(&self) -> bool {
        self@.wf()
    }

    /// The state before anything was sent or received.
    pub fn new() -> (manager: Self)
        ensures
            manager.wf(),
            manager@ == PacketSequences::fresh(),
    {
        Self {
            local_sequence: LocalSequenceTracker::new(),
            remote_sequence: RemoteSequenceTracker::new(),
        }
    }

    /// Whether [`PacketManager::send`] may be called: nothing has been
    /// received yet, so that it sends nothing, or a sequence number is left.
    pub fn can_send(&self) -> (able: bool)
        ensures
            able == (self@.seen == Set::<u32>::empty() || self@.local.next < u32::MAX),
    {
        self.remote_sequence.is_empty() || self.local_sequence.can_send()
    }

    /// Whether a sequence number is left for another datagram.
    pub fn has_sequence_left(&self) -> (left: bool)
        ensures
            left == (self@.local.next < u32::MAX),
    {
        self.local_sequence.can_send()
    }

    /// The header of the next datagram to the peer: the next sequence number
    /// with the acknowledgement of what has been received. `None`, and nothing
    /// changes, while nothing has been received.
    pub fn send(&mut self) -> (header: Option<PacketHeader>)
        requires
            old(self).wf(),
            old(self)@.seen == Set::<u32>::empty() || old(self)@.local.next < u32::MAX,
        ensures
            final(self).wf(),
            header is Some <==> old(self)@.seen != Set::<u32>::empty(),
            match header {
                Some(sent) => {
                    &&& sent.sequence == old(self)@.local.next
                    &&& is_greatest(old(self)@.seen, sent.ack)
                    &&& reports(old(self)@.seen, sent.ack_bitfield)
                    &&& final(self)@ == old(self)@.after_send()
                },
                None => old(self)@.seen == Set::<u32>::empty() && final(self)@ == old(self)@,
            },
    {
        let (ack, ack_bitfield) = match self.remote_sequence.on_send() {
            Some(acknowledgement) => acknowledgement,
            None => {
                return None;
            },
        };
        let header = self.local_sequence.on_send(ack, ack_bitfield);
        Some(header)
    }

    /// Takes a received header: its sequence number is recorded as seen, and
    /// its acknowledgement settles the open sequence numbers. Returns those
    /// that the peer has given up, if any.
    pub fn receive(&mut self, packet_header: &PacketHeader) -> (dropped: Option<BTreeSet<u32>>)
        requires
            old(self).wf(),
        ensures
            final(self).wf(),
            final(self)@ == old(self)@.after_receive(*packet_header),
            final(self)@.seen != Set::<u32>::empty(),
            match dropped {
                Some(lost) => lost@ == dropped_by(old(self)@.local.unacked, packet_header.ack)
                    && lost@ != Set::<u32>::empty(),
                None => dropped_by(old(self)@.local.unacked, packet_header.ack) == Set::<
                    u32,
                >::empty(),
            },
    {
        self.remote_sequence.on_receive(packet_header.sequence);
        self.local_sequence.on_receive(packet_header)
    }
}

} // verus!
