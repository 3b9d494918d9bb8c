//! Sequence numbers of what this side sends, and which of them the peer has
//! acknowledged, which it has given up on, and which are still open.

use crate::bits::{get_bit, has_bit, WINDOW};
use crate::net::packet_header::PacketHeader;
use crate::ordered_set::{first, pop_first};
use std::collections::BTreeSet;
use vstd::prelude::*;

verus! {

/// What a [`LocalSequenceTracker`] stands for.
pub struct LocalSequences {
    /// The sequence number that the next datagram gets.
    pub next: u32,
    /// Sequence numbers sent and neither acknowledged nor given up.
    pub unacked: Set<u32>,
}

/// Sequence numbers below this one are given up once `ack` arrives.
pub open spec fn drop_floor(ack: u32) -> u32 {
    if ack > WINDOW {
        (ack - WINDOW) as u32
    } else {
        ack
    }
}

/// Position of `sequence` in the bitfield that comes with `ack`.
pub open spec fn ack_index(sequence: u32, ack: u32) -> int {
    (if ack < WINDOW {
        ack
    } else {
        WINDOW
    }) + sequence - ack
}

/// Whether a header with `ack` and `ack_bitfield` acknowledges `sequence`:
/// its position lies inside the bitfield, and it is `ack` itself or its bit
/// is set.
pub open spec fn is_acked(sequence: u32, ack: u32, ack_bitfield: u32) -> bool {
    let index = ack_index(sequence, ack);
    0 <= index < WINDOW && (sequence == ack || has_bit(ack_bitfield, index as u32))
}

/// The open sequence numbers that a header with `ack` declares lost.
pub open spec fn dropped_by(unacked: Set<u32>, ack: u32) -> Set<u32> {
    unacked.filter(|s: u32| s < drop_floor(ack))
}

/// The sequence numbers that stay open after a header with `ack` and
/// `ack_bitfield`: neither lost nor acknowledged.
pub open spec fn unacked_after(unacked: Set<u32>, ack: u32, ack_bitfield: u32) -> Set<u32> {
    unacked.filter(|s: u32| s >= drop_floor(ack) && !is_acked(s, ack, ack_bitfield))
}

impl LocalSequences {
    /// The state before anything was sent.
    pub open spec fn fresh() -> LocalSequences {
        LocalSequences { next: 0, unacked: Set::<u32>::empty() }
    }

    /// Every open sequence number has been issued, and they are finitely many.
    pub open spec fn wf(self) -> bool {
        &&& self.unacked.finite()
        &&& forall|s: u32| self.unacked.contains(s) ==> s < self.next
    }

    /// The state after one more datagram was sent: the next sequence number
    /// was issued and is open.
    pub open spec fn after_send(self) -> LocalSequences {
        LocalSequences { next: (self.next + 1) as u32, unacked: self.unacked.insert(self.next) }
    }

    /// The state after a header with `ack` and `ack_bitfield` was received.
    pub open spec fn after_receive(self, ack: u32, ack_bitfield: u32) -> LocalSequences {
        LocalSequences {
            next: self.next,
            unacked: unacked_after(self.unacked, ack, ack_bitfield),
        }
    }
}

/// One thing that happens to the sending side.
pub enum LocalEvent {
    /// A datagram was sent.
    Sent,
    /// A header with this acknowledgement was received.
    Received { ack: u32, ack_bitfield: u32 },
}

impl LocalSequences {
    /// The state after `event`.
    pub open spec fn after(self, event: LocalEvent) -> LocalSequences {
        match event {
            LocalEvent::Sent => self.after_send(),
            LocalEvent::Received { ack, ack_bitfield } => self.after_receive(ack, ack_bitfield),
        }
    }

    /// The state after `events`, first to last.
    pub open spec fn after_all(self, events: Seq<LocalEvent>) -> LocalSequences
        decreases events.len(),
    {
        if events.len() == 0 {
            self
        } else {
            self.after_all(events.drop_last()).after(events.last())
        }
    }
}

/// Number of datagrams sent in the course of `events`.
pub open spec fn sends_in(events: Seq<LocalEvent>) -> nat
    decreases events.len(),
{
    if events.len() == 0 {
        0
    } else {
        sends_in(events.drop_last()) + if events.last() is Sent {
            1nat
        } else {
            0nat
        }
    }
}

/// Sequence numbers count the datagrams sent: after any course of sends and
/// receipts from the fresh state, the next sequence number is the number of
/// datagrams sent so far. So the first datagram gets 0 and each later one the
/// successor of the one before, whatever was received in between.
pub proof fn lemma_next_sequence_counts_sends(events: Seq<LocalEvent>)
    requires
        sends_in(events) <= u32::MAX,
    ensures
        LocalSequences::fresh().after_all(events).next == sends_in(events),
        LocalSequences::fresh().after_all(events).wf(),
    decreases events.len(),
{
    if events.len() > 0 {
        lemma_next_sequence_counts_sends(events.drop_last());
        let before = LocalSequences::fresh().after_all(events.drop_last());
        match events.last() {
            LocalEvent::Sent => {},
            LocalEvent::Received { ack, ack_bitfield } => {
                assert(before.after_receive(ack, ack_bitfield).unacked.subset_of(before.unacked));
            },
        }
    }
}

/// A longer course of events has sent at least as much as each of its
/// beginnings.
pub proof fn lemma_sends_in_beginning(events: Seq<LocalEvent>, length: int)
    requires
        0 <= length <= events.len(),
    ensures
        sends_in(events.take(length)) <= sends_in(events),
        length < events.len() && events[length] is Sent ==> sends_in(events.take(length))
            < sends_in(events),
    decreases events.len(),
{
    if length == events.len() {
        assert(events.take(length) =~= events);
    } else {
        let shorter = events.drop_last();
        assert(shorter.take(length) =~= events.take(length));
        if length < shorter.len() {
            lemma_sends_in_beginning(shorter, length);
            assert(shorter[length] == events[length]);
        } else {
            assert(shorter.take(length) =~= shorter);
            assert(events.last() == events[length]);
        }
    }
}

/// Sequence numbers rise strictly: of two datagrams sent in one course of
/// events from the fresh state, the later one carries the higher sequence
/// number.
pub proof fn lemma_sequence_numbers_rise(events: Seq<LocalEvent>, earlier: int, later: int)
    requires
        0 <= earlier < later < events.len(),
        events[earlier] is Sent,
        events[later] is Sent,
        sends_in(events) <= u32::MAX,
    ensures
        LocalSequences::fresh().after_all(events.take(earlier)).next
            < LocalSequences::fresh().after_all(events.take(later)).next,
{
    let upto_later = events.take(later);
    lemma_sends_in_beginning(events, later);
    assert(upto_later.take(earlier) =~= events.take(earlier));
    assert(upto_later[earlier] == events[earlier]);
    lemma_sends_in_beginning(upto_later, earlier);
    lemma_next_sequence_counts_sends(upto_later);
    lemma_next_sequence_counts_sends(events.take(earlier));
}

/// Whether a header with `ack` and `ack_bitfield` confirms `sequence`: it is
/// `ack` itself, or it has a position in the bitfield and its bit is set.
pub open spec fn confirms(sequence: u32, ack: u32, ack_bitfield: u32) -> bool {
    sequence == ack || (0 <= ack_index(sequence, ack) < WINDOW && has_bit(
        ack_bitfield,
        ack_index(sequence, ack) as u32,
    ))
}

/// A header that confirms every open sequence number reports no loss,
/// provided that `ack` exceeds the window's width or that no open sequence
/// number lies below `ack`.
pub proof fn lemma_all_confirmed_none_dropped(unacked: Set<u32>, ack: u32, ack_bitfield: u32)
    requires
        forall|s: u32| unacked.contains(s) ==> confirms(s, ack, ack_bitfield),
        ack > WINDOW || forall|s: u32| unacked.contains(s) ==> s >= ack,
    ensures
        dropped_by(unacked, ack) == Set::<u32>::empty(),
{
    assert forall|s: u32| unacked.contains(s) implies s >= drop_floor(ack) by {
        assert(confirms(s, ack, ack_bitfield));
    }
    assert(dropped_by(unacked, ack) =~= Set::<u32>::empty());
}

/// Whether the peer has kept step so far: at most the datagram sent last is
/// open, and only because it lies beyond the bitfield of its own
/// acknowledgement.
pub open spec fn in_step(state: LocalSequences) -> bool {
    forall|s: u32| state.unacked.contains(s) ==> s + 1 == state.next && s >= WINDOW
}

/// A peer that keeps step causes no loss to be reported. Let each datagram
/// be answered, before the next is sent, by a header that acknowledges it and
/// whose highest bit confirms the still open datagram before it, if there is
/// one. Then that header reports no loss, and the peer has kept step again.
pub proof fn lemma_in_step_none_dropped(state: LocalSequences, ack_bitfield: u32)
    requires
        state.wf(),
        in_step(state),
        state.next < u32::MAX,
        state.unacked != Set::<u32>::empty() ==> has_bit(ack_bitfield, (WINDOW - 1) as u32),
    ensures
        in_step(LocalSequences::fresh()),
        dropped_by(state.after_send().unacked, state.next) == Set::<u32>::empty(),
        in_step(state.after_send().after_receive(state.next, ack_bitfield)),
{
    let sent = state.after_send();
    let ack = state.next;
    assert(dropped_by(sent.unacked, ack) =~= Set::<u32>::empty());
    let settled = sent.after_receive(ack, ack_bitfield);
    assert forall|s: u32| settled.unacked.contains(s) implies s + 1 == settled.next && s
        >= WINDOW by {
        if s != ack {
            assert(state.unacked.contains(s));
            assert(ack_index(s, ack) == WINDOW - 1);
        }
    }
}

/// No open sequence number is forgotten: a received header parts them into
/// those that stay open, those reported lost, which lie below the floor, and
/// those acknowledged, which do not; and nothing else is reported lost or
/// stays open.
pub proof fn lemma_open_sequences_are_accounted_for(unacked: Set<u32>, ack: u32, ack_bitfield: u32)
    ensures
        unacked_after(unacked, ack, ack_bitfield).subset_of(unacked),
        dropped_by(unacked, ack).subset_of(unacked),
        unacked_after(unacked, ack, ack_bitfield).disjoint(dropped_by(unacked, ack)),
        forall|s: u32| #[trigger]
            unacked.contains(s) ==> {
                ||| unacked_after(unacked, ack, ack_bitfield).contains(s)
                ||| dropped_by(unacked, ack).contains(s) && s < drop_floor(ack)
                ||| is_acked(s, ack, ack_bitfield) && s >= drop_floor(ack)
            },
        forall|s: u32| #[trigger]
            dropped_by(unacked, ack).contains(s) ==> s < drop_floor(ack),
        forall|s: u32| #[trigger]
            unacked_after(unacked, ack, ack_bitfield).contains(s) ==> !is_acked(
                s,
                ack,
                ack_bitfield,
            ) && s >= drop_floor(ack),
{
}

/// Sending forgets no open sequence number.
pub proof fn lemma_send_keeps_open_sequences(state: LocalSequences)
    ensures
        state.unacked.subset_of(state.after_send().unacked),
        state.after_send().unacked.contains(state.next),
{
}

/// Issues sequence numbers and follows what becomes of each.
pub struct LocalSequenceTracker {
    local_sequence: u32,
    unacked_packets: BTreeSet<u32>,
}

impl View for LocalSequenceTracker {
    type V = LocalSequences;

    closed spec fn view(&self) -> LocalSequences {
        LocalSequences { next: self.local_sequence, unacked: self.unacked_packets@ }
    }
}

impl LocalSequenceTracker {
    /// The state is well formed.
    pub open spec fn wf(&self) -> bool {
        self@.wf()
    }

    /// A tracker that has sent nothing.
    pub fn new() -> (tracker: Self)
        ensures
            tracker.wf(),
            tracker@ == LocalSequences::fresh(),
    {
        Self { local_sequence: 0, unacked_packets: BTreeSet::new() }
    }

    /// Whether another sequence number can be issued.
    pub fn can_send(&self) -> (able: bool)
        ensures
            able == (self@.next < u32::MAX),
    {
        self.local_sequence < u32::MAX
    }

    /// Issues the next sequence number in a header that carries the given
    /// acknowledgement, and keeps the number as open.
    pub fn on_send(&mut self, ack: u32, ack_bitfield: u32) -> (header: PacketHeader)
        requires
            old(self).wf(),
            old(self)@.next < u32::MAX,
        ensures
            final(self).wf(),
            header == (PacketHeader { sequence: old(self)@.next, ack, ack_bitfield }),
            final(self)@ == old(self)@.after_send(),
    {
        let result = PacketHeader { sequence: self.local_sequence, ack, ack_bitfield };
        self.unacked_packets.insert(self.local_sequence);
        self.local_sequence += 1;
        result
    }

    /// Takes the peer's acknowledgement from a received header.
    ///
    /// Open sequence numbers below the floor of `ack` are given up: they leave
    /// the open set and are returned. Of the others, those that the header
    /// acknowledges leave the open set silently. The result is `None` when
    /// nothing was given up.
    pub fn on_receive(&mut self, packet_header: &PacketHeader) -> (dropped: Option<BTreeSet<u32>>)
        requires
            old(self).wf(),
        ensures
            final(self).wf(),
            final(self)@ == old(self)@.after_receive(packet_header.ack, packet_header.ack_bitfield),
            match dropped {
                Some(lost) => lost@ == dropped_by(old(self)@.unacked, packet_header.ack)
                    && lost@ != Set::<u32>::empty(),
                None => dropped_by(old(self)@.unacked, packet_header.ack) == Set::<u32>::empty(),
            },
    {
        let mut result = None;

        let min_sequence = if packet_header.ack > WINDOW {
            packet_header.ack - WINDOW
        } else {
            packet_header.ack
        };
        let ghost before = self.unacked_packets@;

        let any_below = match first(&self.unacked_packets) {
            Some(least) => *least < min_sequence,
            None => false,
        };
        if any_below {
            let mut dropped_packets = BTreeSet::new();
            loop
                invariant
                    before.finite(),
                    self.local_sequence == old(self).local_sequence,
                    self.unacked_packets@.subset_of(before),
                    dropped_packets@.subset_of(dropped_by(before, packet_header.ack)),
                    min_sequence == drop_floor(packet_header.ack),
                    forall|s: u32|
                        before.contains(s) && !self.unacked_packets@.contains(s)
                            ==> dropped_packets@.contains(s),
                ensures
                    dropped_packets@ == dropped_by(before, packet_header.ack),
                    self.unacked_packets@ == before.difference(dropped_packets@),
                decreases self.unacked_packets@.len(),
            {
                let below = match first(&self.unacked_packets) {
                    Some(least) => *least < min_sequence,
                    None => false,
                };
                if !below {
                    assert(dropped_packets@ =~= dropped_by(before, packet_header.ack));
                    assert(self.unacked_packets@ =~= before.difference(dropped_packets@));
                    break;
                }
                proof {
                    vstd::set_lib::lemma_len_subset(self.unacked_packets@, before);
                }
                let taken = pop_first(&mut self.unacked_packets);
                dropped_packets.insert(taken.unwrap());
            }
            result = Some(dropped_packets);
        } else {
            assert(dropped_by(before, packet_header.ack) =~= Set::<u32>::empty());
            assert(self.unacked_packets@ =~= before.difference(Set::<u32>::empty()));
        }

        retain_unacked(&mut self.unacked_packets, packet_header);
        assert(self.unacked_packets@ =~= unacked_after(
            before,
            packet_header.ack,
            packet_header.ack_bitfield,
        ));
        result
    }

    /// Whether a sequence number stays open under the acknowledgement of
    /// `packet_header`: its position lies beyond the bitfield, or it is neither
    /// the acknowledged number nor marked in the bitfield.
    pub fn stays_unacked(sequence: u32, packet_header: &PacketHeader) -> (stays: bool)
        requires
            ack_index(sequence, packet_header.ack) >= 0,
        ensures
            stays == !is_acked(sequence, packet_header.ack, packet_header.ack_bitfield),
    {
        let index = Self::get_ack_index_from_sequence(sequence, packet_header.ack);
        if index >= WINDOW as usize {
            return true;
        }
        let is_ack = sequence == packet_header.ack;
        let is_in_bitfield = get_bit(packet_header.ack_bitfield, index);
        !is_ack && !is_in_bitfield
    }

    /// Position of `sequence` in the bitfield that comes with
    /// `remote_sequence` as acknowledgement.
    pub fn get_ack_index_from_sequence(sequence: u32, remote_sequence: u32) -> (index: usize)
        requires
            ack_index(sequence, remote_sequence) >= 0,
        ensures
            index == ack_index(sequence, remote_sequence),
    {
        let width: u64 = if remote_sequence < WINDOW {
            remote_sequence as u64
        } else {
            WINDOW as u64
        };
        (width + sequence as u64 - remote_sequence as u64) as usize
    }
}

/// Keeps the sequence numbers that stay open, through `BTreeSet::retain`.
///
/// Trusted: the call removes exactly the elements for which the closure
/// returns `false`, and the closure is one call of
/// [`LocalSequenceTracker::stays_unacked`], whose precondition holds of every
/// element.
#[verifier::external_body]
fn retain_unacked(unacked: &mut BTreeSet<u32>, packet_header: &PacketHeader)
    requires
        forall|s: u32| old(unacked)@.contains(s) ==> ack_index(s, packet_header.ack) >= 0,
    ensures
        final(unacked)@ == old(unacked)@.filter(
            |s: u32| !is_acked(s, packet_header.ack, packet_header.ack_bitfield),
        ),
{
    unacked.retain(|val| LocalSequenceTracker::stays_unacked(*val, packet_header));
}

} // verus!
