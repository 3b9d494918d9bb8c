use bit_field::BitField;
use reliable_udp::net::local_sequence_tracker::LocalSequenceTracker;
use reliable_udp::net::PacketHeader;
use std::collections::BTreeSet;

#[test]
pub fn on_send_increments_sequence() {
    let mut tracker = LocalSequenceTracker::new();
    let packet = tracker.on_send(0, 0);
    assert_eq!(packet.sequence, 0);
    let packet = tracker.on_send(0, 0);
    assert_eq!(packet.sequence, 1);
    let packet = tracker.on_send(0, 0);
    assert_eq!(packet.sequence, 2);
    let packet = tracker.on_send(0, 0);
    assert_eq!(packet.sequence, 3);
}

#[test]
pub fn does_not_drop_packets() {
    let mut tracker = LocalSequenceTracker::new();

    for i in 0u32..10 {
        tracker.on_send(0, 0);
        let mut ack_bitfield = 0u32;
        for j in 0..=i as usize {
            ack_bitfield.set_bit(j, true);
        }
        let in_packet = PacketHeader {
            sequence: i,
            ack: i,
            ack_bitfield,
        };
        assert_eq!(tracker.on_receive(&in_packet), None);
    }
}

#[test]
pub fn drops_packets() {
    let mut tracker = LocalSequenceTracker::new();

    for _ in 0..45 {
        tracker.on_send(0, 0);
    }

    let in_packet = PacketHeader {
        sequence: 44,
        ack: 44,
        // pretend we haven't gotten ANY packets other than the most recent one
        ack_bitfield: 0,
    };
    assert_eq!(
        tracker.on_receive(&in_packet),
        Some(BTreeSet::from([0, 1, 2, 3, 4, 5, 6, 7, 8, 9, 10, 11]))
    );
}

#[test]
pub fn on_send_carries_the_acknowledgement() {
    let mut tracker = LocalSequenceTracker::new();
    let packet = tracker.on_send(17, 0b1011);
    assert_eq!(packet.sequence, 0);
    assert_eq!(packet.ack, 17);
    assert_eq!(packet.ack_bitfield, 0b1011);
    assert!(tracker.can_send());
}

#[test]
pub fn sequences_keep_counting_across_receipts() {
    let mut tracker = LocalSequenceTracker::new();
    for expected in 0u32..100 {
        let packet = tracker.on_send(0, 0);
        assert_eq!(packet.sequence, expected);
        if expected % 3 == 0 {
            let in_packet = PacketHeader { sequence: 0, ack: expected, ack_bitfield: u32::MAX };
            tracker.on_receive(&in_packet);
        }
    }
}

#[test]
pub fn unacknowledged_survivors_are_dropped_later() {
    let mut tracker = LocalSequenceTracker::new();
    for _ in 0..45 {
        tracker.on_send(0, 0);
    }
    let first = PacketHeader { sequence: 0, ack: 44, ack_bitfield: 0 };
    assert_eq!(tracker.on_receive(&first), Some((0u32..12).collect::<BTreeSet<u32>>()));
    // Nothing in the window was acknowledged, so 12..=44 are still open.
    let second = PacketHeader { sequence: 1, ack: 1000, ack_bitfield: 0 };
    assert_eq!(tracker.on_receive(&second), Some((12u32..45).collect::<BTreeSet<u32>>()));
    let third = PacketHeader { sequence: 2, ack: 2000, ack_bitfield: 0 };
    assert_eq!(tracker.on_receive(&third), None);
}

#[test]
pub fn acknowledged_sequences_leave_without_report() {
    let mut tracker = LocalSequenceTracker::new();
    for _ in 0..45 {
        tracker.on_send(0, 0);
    }
    // Floor is 12; bit i stands for 12 + i. Acknowledge 12, 13 and 43.
    let mut ack_bitfield = 0u32;
    ack_bitfield.set_bit(0, true);
    ack_bitfield.set_bit(1, true);
    ack_bitfield.set_bit(31, true);
    let first = PacketHeader { sequence: 0, ack: 44, ack_bitfield };
    assert_eq!(tracker.on_receive(&first), Some((0u32..12).collect::<BTreeSet<u32>>()));
    let second = PacketHeader { sequence: 1, ack: 1000, ack_bitfield: 0 };
    let mut expected: BTreeSet<u32> = (14u32..43).collect();
    expected.insert(44);
    assert_eq!(tracker.on_receive(&second), Some(expected));
}

#[test]
pub fn acknowledged_number_beyond_the_window_stays_open() {
    let mut tracker = LocalSequenceTracker::new();
    for _ in 0..41 {
        tracker.on_send(0, 0);
    }
    // With ack 40 the floor is 8 and 40 itself has position 32: it stays.
    let first = PacketHeader { sequence: 0, ack: 40, ack_bitfield: u32::MAX };
    assert_eq!(tracker.on_receive(&first), Some((0u32..8).collect::<BTreeSet<u32>>()));
    let second = PacketHeader { sequence: 1, ack: 1000, ack_bitfield: 0 };
    assert_eq!(tracker.on_receive(&second), Some(BTreeSet::from([40])));
}

#[test]
pub fn small_ack_drops_everything_below_it() {
    let mut tracker = LocalSequenceTracker::new();
    tracker.on_send(0, 0);
    tracker.on_send(0, 0);
    // The bitfield marks sequence 0, yet the floor for ack 1 is 1 itself.
    let in_packet = PacketHeader { sequence: 0, ack: 1, ack_bitfield: 0b11 };
    assert_eq!(tracker.on_receive(&in_packet), Some(BTreeSet::from([0])));
    let later = PacketHeader { sequence: 1, ack: 1000, ack_bitfield: 0 };
    assert_eq!(tracker.on_receive(&later), None);
}

#[test]
pub fn ack_of_window_width_uses_itself_as_floor() {
    let mut tracker = LocalSequenceTracker::new();
    for _ in 0..34 {
        tracker.on_send(0, 0);
    }
    let in_packet = PacketHeader { sequence: 0, ack: 32, ack_bitfield: 0 };
    assert_eq!(tracker.on_receive(&in_packet), Some((0u32..32).collect::<BTreeSet<u32>>()));
    // 32 and 33 have positions 32 and 33 and stay open.
    let later = PacketHeader { sequence: 1, ack: 1000, ack_bitfield: 0 };
    assert_eq!(tracker.on_receive(&later), Some(BTreeSet::from([32, 33])));
}

#[test]
pub fn receipt_on_fresh_tracker_reports_nothing() {
    let mut tracker = LocalSequenceTracker::new();
    let in_packet = PacketHeader { sequence: 5, ack: 500, ack_bitfield: 7 };
    assert_eq!(tracker.on_receive(&in_packet), None);
    assert_eq!(tracker.on_send(1, 2).sequence, 0);
}

#[test]
pub fn ack_index_follows_the_formula() {
    assert_eq!(LocalSequenceTracker::get_ack_index_from_sequence(12, 44), 0);
    assert_eq!(LocalSequenceTracker::get_ack_index_from_sequence(40, 44), 28);
    assert_eq!(LocalSequenceTracker::get_ack_index_from_sequence(44, 44), 32);
    assert_eq!(LocalSequenceTracker::get_ack_index_from_sequence(50, 44), 38);
    assert_eq!(LocalSequenceTracker::get_ack_index_from_sequence(5, 3), 5);
    assert_eq!(LocalSequenceTracker::get_ack_index_from_sequence(0, 0), 0);
    assert_eq!(LocalSequenceTracker::get_ack_index_from_sequence(32, 32), 32);
    assert_eq!(
        LocalSequenceTracker::get_ack_index_from_sequence(u32::MAX, 0),
        u32::MAX as usize
    );
}

#[test]
pub fn stays_unacked_reads_the_bitfield() {
    let header = PacketHeader { sequence: 0, ack: 44, ack_bitfield: 0b101 };
    assert!(!LocalSequenceTracker::stays_unacked(12, &header));
    assert!(LocalSequenceTracker::stays_unacked(13, &header));
    assert!(!LocalSequenceTracker::stays_unacked(14, &header));
    assert!(LocalSequenceTracker::stays_unacked(44, &header));
    assert!(LocalSequenceTracker::stays_unacked(45, &header));
    let small = PacketHeader { sequence: 0, ack: 3, ack_bitfield: 0 };
    assert!(!LocalSequenceTracker::stays_unacked(3, &small));
    assert!(LocalSequenceTracker::stays_unacked(4, &small));
}

#[test]
pub fn confirmed_window_reports_no_loss() {
    let mut tracker = LocalSequenceTracker::new();
    for _ in 0..50 {
        tracker.on_send(0, 0);
    }
    let first = PacketHeader { sequence: 0, ack: 49, ack_bitfield: 0 };
    assert_eq!(tracker.on_receive(&first), Some((0u32..17).collect::<BTreeSet<u32>>()));
    // 17..=49 are open, and this header confirms each of them.
    let second = PacketHeader { sequence: 1, ack: 49, ack_bitfield: u32::MAX };
    assert_eq!(tracker.on_receive(&second), None);
    // Only 49 stayed open: it lies beyond the bitfield of its own acknowledgement.
    let third = PacketHeader { sequence: 2, ack: 1000, ack_bitfield: 0 };
    assert_eq!(tracker.on_receive(&third), Some(BTreeSet::from([49])));
}

#[test]
pub fn peer_in_step_never_causes_a_report() {
    let mut tracker = LocalSequenceTracker::new();
    for i in 0u32..200 {
        let sent = tracker.on_send(0, 0);
        assert_eq!(sent.sequence, i);
        let in_packet = PacketHeader { sequence: i, ack: i, ack_bitfield: 1 << 31 };
        assert_eq!(tracker.on_receive(&in_packet), None);
    }
    // At most the datagram sent last is still open.
    let late = PacketHeader { sequence: 200, ack: 5000, ack_bitfield: 0 };
    assert_eq!(tracker.on_receive(&late), Some(BTreeSet::from([199])));
}
