use reliable_udp::net::{PacketHeader, PacketManager};
use std::collections::BTreeSet;

#[test]
pub fn manager_sends_nothing_before_first_receipt() {
    let mut manager = PacketManager::new();
    assert!(manager.can_send());
    assert!(manager.has_sequence_left());
    assert!(manager.send().is_none());
    // Nothing was issued: the first datagram still gets sequence number 0.
    manager.receive(&PacketHeader { sequence: 4, ack: 0, ack_bitfield: 0 });
    let header = manager.send().unwrap();
    assert_eq!(header.sequence, 0);
    assert_eq!(header.ack, 4);
    assert_eq!(header.ack_bitfield, 0b10000);
}

#[test]
pub fn manager_acknowledges_what_it_received() {
    let mut manager = PacketManager::new();
    for sequence in [0u32, 1, 3] {
        assert_eq!(
            manager.receive(&PacketHeader { sequence, ack: 0, ack_bitfield: 0 }),
            None
        );
    }
    let first = manager.send().unwrap();
    assert_eq!((first.sequence, first.ack, first.ack_bitfield), (0, 3, 0b1011));
    let second = manager.send().unwrap();
    assert_eq!((second.sequence, second.ack, second.ack_bitfield), (1, 3, 0b1011));
}

#[test]
pub fn manager_reports_drops_of_its_own_datagrams() {
    let mut manager = PacketManager::new();
    manager.receive(&PacketHeader { sequence: 0, ack: 0, ack_bitfield: 0 });
    for expected in 0u32..45 {
        assert_eq!(manager.send().unwrap().sequence, expected);
    }
    let dropped = manager.receive(&PacketHeader { sequence: 1, ack: 44, ack_bitfield: 0 });
    assert_eq!(dropped, Some((0u32..12).collect::<BTreeSet<u32>>()));
    let header = manager.send().unwrap();
    assert_eq!((header.sequence, header.ack, header.ack_bitfield), (45, 1, 0b11));
}
