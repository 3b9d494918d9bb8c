use bytes::{BufMut, BytesMut};
use reliable_udp::connection_manager::{ConnectionManager, NewConnection, Prune};
use reliable_udp::net::{
    ConnectionReader, ConnectionWriter, Packet, PacketHeader, ToPacketHeaderError,
};
use reliable_udp::player_connection::{IncomingRequest, PlayerConnection, IDLE_TIMEOUT_SECS};
use reliable_udp::server::Server;
use std::collections::BTreeSet;

fn datagram(sequence: u32, ack: u32, ack_bitfield: u32) -> Packet {
    Packet(PacketHeader { sequence, ack, ack_bitfield })
}

#[test]
pub fn connection_answers_each_datagram() {
    let mut connection = PlayerConnection::new(ConnectionWriter::new(77));
    assert_eq!(connection.to_address(), 77);
    assert!(connection.can_handle());

    let reaction = connection.handle(IncomingRequest(datagram(0, 0, 0)));
    assert_eq!(reaction.dropped, None);
    assert_eq!(reaction.reply.0.sequence, 0);
    assert_eq!(reaction.reply.0.ack, 0);
    assert_eq!(reaction.reply.0.ack_bitfield, 0b1);
    assert_eq!(reaction.to_address, 77);
    assert_eq!(reaction.idle_timeout_secs, 10);
    assert_eq!(IDLE_TIMEOUT_SECS, 10);
    assert_eq!(reaction.on_idle.0, 77);

    let reaction = connection.handle(IncomingRequest(datagram(2, 0, 0b1)));
    assert_eq!(reaction.dropped, None);
    assert_eq!(reaction.reply.0.sequence, 1);
    assert_eq!(reaction.reply.0.ack, 2);
    assert_eq!(reaction.reply.0.ack_bitfield, 0b101);
}

#[test]
pub fn connection_reports_drops() {
    let mut connection = PlayerConnection::new(ConnectionWriter::new(1));
    for sequence in 0u32..45 {
        let reaction = connection.handle(IncomingRequest(datagram(sequence, 0, 0)));
        assert_eq!(reaction.reply.0.sequence, sequence);
        // Ack 0 with floor 0 never reports a loss, and retires only number 0.
        assert_eq!(reaction.dropped, None);
    }
    let reaction = connection.handle(IncomingRequest(datagram(45, 44, 0)));
    assert_eq!(reaction.dropped, Some((1u32..12).collect::<BTreeSet<u32>>()));
    assert_eq!(reaction.reply.0.sequence, 45);
    assert_eq!(reaction.reply.0.ack, 45);
}

#[test]
pub fn registry_keeps_one_connection_per_address() {
    let mut registry = ConnectionManager::new();
    assert!(!registry.is_connected(1));
    assert!(registry.can_handle(1));

    let first = registry.handle_new_connection(NewConnection(datagram(0, 0, 0), ConnectionWriter::new(1)));
    assert_eq!((first.reply.0.sequence, first.to_address), (0, 1));
    assert!(registry.is_connected(1));
    assert!(!registry.is_connected(2));

    let other = registry.handle_new_connection(NewConnection(datagram(9, 0, 0), ConnectionWriter::new(2)));
    assert_eq!((other.reply.0.sequence, other.reply.0.ack, other.to_address), (0, 9, 2));

    let second = registry.handle_new_connection(NewConnection(datagram(1, 0, 0), ConnectionWriter::new(1)));
    assert_eq!(second.reply.0.sequence, 1);
    assert_eq!(second.reply.0.ack, 1);
    assert_eq!(second.reply.0.ack_bitfield, 0b11);
    assert!(registry.is_connected(1));
    assert!(registry.is_connected(2));
}

#[test]
pub fn idle_peer_is_removed_and_starts_afresh() {
    let mut registry = ConnectionManager::new();
    let address = 0xC0A8_0001_1F90u64;
    let mut last = None;
    for sequence in 0u32..5 {
        let reaction = registry
            .handle_new_connection(NewConnection(datagram(sequence, 0, 0), ConnectionWriter::new(address)));
        assert_eq!(reaction.reply.0.sequence, sequence);
        assert_eq!(reaction.idle_timeout_secs, 10);
        last = Some(reaction);
    }
    registry.handle_new_connection(NewConnection(datagram(0, 0, 0), ConnectionWriter::new(5)));

    // The idle timer fires and delivers what the last reaction set it up with.
    let on_idle = last.unwrap().on_idle;
    assert_eq!(on_idle.0, address);
    registry.handle_prune(on_idle);
    assert!(!registry.is_connected(address));
    assert!(registry.is_connected(5));

    let reaction = registry
        .handle_new_connection(NewConnection(datagram(30, 0, 0), ConnectionWriter::new(address)));
    assert!(registry.is_connected(address));
    assert_eq!(reaction.reply.0.sequence, 0);
    assert_eq!(reaction.reply.0.ack, 30);
    assert_eq!(reaction.reply.0.ack_bitfield, 1 << 30);
}

#[test]
pub fn removing_an_unknown_peer_changes_nothing() {
    let mut registry = ConnectionManager::new();
    registry.handle_new_connection(NewConnection(datagram(0, 0, 0), ConnectionWriter::new(1)));
    registry.handle_prune(Prune(2));
    assert!(registry.is_connected(1));
    assert!(!registry.is_connected(2));
    let reaction =
        registry.handle_new_connection(NewConnection(datagram(1, 0, 0), ConnectionWriter::new(1)));
    assert_eq!(reaction.reply.0.sequence, 1);
}

#[test]
pub fn writer_frames_the_encoding() {
    let writer = ConnectionWriter::new(3);
    assert_eq!(writer.to_address(), 3);
    let bytes = writer.frame(datagram(10, 100, 1000));
    assert_eq!(
        &bytes[..],
        &[0x29, 0x60, 0xC0, 0xCD, 0, 0, 0, 10, 0, 0, 0, 100, 0, 0, 0x03, 0xE8][..]
    );
}

#[test]
pub fn reader_takes_one_datagram_at_a_time() {
    let mut reader = ConnectionReader::new();
    assert_eq!(reader.buffer.len(), 0);
    reader.buffer.put_slice(&ConnectionWriter::new(0).frame(datagram(7, 8, 9)));
    reader.buffer.put_slice(b"payload");
    let (Packet(header), writer) = reader.receive(42).unwrap();
    assert_eq!((header.sequence, header.ack, header.ack_bitfield), (7, 8, 9));
    assert_eq!(writer.to_address(), 42);
    assert_eq!(reader.buffer.len(), 0);

    // A datagram that is refused leaves nothing behind for the next one.
    reader.buffer.put_slice(&[1, 2, 3]);
    assert!(matches!(
        reader.receive(42),
        Err(ToPacketHeaderError::TooSmall { expected_min: 16, actual: 3 })
    ));
    assert_eq!(reader.buffer.len(), 0);
    reader.buffer.put_slice(&[0u8; 20]);
    assert!(matches!(
        reader.receive(42),
        Err(ToPacketHeaderError::InvalidProtocolId { expected: 694206669, actual: 0 })
    ));
    assert_eq!(reader.buffer.len(), 0);
    reader.buffer.put_slice(&ConnectionWriter::new(0).frame(datagram(1, 2, 3)));
    let (Packet(header), _) = reader.receive(43).unwrap();
    assert_eq!(header.sequence, 1);
}

#[test]
pub fn server_routes_datagrams_to_the_registry() {
    let mut server = Server::new();
    let mut registry = ConnectionManager::new();

    let mut incoming = BytesMut::new();
    datagram(0, 0, 0).serialize(&mut incoming);
    server.conn_reader.buffer.put_slice(&incoming);
    let message = server.route(9).unwrap();
    assert_eq!(message.1.to_address(), 9);
    let reaction = registry.handle_new_connection(message);
    assert_eq!(reaction.to_address, 9);
    assert_eq!(reaction.reply.0.ack, 0);

    server.conn_reader.buffer.put_slice(b"not a header");
    assert!(server.route(9).is_err());
    assert_eq!(server.conn_reader.buffer.len(), 0);
}
