use bytes::{BufMut, Bytes, BytesMut};
use reliable_udp::packet_header::{PacketHeader, ToPacketHeaderError, PROTOCOL_ID};

#[test]
pub fn tagged_header_round_trip() {
    let header = PacketHeader { protocol_id: PROTOCOL_ID, sequence: 10, ack: 100, ack_bitfield: 1000 };
    let bytes = Bytes::from(header);
    assert_eq!(bytes.len(), 16);
    let parsed = PacketHeader::try_from(bytes).unwrap();
    assert_eq!(parsed.protocol_id, 694206669);
    assert_eq!(parsed.sequence, 10);
    assert_eq!(parsed.ack, 100);
    assert_eq!(parsed.ack_bitfield, 1000);
}

#[test]
pub fn tagged_header_has_the_wire_layout() {
    let header = PacketHeader {
        protocol_id: 0x1122_3344,
        sequence: 0x0102_0304,
        ack: 0xA0B0_C0D0,
        ack_bitfield: 0x8000_0001,
    };
    let bytes = Bytes::from(header);
    assert_eq!(
        &bytes[..],
        &[
            0x11, 0x22, 0x33, 0x44, 0x01, 0x02, 0x03, 0x04, 0xA0, 0xB0, 0xC0, 0xD0, 0x80, 0x00,
            0x00, 0x01
        ][..]
    );
}

#[test]
pub fn tagged_header_with_other_tag_does_not_come_back() {
    let header = PacketHeader { protocol_id: 5, sequence: 1, ack: 2, ack_bitfield: 3 };
    match PacketHeader::try_from(Bytes::from(header)) {
        Err(ToPacketHeaderError::InvalidProtocolId { expected, actual }) => {
            assert_eq!(expected, 694206669);
            assert_eq!(actual, 5);
        }
        other => panic!("unexpected: {:?}", other),
    }
}

#[test]
pub fn tagged_header_refuses_too_few_bytes() {
    let mut buffer = BytesMut::new();
    buffer.put_u32(PROTOCOL_ID);
    buffer.put_u32(1);
    buffer.put_u32(2);
    buffer.put_u8(3);
    match PacketHeader::try_from(buffer.freeze()) {
        Err(ToPacketHeaderError::TooSmall { expected_min, actual }) => {
            assert_eq!(expected_min, 16);
            assert_eq!(actual, 13);
        }
        other => panic!("unexpected: {:?}", other),
    }
}

#[test]
pub fn tagged_header_ignores_what_follows() {
    let mut buffer = BytesMut::new();
    buffer.put_u32(PROTOCOL_ID);
    buffer.put_u32(0xFFFF_FFFF);
    buffer.put_u32(0);
    buffer.put_u32(0x0F0F_0F0F);
    buffer.put_slice(b"more");
    let parsed = PacketHeader::try_from(buffer.freeze()).unwrap();
    assert_eq!(parsed.sequence, u32::MAX);
    assert_eq!(parsed.ack, 0);
    assert_eq!(parsed.ack_bitfield, 0x0F0F_0F0F);
}
