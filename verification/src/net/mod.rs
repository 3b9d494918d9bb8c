//! The sequencing core: the datagram header, the two sequence trackers and
//! their composition.

pub mod connection;
pub mod local_sequence_tracker;
pub mod packet_header;
pub mod packet_manager;
pub mod remote_sequence_tracker;

pub use connection::{ConnectionReader, ConnectionWriter};
pub use packet_header::{Packet, PacketHeader, ToPacketHeaderError};
pub use packet_manager::PacketManager;
