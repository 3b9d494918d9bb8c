//! Reliable sequencing over UDP: a fixed datagram header, sequence numbers for
//! what is sent, acknowledgement of what is received, and detection of sent
//! datagrams that the peer never acknowledged.
//!
//! The library does no input or output. [`server`] turns the bytes of an
//! arrived datagram into a message for the registry of
//! [`connection_manager`], which keeps one [`player_connection`] per peer
//! address; each connection drives the trackers of [`net`] and says what to
//! send back and when to give the peer up. Sockets and timers belong to the
//! caller.

pub mod bits;
pub mod connection_manager;
pub mod net;
pub mod ordered_set;
pub mod packet_header;
pub mod player_connection;
pub mod server;
pub mod wire;
