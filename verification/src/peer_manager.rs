//! The events the connection layer publishes on the bus, and the fixed
//! port the handshake listener and the discovery service share.

use vstd::prelude::*;
use crate::box_stream::BoxStreamError;
use crate::discovery::PeerAddr;
use crate::peer_connection::{HandshakeErrorKind, PeerConnection};

verus! {

/// The TCP port the handshake listener binds; the same port carries the
/// UDP discovery traffic.
pub const HANDSHAKE_LISTENER_PORT: u16 = crate::discovery::PEER_DISCOVERY_PORT;

/// Something that happened on a peer's connection.
pub struct PeerManagerEvent {
    pub peer: PeerAddr,
    pub event: PeerEvent,
}

/// What happened.
pub enum PeerEvent {
    /// A handshake completed; the session is live.
    HandshakeSuccessful(PeerConnection),
    /// A handshake attempt ended without a session.
    HandshakeFailed(HandshakeErrorKind),
    /// One decoded body arrived, rendered for the chat.
    MessageReceived(String),
    /// The session ended: cleanly on a goodbye, or with the frame error
    /// that killed it (transport faults surface as `ReaderIoError`).
    ConnectionClosed(Result<(), BoxStreamError>),
}

} // verus!
