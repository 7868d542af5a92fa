//! Verified secure-transport stack for a local-network gossip chat.
//!
//! The pieces, bottom up: byte helpers ([`wire`]), the trusted bindings to
//! the cryptographic and encoding primitives ([`crypto`], [`channel`]), the
//! 24-byte big-endian nonce counter ([`nonce`]), the box-stream framing
//! codec ([`box_stream`]), the endpoint and peer-address text grammars
//! ([`addr`], [`discovery`], [`net`]), the handshake bookkeeping and
//! message rendering ([`peer_connection`]), the bus event types ([`event`],
//! [`peer_manager`]), the chat data ([`chat`]), and the application's
//! state machine ([`app_state`]).  The surrounding program supplies the
//! sockets, threads and terminal these pieces are driven by.

pub mod addr;
pub mod app_state;
pub mod box_stream;
pub mod channel;
pub mod chat;
pub mod crypto;
pub mod discovery;
pub mod event;
pub mod net;
pub mod peer_connection;
pub mod peer_manager;
pub mod nonce;
pub mod wire;
