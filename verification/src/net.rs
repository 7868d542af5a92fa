//! The peer-listener side of discovery: the same address grammar as
//! [`crate::discovery`], under the names its consumers use, without
//! self-echo suppression.

use vstd::prelude::*;
use crate::addr::SocketAddr;
use crate::discovery::{
    self, feed_id_bytes, first_token, fmt_peer, spec_parse_peer, ParsePeerAddrError, PeerAddr,
};
use crate::wire::ascii_chars;

verus! {

/// The transport tag of a peer address.
#[derive(Clone, Copy, PartialEq, Eq, Structural, Debug)]
pub enum Protocol {
    WebSocket,
    Net,
}

/// The same tag in the discovery module's terms.
pub open spec fn core_protocol(p: Protocol) -> discovery::Protocol {
    match p {
        Protocol::WebSocket => discovery::Protocol::WebSocket,
        Protocol::Net => discovery::Protocol::Net,
    }
}

/// Parse failure of a peer-address text.
#[derive(Clone, Copy, PartialEq, Eq, Structural, Debug)]
pub struct ParseSsbPeerError();

/// How receiving one datagram on the peer listener can fail.
#[derive(Clone, Copy, PartialEq, Eq, Structural, Debug)]
pub enum PeerListenerError {
    /// The first `;`-separated token is no peer address.
    ParseError(ParseSsbPeerError),
    /// The socket failed.
    IoError,
}

/// A peer as the listener hands it out: transport tag, endpoint, and
/// 32-byte long-term public key.
#[derive(Clone, Debug)]
pub struct SsbPeer {
    pub protocol: Protocol,
    pub socket_addr: SocketAddr,
    pub public_key: Vec<u8>,
}

impl SsbPeer {
    /// The public key is 32 bytes.
    pub open spec fn valid(self) -> bool {
        self.public_key@.len() == 32
    }

    /// The triple this peer stands for, in the discovery module's terms.
    pub open spec fn parts(self) -> (discovery::Protocol, SocketAddr, Seq<u8>) {
        (core_protocol(self.protocol), self.socket_addr, self.public_key@)
    }

    /// The same peer as a discovery address.
    pub fn to_peer_addr(&self) -> (r: PeerAddr)
        ensures
            r.parts() == self.parts(),
    {
        let protocol = match self.protocol {
            Protocol::WebSocket => discovery::Protocol::WebSocket,
            Protocol::Net => discovery::Protocol::Net,
        };
        PeerAddr { protocol, socket_addr: self.socket_addr, public_key: clone_key(&self.public_key) }
    }

    /// The feed identifier of this peer: `@<base64 key>.ed25519`.
    pub fn feed_id(&self) -> (r: String)
        requires
            self.valid(),
        ensures
            r@ == ascii_chars(feed_id_bytes(self.public_key@)),
    {
        let p = self.to_peer_addr();
        p.feed_id()
    }

    /// The canonical text of this peer's address, as a string.
    pub fn display_string(&self) -> (r: String)
        requires
            self.valid(),
        ensures
            r@ == ascii_chars(
                fmt_peer(core_protocol(self.protocol), self.socket_addr, self.public_key@),
            ),
    {
        let p = self.to_peer_addr();
        p.display_string()
    }

    /// Parse a peer-address text, under the listener's error type.
    pub fn from_str(s: &str) -> (r: Result<SsbPeer, ParseSsbPeerError>)
        ensures
            match r {
                Result::Ok(p) => p.valid() && spec_parse_peer(vstd::utf8::encode_utf8(s@))
                    == Option::Some(p.parts()),
                Result::Err(_) => spec_parse_peer(vstd::utf8::encode_utf8(s@)) is None,
            },
    {
        match PeerAddr::from_str(s) {
            Result::Ok(p) => Result::Ok(from_peer_addr(p)),
            Result::Err(ParsePeerAddrError()) => Result::Err(ParseSsbPeerError()),
        }
    }
}

/// Copy a key vector.
fn clone_key(k: &Vec<u8>) -> (r: Vec<u8>)
    ensures
        r@ == k@,
{
    let mut r: Vec<u8> = Vec::new();
    crate::wire::append_bytes(&mut r, k);
    proof {
        assert(r@ =~= k@);
    }
    r
}

/// A discovery address as a listener peer.
fn from_peer_addr(p: PeerAddr) -> (r: SsbPeer)
    ensures
        r.parts() == p.parts(),
        r.valid() == p.valid(),
{
    let protocol = match p.protocol {
        discovery::Protocol::WebSocket => Protocol::WebSocket,
        discovery::Protocol::Net => Protocol::Net,
    };
    SsbPeer { protocol, socket_addr: p.socket_addr, public_key: p.public_key }
}

/// Read one listener datagram: parse its first `;`-separated token as a
/// peer address.  Unlike the discovery side, the listener does not
/// suppress the node's own announcements.
pub fn parse_datagram(buf: &Vec<u8>) -> (r: Result<SsbPeer, PeerListenerError>)
    ensures
        match r {
            Result::Ok(p) => p.valid() && spec_parse_peer(first_token(buf@)) == Option::Some(
                p.parts(),
            ),
            Result::Err(e) => e == PeerListenerError::ParseError(ParseSsbPeerError())
                && spec_parse_peer(first_token(buf@)) is None,
        },
{
    match discovery::parse_first_token(buf) {
        Option::Some(p) => Result::Ok(from_peer_addr(p)),
        Option::None => Result::Err(PeerListenerError::ParseError(ParseSsbPeerError())),
    }
}

impl ParseSsbPeerError {
    /// The failure, in words.
    pub fn display_string(&self) -> (r: String)
        ensures
            r@ == "Failed to parse SsbPeer string"@,
    {
        <String as vstd::string::StringExecFns>::from_str("Failed to parse SsbPeer string")
    }
}

impl From<ParseSsbPeerError> for PeerListenerError {
    fn from(e: ParseSsbPeerError) -> (r: PeerListenerError) {
        PeerListenerError::ParseError(e)
    }
}

impl vstd::std_specs::convert::FromSpecImpl<ParseSsbPeerError> for PeerListenerError {
    open spec fn obeys_from_spec() -> bool {
        true
    }

    open spec fn from_spec(e: ParseSsbPeerError) -> PeerListenerError {
        PeerListenerError::ParseError(e)
    }
}

impl PeerListenerError {
    /// The failure, in words.
    pub fn display_string(&self) -> (r: String)
        ensures
            r@ == match self {
                PeerListenerError::ParseError(_) => "Failed to parse SsbPeer string"@,
                PeerListenerError::IoError => "IO Error"@,
            },
    {
        match self {
            PeerListenerError::ParseError(e) => e.display_string(),
            PeerListenerError::IoError => <String as vstd::string::StringExecFns>::from_str(
                "IO Error",
            ),
        }
    }
}

} // verus!
