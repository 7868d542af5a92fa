//! A live session with one peer, and the bookkeeping around the
//! secret-handshake exchange: the local identity the handshake runs with,
//! the taxonomy of handshake failures, and the rendering of received
//! bodies for the chat.

use vstd::prelude::*;
use crate::crypto::string_from_utf8;
use crate::discovery::PeerAddr;
use crate::wire::{ascii_chars, ascii_string};

verus! {

/// A live session with a peer: its address and the handle outbound
/// messages are queued on.  The reader and writer tasks that own the
/// session keys run beside it.
pub struct PeerConnection {
    pub peer: PeerAddr,
    pub peer_writer_tx: std::sync::mpsc::Sender<String>,
}

/// The local identity a handshake runs with: the long-term keypair and
/// the 32-byte network key shared by every node of the network.
pub struct Handshaker {
    pub public_key: Vec<u8>,
    pub secret_key: Vec<u8>,
    pub network_key: Vec<u8>,
}

impl Handshaker {
    /// The keys have their fixed sizes.
    pub open spec fn valid(self) -> bool {
        self.public_key@.len() == 32 && self.secret_key@.len() == 32 && self.network_key@.len()
            == 32
    }

    pub fn new(public_key: Vec<u8>, secret_key: Vec<u8>, network_key: Vec<u8>) -> (r: Handshaker)
        requires
            public_key@.len() == 32,
            secret_key@.len() == 32,
            network_key@.len() == 32,
        ensures
            r.valid(),
            r.public_key@ == public_key@,
            r.secret_key@ == secret_key@,
            r.network_key@ == network_key@,
    {
        Handshaker { public_key, secret_key, network_key }
    }
}

/// Where a handshake attempt went wrong, as the exchange reports it.
#[derive(Clone, Copy, PartialEq, Eq, Structural, Debug)]
pub enum HandshakeFault {
    /// The transport failed underneath the exchange.
    Io,
    /// The peer closed the stream before the exchange was over.
    UnexpectedEnd,
    ClientHelloDeserialize,
    /// The client hello failed its network-key authentication.
    ClientHelloVerify,
    ServerHelloDeserialize,
    /// The server hello failed its network-key authentication.
    ServerHelloVerify,
    ClientAuthDeserialize,
    ClientAuthVerify,
    ServerAcceptDeserialize,
    ServerAcceptVerify,
    /// A derived shared secret was invalid.
    SharedSecret,
}

/// The handshake failures surfaced to the rest of the program.
#[derive(Clone, Copy, PartialEq, Eq, Structural, Debug)]
pub enum HandshakeErrorKind {
    /// The TCP connection could not be opened in time.
    ConnectTimeout,
    /// The transport failed underneath the exchange.
    TransportClosed,
    /// The peer aborted or failed the exchange.
    ProtocolRejected,
    /// A hello message failed the authentication that only the shared
    /// network key can produce.
    WrongNetworkKey,
}

/// The taxonomy: hello-verification failures mean a mismatched network
/// key (the hello is authenticated by it alone); a peer that drops the
/// stream mid-exchange has rejected us; transport faults stay transport
/// faults; every other verification failure is a protocol rejection.
pub open spec fn spec_classify_fault(f: HandshakeFault) -> HandshakeErrorKind {
    match f {
        HandshakeFault::Io => HandshakeErrorKind::TransportClosed,
        HandshakeFault::ClientHelloVerify => HandshakeErrorKind::WrongNetworkKey,
        HandshakeFault::ServerHelloVerify => HandshakeErrorKind::WrongNetworkKey,
        _ => HandshakeErrorKind::ProtocolRejected,
    }
}

/// Sort a handshake fault into the error kind the program surfaces.
pub fn classify_handshake_fault(f: HandshakeFault) -> (r: HandshakeErrorKind)
    ensures
        r == spec_classify_fault(f),
{
    match f {
        HandshakeFault::Io => HandshakeErrorKind::TransportClosed,
        HandshakeFault::ClientHelloVerify => HandshakeErrorKind::WrongNetworkKey,
        HandshakeFault::ServerHelloVerify => HandshakeErrorKind::WrongNetworkKey,
        _ => HandshakeErrorKind::ProtocolRejected,
    }
}

/// The lowercase hex digit byte of a value below 16.
pub open spec fn hex_digit_byte(d: u8) -> u8 {
    if d < 10 {
        (48 + d) as u8
    } else {
        (87 + d) as u8
    }
}

/// The lowercase two-digits-per-byte hex text of `s`.
pub open spec fn hex_render(s: Seq<u8>) -> Seq<u8>
    decreases s.len(),
{
    if s.len() == 0 {
        Seq::empty()
    } else {
        hex_render(s.drop_last()) + seq![
            hex_digit_byte(s.last() / 16),
            hex_digit_byte(s.last() % 16),
        ]
    }
}

/// Write the lowercase hex text of `v`.
pub fn hex_render_exec(v: &Vec<u8>) -> (r: Vec<u8>)
    ensures
        r@ == hex_render(v@),
        forall|i: int| 0 <= i < r@.len() ==> r@[i] < 128,
{
    let n = v.len();
    let mut r: Vec<u8> = Vec::new();
    let mut i: usize = 0;
    while i < n
        invariant
            n == v@.len(),
            i <= n,
            r@ == hex_render(v@.take(i as int)),
            forall|j: int| 0 <= j < r@.len() ==> r@[j] < 128,
        decreases n - i,
    {
        let b = v[i];
        let hi: u8 = b / 16;
        let lo: u8 = b % 16;
        r.push(if hi < 10 {
            48 + hi
        } else {
            87 + hi
        });
        r.push(if lo < 10 {
            48 + lo
        } else {
            87 + lo
        });
        proof {
            assert(v@.take(i + 1).drop_last() =~= v@.take(i as int));
            assert(v@.take(i + 1).last() == v@[i as int]);
            assert(r@ =~= hex_render(v@.take(i + 1)));
        }
        i += 1;
    }
    proof {
        assert(v@.take(n as int) =~= v@);
    }
    r
}

/// Render a received body for the chat: as text when it is valid UTF-8,
/// as lowercase hex otherwise.
pub fn render_message(bytes: &Vec<u8>) -> (r: String)
    ensures
        r@ == if vstd::utf8::valid_utf8(bytes@) {
            vstd::utf8::decode_utf8(bytes@)
        } else {
            ascii_chars(hex_render(bytes@))
        },
{
    match string_from_utf8(bytes) {
        Option::Some(s) => s,
        Option::None => {
            let h = hex_render_exec(bytes);
            ascii_string(&h)
        },
    }
}

} // verus!
