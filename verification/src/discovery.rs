//! Peer addresses and the discovery datagram grammar.  An address is the
//! canonical text `<protocol><host:port>~shs:<base64 public key>`, with
//! `<protocol>` either `net:` or `ws://`.  A discovery datagram carries one
//! or more `;`-separated addresses; only the first is read, and a node's
//! own announcements are suppressed.

use vstd::prelude::*;
use crate::addr::{
    fmt_sock, free_of, lemma_fmt_sock_bytes, lemma_parse_fmt_sock, lemma_split_on_prepend,
    lemma_split_on_whole, parse_socket_addr, sock_byte_ok, spec_parse_sock, split_on,
    lemma_find_byte, find_byte_exec, format_socket_addr, SocketAddr,
};
use crate::crypto::{b64_decode, b64_decoding, b64_encode, b64_encoding, is_b64_byte};
use crate::wire::{ascii_chars, ascii_string, bytes_eq, sub_bytes, append_bytes};

verus! {

/// The UDP port discovery announcements are broadcast to and received
/// on; the handshake listener shares it.
pub const PEER_DISCOVERY_PORT: u16 = 8008;

/// The transport tag of a peer address.
#[derive(Clone, Copy, PartialEq, Eq, Structural, Debug)]
pub enum Protocol {
    WebSocket,
    Net,
}

/// The bytes of `"net:"`.
pub open spec fn net_prefix() -> Seq<u8> {
    seq![110u8, 101u8, 116u8, 58u8]
}

/// The bytes of `"ws://"`.
pub open spec fn ws_prefix() -> Seq<u8> {
    seq![119u8, 115u8, 58u8, 47u8, 47u8]
}

/// The bytes of the `"~shs:"` separator.
pub open spec fn shs_pat() -> Seq<u8> {
    seq![126u8, 115u8, 104u8, 115u8, 58u8]
}

/// The protocol's textual prefix.
pub open spec fn proto_prefix(p: Protocol) -> Seq<u8> {
    match p {
        Protocol::Net => net_prefix(),
        Protocol::WebSocket => ws_prefix(),
    }
}

/// The separator occurs at position `i` of `s`.
pub open spec fn shs_at(s: Seq<u8>, i: int) -> bool {
    0 <= i && i + 5 <= s.len() && s.subrange(i, i + 5) == shs_pat()
}

/// The position of the first `"~shs:"` in `s`.
pub open spec fn find_shs(s: Seq<u8>) -> Option<int>
    decreases s.len(),
{
    if s.len() < 5 {
        Option::None
    } else if s.take(5) == shs_pat() {
        Option::Some(0)
    } else {
        match find_shs(s.drop_first()) {
            Option::None => Option::None,
            Option::Some(i) => Option::Some(i + 1),
        }
    }
}

/// What `find_shs` returns: the least separator position, or `None` when
/// the separator does not occur.
pub proof fn lemma_find_shs(s: Seq<u8>)
    ensures
        match find_shs(s) {
            Option::Some(i) => shs_at(s, i) && forall|j: int| 0 <= j < i ==> !shs_at(s, j),
            Option::None => forall|j: int| !shs_at(s, j),
        },
    decreases s.len(),
{
    if s.len() < 5 {
        assert forall|j: int| !shs_at(s, j) by {};
    } else if s.take(5) == shs_pat() {
        assert(s.subrange(0, 5) =~= s.take(5));
    } else {
        let d = s.drop_first();
        lemma_find_shs(d);
        assert(!shs_at(s, 0)) by {
            if shs_at(s, 0) {
                assert(s.subrange(0, 5) =~= s.take(5));
            }
        };
        assert forall|j: int| 0 <= j < d.len() implies shs_at(d, j) == shs_at(s, j + 1) by {
            if j + 5 <= d.len() {
                assert(d.subrange(j, j + 5) =~= s.subrange(j + 1, j + 6));
            }
        };
        match find_shs(d) {
            Option::Some(i) => {
                assert(shs_at(s, i + 1));
                assert forall|j: int| 0 <= j < i + 1 implies !shs_at(s, j) by {
                    if j > 0 {
                        assert(!shs_at(d, j - 1));
                    }
                };
            },
            Option::None => {
                assert forall|j: int| !shs_at(s, j) by {
                    if j > 0 && shs_at(s, j) {
                        assert(shs_at(d, j - 1));
                    }
                };
            },
        }
    }
}

/// What parsing the text after the protocol prefix yields.
pub open spec fn spec_parse_after(p: Protocol, r: Seq<u8>) -> Option<
    (Protocol, SocketAddr, Seq<u8>),
> {
    match find_shs(r) {
        Option::None => Option::None,
        Option::Some(i) => {
            let sock_txt = r.take(i);
            let b64_txt = r.skip(i + 5);
            match spec_parse_sock(sock_txt) {
                Option::None => Option::None,
                Option::Some(sa) => match b64_decoding(b64_txt) {
                    Option::Some(k) => if k.len() == 32 {
                        Option::Some((p, sa, k))
                    } else {
                        Option::None
                    },
                    Option::None => Option::None,
                },
            }
        },
    }
}

/// What parsing a peer-address text yields: the protocol, the endpoint
/// whose canonical form stands before the first `"~shs:"`, and the 32-byte
/// public key its base64 text decodes to.
pub open spec fn spec_parse_peer(s: Seq<u8>) -> Option<(Protocol, SocketAddr, Seq<u8>)> {
    if s.len() >= 4 && s.subrange(0, 4) == net_prefix() {
        spec_parse_after(Protocol::Net, s.skip(4))
    } else if s.len() >= 5 && s.subrange(0, 5) == ws_prefix() {
        spec_parse_after(Protocol::WebSocket, s.skip(5))
    } else {
        Option::None
    }
}

/// The canonical text of a peer address.
pub open spec fn fmt_peer(p: Protocol, sa: SocketAddr, pk: Seq<u8>) -> Seq<u8> {
    proto_prefix(p) + fmt_sock(sa) + shs_pat() + b64_encoding(pk)
}

/// The textual feed identifier derived from a public key:
/// `@<base64 key>.ed25519`.
pub open spec fn feed_id_bytes(pk: Seq<u8>) -> Seq<u8> {
    seq![64u8] + b64_encoding(pk) + seq![46u8, 101u8, 100u8, 50u8, 53u8, 53u8, 49u8, 57u8]
}

/// Parse failure of a peer-address text.
#[derive(Clone, Copy, PartialEq, Eq, Structural, Debug)]
pub struct ParsePeerAddrError();

/// How receiving one discovery datagram can fail.
#[derive(Clone, Copy, PartialEq, Eq, Structural, Debug)]
pub enum DiscoveryServiceError {
    /// The first `;`-separated token is no peer address.
    ParseError(ParsePeerAddrError),
    /// No usable non-loopback local address could be found at startup.
    GetLocalAddrError,
    /// The socket failed.
    IoError,
}

/// A discovered or connected peer: transport tag, endpoint, and 32-byte
/// long-term public key.  Two addresses are equal when their keys are.
#[derive(Clone, Debug)]
pub struct PeerAddr {
    pub protocol: Protocol,
    pub socket_addr: SocketAddr,
    pub public_key: Vec<u8>,
}

impl PartialEq for PeerAddr {
    fn eq(&self, other: &PeerAddr) -> (r: bool) {
        bytes_eq(&self.public_key, &other.public_key)
    }
}

impl vstd::std_specs::cmp::PartialEqSpecImpl for PeerAddr {
    open spec fn obeys_eq_spec() -> bool {
        true
    }

    open spec fn eq_spec(&self, other: &PeerAddr) -> bool {
        self.public_key@ == other.public_key@
    }
}

impl PeerAddr {
    /// The public key is 32 bytes.
    pub open spec fn valid(self) -> bool {
        self.public_key@.len() == 32
    }

    /// The triple this address stands for.
    pub open spec fn parts(self) -> (Protocol, SocketAddr, Seq<u8>) {
        (self.protocol, self.socket_addr, self.public_key@)
    }

    /// Write the canonical text of this address.  The text is ASCII,
    /// holds no `;`, and parses back to exactly this address.
    pub fn to_wire_bytes(&self) -> (r: Vec<u8>)
        requires
            self.valid(),
        ensures
            r@ == fmt_peer(self.protocol, self.socket_addr, self.public_key@),
            spec_parse_peer(r@) == Option::Some(self.parts()),
            forall|i: int| 0 <= i < r@.len() ==> r@[i] < 128,
            free_of(r@, 59),
    {
        let mut r: Vec<u8> = Vec::new();
        let off: usize = match self.protocol {
            Protocol::Net => {
                r.push(110);
                r.push(101);
                r.push(116);
                r.push(58);
                4
            },
            Protocol::WebSocket => {
                r.push(119);
                r.push(115);
                r.push(58);
                r.push(47);
                r.push(47);
                5
            },
        };
        proof {
            assert(r@ =~= proto_prefix(self.protocol));
        }
        let sock = format_socket_addr(&self.socket_addr);
        append_bytes(&mut r, &sock);
        r.push(126);
        r.push(115);
        r.push(104);
        r.push(115);
        r.push(58);
        let b64 = b64_encode(&self.public_key);
        append_bytes(&mut r, &b64);
        proof {
            assert(r@ =~= proto_prefix(self.protocol) + fmt_sock(self.socket_addr) + shs_pat()
                + b64@);
            lemma_to_wire(self.protocol, self.socket_addr, self.public_key@, r@, b64@);
        }
        r
    }

    /// The canonical text of this address, as a string.
    pub fn display_string(&self) -> (r: String)
        requires
            self.valid(),
        ensures
            r@ == ascii_chars(fmt_peer(self.protocol, self.socket_addr, self.public_key@)),
    {
        let bytes = self.to_wire_bytes();
        ascii_string(&bytes)
    }

    /// The feed identifier of this peer: `@<base64 key>.ed25519`.
    pub fn feed_id(&self) -> (r: String)
        requires
            self.valid(),
        ensures
            r@ == ascii_chars(feed_id_bytes(self.public_key@)),
    {
        let mut bytes: Vec<u8> = Vec::new();
        bytes.push(64);
        let b64 = b64_encode(&self.public_key);
        append_bytes(&mut bytes, &b64);
        bytes.push(46);
        bytes.push(101);
        bytes.push(100);
        bytes.push(50);
        bytes.push(53);
        bytes.push(53);
        bytes.push(49);
        bytes.push(57);
        proof {
            assert(bytes@ =~= feed_id_bytes(self.public_key@));
            assert forall|i: int| 0 <= i < bytes@.len() implies bytes@[i] < 128 by {
                if 1 <= i < 1 + b64@.len() {
                    assert(bytes@[i] == b64@[i - 1]);
                    assert(is_b64_byte(b64@[i - 1]));
                }
            };
        }
        ascii_string(&bytes)
    }

    /// Parse a peer-address text: succeeds exactly on texts of the
    /// grammar `("net:" | "ws://") <canonical host:port> "~shs:" <base64>`
    /// whose base64 part decodes to 32 bytes.
    pub fn from_str(s: &str) -> (r: Result<PeerAddr, ParsePeerAddrError>)
        ensures
            match r {
                Result::Ok(p) => p.valid() && spec_parse_peer(vstd::utf8::encode_utf8(s@))
                    == Option::Some(p.parts()),
                Result::Err(_) => spec_parse_peer(vstd::utf8::encode_utf8(s@)) is None,
            },
    {
        let bytes = vstd::string::StrSliceExecFns::as_bytes_vec(s);
        match parse_peer_bytes(&bytes) {
            Option::Some(p) => Result::Ok(p),
            Option::None => Result::Err(ParsePeerAddrError()),
        }
    }
}

/// Prove the parse-back, ASCII and `;`-freeness clauses of
/// [`PeerAddr::to_wire_bytes`] for an assembled text.
#[verifier::rlimit(100)]
proof fn lemma_to_wire(p: Protocol, sa: SocketAddr, pk: Seq<u8>, r: Seq<u8>, b64: Seq<u8>)
    requires
        pk.len() == 32,
        b64 == b64_encoding(pk),
        b64_decoding(b64) == Option::Some(pk),
        forall|i: int| 0 <= i < b64.len() ==> is_b64_byte(b64[i]),
        r == proto_prefix(p) + fmt_sock(sa) + shs_pat() + b64,
    ensures
        r == fmt_peer(p, sa, pk),
        spec_parse_peer(r) == Option::Some((p, sa, pk)),
        forall|i: int| 0 <= i < r.len() ==> r[i] < 128,
        free_of(r, 59),
{
    let pre = proto_prefix(p);
    let sock = fmt_sock(sa);
    let rest = sock + shs_pat() + b64;
    lemma_fmt_sock_bytes(sa);
    // byte classification over the four regions
    assert forall|i: int| 0 <= i < r.len() implies r[i] < 128 && r[i] != 59 by {
        let l0 = pre.len() as int;
        let l1 = l0 + sock.len();
        let l2 = l1 + 5;
        if i < l0 {
            assert(r[i] == pre[i]);
            assert(pre[i] < 128 && pre[i] != 59) by {
                assert(pre.len() == 4 ==> pre == net_prefix());
            };
        } else if i < l1 {
            assert(r[i] == sock[i - l0]);
            assert(sock_byte_ok(sock[i - l0]));
        } else if i < l2 {
            assert(r[i] == shs_pat()[i - l1]);
        } else {
            assert(r[i] == b64[i - l2]);
            assert(is_b64_byte(b64[i - l2]));
        }
    };
    // the protocol prefix selects the right branch
    assert(r.skip(pre.len() as int) =~= rest);
    match p {
        Protocol::Net => {
            assert(r.subrange(0, 4) =~= net_prefix());
        },
        Protocol::WebSocket => {
            assert(r.subrange(0, 5) =~= ws_prefix());
            assert(r[0] == 119);
            assert(r.subrange(0, 4) != net_prefix()) by {
                if r.subrange(0, 4) == net_prefix() {
                    assert(r.subrange(0, 4)[0] == 110);
                }
            };
        },
    }
    // the first separator stands right after the endpoint text
    let ls = sock.len() as int;
    assert(shs_at(rest, ls)) by {
        assert(rest.subrange(ls, ls + 5) =~= shs_pat());
    };
    assert forall|j: int| 0 <= j < ls implies !shs_at(rest, j) by {
        if shs_at(rest, j) {
            assert(rest.subrange(j, j + 5)[0] == 126);
            assert(rest[j] == sock[j]);
            assert(sock_byte_ok(sock[j]));
        }
    };
    lemma_find_shs(rest);
    assert(find_shs(rest) == Option::Some(ls)) by {
        match find_shs(rest) {
            Option::None => {
                assert(!shs_at(rest, ls));
            },
            Option::Some(k) => {
                if k < ls {
                    assert(!shs_at(rest, k));
                }
                if k > ls {
                    assert(!shs_at(rest, ls));
                }
            },
        }
    };
    assert(rest.take(ls) =~= sock);
    assert(rest.skip(ls + 5) =~= b64);
    lemma_parse_fmt_sock(sa);
    assert(spec_parse_after(p, rest) == Option::Some((p, sa, pk)));
}

/// Parse the bytes of a peer-address text.
pub fn parse_peer_bytes(s: &Vec<u8>) -> (r: Option<PeerAddr>)
    ensures
        match r {
            Option::Some(pa) => pa.valid() && spec_parse_peer(s@) == Option::Some(pa.parts()),
            Option::None => spec_parse_peer(s@) is None,
        },
{
    let n = s.len();
    let (protocol, off): (Protocol, usize) = if n >= 4 && s[0] == 110 && s[1] == 101 && s[2]
        == 116 && s[3] == 58 {
        proof {
            assert(s@.subrange(0, 4) =~= net_prefix());
        }
        (Protocol::Net, 4)
    } else if n >= 5 && s[0] == 119 && s[1] == 115 && s[2] == 58 && s[3] == 47 && s[4] == 47 {
        proof {
            assert(s@.subrange(0, 5) =~= ws_prefix());
            assert(n >= 4 ==> s@.subrange(0, 4)[0] == 119);
        }
        (Protocol::WebSocket, 5)
    } else {
        proof {
            if s@.len() >= 4 && s@.subrange(0, 4) == net_prefix() {
                assert(s@[0] == 110 && s@[1] == 101 && s@[2] == 116 && s@[3] == 58) by {
                    assert(s@.subrange(0, 4)[0] == s@[0]);
                    assert(s@.subrange(0, 4)[1] == s@[1]);
                    assert(s@.subrange(0, 4)[2] == s@[2]);
                    assert(s@.subrange(0, 4)[3] == s@[3]);
                };
            }
            if s@.len() >= 5 && s@.subrange(0, 5) == ws_prefix() {
                assert(s@[0] == 119 && s@[1] == 115 && s@[2] == 58 && s@[3] == 47 && s@[4] == 47)
                    by {
                    assert(s@.subrange(0, 5)[0] == s@[0]);
                    assert(s@.subrange(0, 5)[1] == s@[1]);
                    assert(s@.subrange(0, 5)[2] == s@[2]);
                    assert(s@.subrange(0, 5)[3] == s@[3]);
                    assert(s@.subrange(0, 5)[4] == s@[4]);
                };
            }
        }
        return Option::None;
    };
    proof {
        if protocol is WebSocket && s@.len() >= 4 && s@.subrange(0, 4) == net_prefix() {
            assert(s@.subrange(0, 4)[0] == s@[0]);
            assert(false);
        }
    }
    let rest = sub_bytes(s, off, n);
    proof {
        assert(rest@ =~= s@.skip(off as int));
    }
    let shs = match find_shs_exec(&rest) {
        Option::Some(i) => i,
        Option::None => {
            return Option::None;
        },
    };
    proof {
        lemma_find_shs(rest@);
    }
    let sock_txt = sub_bytes(&rest, 0, shs);
    let b64_txt = sub_bytes(&rest, shs + 5, rest.len());
    proof {
        assert(sock_txt@ =~= rest@.take(shs as int));
        assert(b64_txt@ =~= rest@.skip(shs + 5));
    }
    let sa = match parse_socket_addr(&sock_txt) {
        Option::Some(sa) => sa,
        Option::None => {
            return Option::None;
        },
    };
    let key = match b64_decode(&b64_txt) {
        Option::Some(k) => k,
        Option::None => {
            return Option::None;
        },
    };
    if key.len() != 32 {
        return Option::None;
    }
    Option::Some(PeerAddr { protocol, socket_addr: sa, public_key: key })
}

/// Find the first `"~shs:"` in `v`.
pub fn find_shs_exec(v: &Vec<u8>) -> (r: Option<usize>)
    ensures
        match r {
            Option::Some(i) => find_shs(v@) == Option::Some(i as int),
            Option::None => find_shs(v@) is None,
        },
{
    proof {
        lemma_find_shs(v@);
    }
    let n = v.len();
    if n < 5 {
        proof {
            match find_shs(v@) {
                Option::Some(i) => {
                    assert(shs_at(v@, i));
                },
                Option::None => {},
            }
        }
        return Option::None;
    }
    let mut i: usize = 0;
    while i <= n - 5
        invariant
            n == v@.len(),
            n >= 5,
            i <= n - 4,
            forall|j: int| 0 <= j < i ==> !shs_at(v@, j),
        decreases n - i,
    {
        if v[i] == 126 && v[i + 1] == 115 && v[i + 2] == 104 && v[i + 3] == 115 && v[i + 4] == 58 {
            proof {
                assert(v@.subrange(i as int, i + 5) =~= shs_pat());
                assert(shs_at(v@, i as int));
                lemma_find_shs(v@);
                match find_shs(v@) {
                    Option::None => {
                        assert(!shs_at(v@, i as int));
                    },
                    Option::Some(k) => {
                        if k < i {
                            assert(!shs_at(v@, k));
                        }
                        if k > i {
                            assert(!shs_at(v@, i as int));
                        }
                    },
                }
            }
            return Option::Some(i);
        }
        proof {
            assert(!shs_at(v@, i as int)) by {
                if shs_at(v@, i as int) {
                    let sub = v@.subrange(i as int, i + 5);
                    assert(sub[0] == v@[i as int]);
                    assert(sub[1] == v@[i + 1]);
                    assert(sub[2] == v@[i + 2]);
                    assert(sub[3] == v@[i + 3]);
                    assert(sub[4] == v@[i + 4]);
                }
            };
        }
        i += 1;
    }
    proof {
        lemma_find_shs(v@);
        match find_shs(v@) {
            Option::Some(k) => {
                assert(shs_at(v@, k));
                assert(k + 5 <= n);
                assert(!shs_at(v@, k));
            },
            Option::None => {},
        }
    }
    Option::None
}

/// The first `;`-separated token of a datagram.
pub open spec fn first_token(s: Seq<u8>) -> Seq<u8> {
    split_on(s, 59)[0]
}

/// Read one discovery datagram: parse its first `;`-separated token as a
/// peer address.  `Ok(None)` is the node's own announcement, which is
/// suppressed; a peer is only ever returned with a key different from
/// `own_pk`.
pub fn parse_announcement(buf: &Vec<u8>, own_pk: &Vec<u8>) -> (r: Result<
    Option<PeerAddr>,
    DiscoveryServiceError,
>)
    ensures
        match r {
            Result::Ok(Option::Some(p)) => p.valid() && spec_parse_peer(first_token(buf@))
                == Option::Some(p.parts()) && p.public_key@ != own_pk@,
            Result::Ok(Option::None) => match spec_parse_peer(first_token(buf@)) {
                Option::Some((p2, sa2, k2)) => k2 == own_pk@,
                Option::None => false,
            },
            Result::Err(e) => e == DiscoveryServiceError::ParseError(ParsePeerAddrError())
                && spec_parse_peer(first_token(buf@)) is None,
        },
{
    match parse_first_token(buf) {
        Option::None => Result::Err(DiscoveryServiceError::ParseError(ParsePeerAddrError())),
        Option::Some(p) => {
            if bytes_eq(&p.public_key, own_pk) {
                Result::Ok(Option::None)
            } else {
                Result::Ok(Option::Some(p))
            }
        },
    }
}

/// Parse the first `;`-separated token of a datagram as a peer address.
pub fn parse_first_token(buf: &Vec<u8>) -> (r: Option<PeerAddr>)
    ensures
        match r {
            Option::Some(p) => p.valid() && spec_parse_peer(first_token(buf@)) == Option::Some(
                p.parts(),
            ),
            Option::None => spec_parse_peer(first_token(buf@)) is None,
        },
{
    let token = match find_byte_exec(buf, 59) {
        Option::Some(i) => {
            proof {
                lemma_find_byte(buf@, 59);
                assert(buf@ =~= buf@.take(i as int) + seq![59u8] + buf@.skip(i + 1));
                lemma_split_on_prepend(buf@.take(i as int), 59, buf@.skip(i + 1));
                assert(first_token(buf@) == buf@.take(i as int));
            }
            sub_bytes(buf, 0, i)
        },
        Option::None => {
            proof {
                lemma_find_byte(buf@, 59);
                lemma_split_on_whole(buf@, 59);
            }
            sub_bytes(buf, 0, buf.len())
        },
    };
    proof {
        assert(token@ =~= first_token(buf@));
    }
    parse_peer_bytes(&token)
}

/// The two addresses carry the same protocol, endpoint and key.
pub open spec fn same_addr(a: PeerAddr, b: PeerAddr) -> bool {
    a.protocol == b.protocol && a.socket_addr == b.socket_addr && a.public_key@ == b.public_key@
}

impl ParsePeerAddrError {
    /// The failure, in words.
    pub fn display_string(&self) -> (r: String)
        ensures
            r@ == "Failed to parse PeerAddr string"@,
    {
        <String as vstd::string::StringExecFns>::from_str("Failed to parse PeerAddr string")
    }
}

impl From<ParsePeerAddrError> for DiscoveryServiceError {
    fn from(e: ParsePeerAddrError) -> (r: DiscoveryServiceError) {
        DiscoveryServiceError::ParseError(e)
    }
}

impl vstd::std_specs::convert::FromSpecImpl<ParsePeerAddrError> for DiscoveryServiceError {
    open spec fn obeys_from_spec() -> bool {
        true
    }

    open spec fn from_spec(e: ParsePeerAddrError) -> DiscoveryServiceError {
        DiscoveryServiceError::ParseError(e)
    }
}

impl DiscoveryServiceError {
    /// The failure, in words.
    pub fn display_string(&self) -> (r: String)
        ensures
            r@ == match self {
                DiscoveryServiceError::ParseError(_) => "Failed to parse PeerAddr string"@,
                DiscoveryServiceError::GetLocalAddrError => "Failed to determine local IP Address"@,
                DiscoveryServiceError::IoError => "IO Error"@,
            },
    {
        match self {
            DiscoveryServiceError::ParseError(e) => e.display_string(),
            DiscoveryServiceError::GetLocalAddrError => <String as vstd::string::StringExecFns>::from_str(
                "Failed to determine local IP Address",
            ),
            DiscoveryServiceError::IoError => <String as vstd::string::StringExecFns>::from_str(
                "IO Error",
            ),
        }
    }
}

} // verus!
