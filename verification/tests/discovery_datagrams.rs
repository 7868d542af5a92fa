use scuttle_chat::addr::{IpAddr, SocketAddr};
use scuttle_chat::discovery::{parse_announcement, DiscoveryServiceError, PeerAddr, Protocol};
use scuttle_chat::net::{parse_datagram, PeerListenerError};

fn addr(last_octet: u8, key_byte: u8) -> PeerAddr {
    PeerAddr {
        protocol: Protocol::Net,
        socket_addr: SocketAddr { ip: IpAddr::V4(192, 168, 0, last_octet), port: 8008 },
        public_key: vec![key_byte; 32],
    }
}

#[test]
fn announcement_of_peer_is_received() {
    let own = vec![1u8; 32];
    let peer = addr(7, 2);
    let datagram = peer.to_wire_bytes();
    let got = parse_announcement(&datagram, &own).unwrap().expect("a peer");
    assert_eq!(got.public_key, vec![2u8; 32]);
    assert_eq!(got.socket_addr, peer.socket_addr);
}

#[test]
fn own_announcement_is_suppressed() {
    let own = vec![2u8; 32];
    let me = addr(7, 2);
    let datagram = me.to_wire_bytes();
    assert!(parse_announcement(&datagram, &own).unwrap().is_none());
}

#[test]
fn malformed_datagram_is_parse_error() {
    let own = vec![1u8; 32];
    let r = parse_announcement(&b"hello world".to_vec(), &own);
    assert!(matches!(r, Err(DiscoveryServiceError::ParseError(_))));
}

#[test]
fn only_first_token_is_read() {
    let own = vec![1u8; 32];
    let first = addr(7, 2);
    let mut datagram = first.to_wire_bytes();
    datagram.push(b';');
    datagram.extend_from_slice(&addr(8, 3).to_wire_bytes());
    let got = parse_announcement(&datagram, &own).unwrap().expect("a peer");
    assert_eq!(got.public_key, vec![2u8; 32]);
}

#[test]
fn listener_does_not_suppress_self() {
    let me = addr(7, 2);
    let datagram = me.to_wire_bytes();
    let got = parse_datagram(&datagram).unwrap();
    assert_eq!(got.public_key, vec![2u8; 32]);
}

#[test]
fn listener_rejects_malformed() {
    let r = parse_datagram(&b"net:zzz".to_vec());
    assert!(matches!(r, Err(PeerListenerError::ParseError(_))));
}
