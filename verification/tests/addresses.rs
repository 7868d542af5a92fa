use scuttle_chat::addr::{IpAddr, SocketAddr};
use scuttle_chat::box_stream::BoxStreamError;
use scuttle_chat::discovery::{DiscoveryServiceError, ParsePeerAddrError, PeerAddr, Protocol};
use scuttle_chat::net::{ParseSsbPeerError, PeerListenerError, SsbPeer};

fn v4(a: u8, b: u8, c: u8, d: u8, port: u16) -> SocketAddr {
    SocketAddr { ip: IpAddr::V4(a, b, c, d), port }
}

#[test]
fn format_zero_key_exact() {
    let p = PeerAddr {
        protocol: Protocol::Net,
        socket_addr: v4(192, 168, 1, 5, 8008),
        public_key: vec![0u8; 32],
    };
    assert_eq!(
        p.display_string(),
        "net:192.168.1.5:8008~shs:AAAAAAAAAAAAAAAAAAAAAAAAAAAAAAAAAAAAAAAAAAA="
    );
}

#[test]
fn feed_id_exact() {
    let p = PeerAddr {
        protocol: Protocol::Net,
        socket_addr: v4(1, 2, 3, 4, 1),
        public_key: vec![0u8; 32],
    };
    assert_eq!(p.feed_id(), "@AAAAAAAAAAAAAAAAAAAAAAAAAAAAAAAAAAAAAAAAAAA=.ed25519");
}

#[test]
fn parse_formatted_address_round_trip() {
    let key: Vec<u8> = (0u8..32).collect();
    let p = PeerAddr {
        protocol: Protocol::Net,
        socket_addr: v4(10, 0, 0, 1, 8008),
        public_key: key.clone(),
    };
    let text = p.display_string();
    let q = PeerAddr::from_str(&text).unwrap();
    assert!(matches!(q.protocol, Protocol::Net));
    assert_eq!(q.socket_addr, p.socket_addr);
    assert_eq!(q.public_key, key);
}

#[test]
fn parse_ws_round_trip() {
    let key = vec![9u8; 32];
    let p = PeerAddr {
        protocol: Protocol::WebSocket,
        socket_addr: v4(127, 0, 0, 1, 80),
        public_key: key.clone(),
    };
    let text = p.display_string();
    assert!(text.starts_with("ws://"));
    let q = PeerAddr::from_str(&text).unwrap();
    assert!(matches!(q.protocol, Protocol::WebSocket));
    assert_eq!(q.socket_addr, p.socket_addr);
    assert_eq!(q.public_key, key);
}

#[test]
fn parse_v6_round_trip() {
    let key = vec![1u8; 32];
    let p = PeerAddr {
        protocol: Protocol::Net,
        socket_addr: SocketAddr {
            ip: IpAddr::V6(0x2001, 0xdb8, 0, 0, 0, 0, 0xab, 1),
            port: 8008,
        },
        public_key: key.clone(),
    };
    let text = p.display_string();
    assert_eq!(&text[..4], "net:");
    assert!(text.contains("[2001:db8:0:0:0:0:ab:1]:8008"));
    let q = PeerAddr::from_str(&text).unwrap();
    assert_eq!(q.socket_addr, p.socket_addr);
    assert_eq!(q.public_key, key);
}

#[test]
fn parse_succeeds_iff_key_is_32_bytes() {
    // 44 base64 chars decoding to 32 bytes
    let ok = "net:10.0.0.1:8008~shs:AAAAAAAAAAAAAAAAAAAAAAAAAAAAAAAAAAAAAAAAAAA=";
    assert!(PeerAddr::from_str(ok).is_ok());
    // valid base64, but only 2 bytes
    let short = "net:10.0.0.1:8008~shs:AAA=";
    assert!(PeerAddr::from_str(short).is_err());
    // not base64 at all
    let junk = "net:10.0.0.1:8008~shs:!!!!";
    assert!(PeerAddr::from_str(junk).is_err());
}

#[test]
fn parse_rejects_unknown_scheme() {
    assert!(PeerAddr::from_str("http://10.0.0.1:8008~shs:AA==").is_err());
}

#[test]
fn parse_rejects_bad_host() {
    assert!(PeerAddr::from_str("net:x~shs:AA==").is_err());
    assert!(
        PeerAddr::from_str("net:01.2.3.4:80~shs:AAAAAAAAAAAAAAAAAAAAAAAAAAAAAAAAAAAAAAAAAAA=")
            .is_err()
    );
    assert!(
        PeerAddr::from_str("net:1.2.3.4:65536~shs:AAAAAAAAAAAAAAAAAAAAAAAAAAAAAAAAAAAAAAAAAAA=")
            .is_err()
    );
    assert!(
        PeerAddr::from_str("net:1.2.3.456:80~shs:AAAAAAAAAAAAAAAAAAAAAAAAAAAAAAAAAAAAAAAAAAA=")
            .is_err()
    );
}

#[test]
fn parse_missing_separator_fails() {
    assert!(PeerAddr::from_str("net:10.0.0.1:8008").is_err());
}

#[test]
fn equality_is_by_public_key() {
    let a = PeerAddr {
        protocol: Protocol::Net,
        socket_addr: v4(1, 1, 1, 1, 1),
        public_key: vec![5u8; 32],
    };
    let b = PeerAddr {
        protocol: Protocol::WebSocket,
        socket_addr: v4(2, 2, 2, 2, 2),
        public_key: vec![5u8; 32],
    };
    let c = PeerAddr {
        protocol: Protocol::Net,
        socket_addr: v4(1, 1, 1, 1, 1),
        public_key: vec![6u8; 32],
    };
    assert!(a == b);
    assert!(a != c);
}

#[test]
fn ssb_peer_from_str_matches() {
    let key: Vec<u8> = (100u8..132).collect();
    let p = PeerAddr {
        protocol: Protocol::Net,
        socket_addr: v4(10, 1, 2, 3, 9999),
        public_key: key.clone(),
    };
    let text = p.display_string();
    let q = SsbPeer::from_str(&text).unwrap();
    assert_eq!(q.public_key, key);
    assert_eq!(q.socket_addr, p.socket_addr);
    assert_eq!(q.feed_id(), p.feed_id());
    assert_eq!(q.display_string(), text);
}

#[test]
fn error_texts_and_conversions() {
    assert_eq!(ParsePeerAddrError().display_string(), "Failed to parse PeerAddr string");
    assert_eq!(ParseSsbPeerError().display_string(), "Failed to parse SsbPeer string");
    assert_eq!(BoxStreamError::HeaderOpenFailed.display_string(), "Header open failed");
    assert_eq!(
        DiscoveryServiceError::from(ParsePeerAddrError()),
        DiscoveryServiceError::ParseError(ParsePeerAddrError())
    );
    assert_eq!(
        PeerListenerError::from(ParseSsbPeerError()),
        PeerListenerError::ParseError(ParseSsbPeerError())
    );
}
