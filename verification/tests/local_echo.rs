//! Two nodes in one process, wired through byte buffers: one announces,
//! the other discovers it, a session's frames flow from A to B, and the
//! goodbye closes B's side cleanly.

use scuttle_chat::addr::{IpAddr, SocketAddr};
use scuttle_chat::app_state::AppState;
use scuttle_chat::box_stream::{BoxReader, BoxWriter};
use scuttle_chat::chat::ChatSender;
use scuttle_chat::discovery::{parse_announcement, PeerAddr, Protocol};
use scuttle_chat::nonce::NonceGen;
use scuttle_chat::peer_connection::render_message;
use std::sync::mpsc;

#[test]
fn local_echo() {
    let key_a = vec![0x11u8; 32];
    let key_b = vec![0x22u8; 32];

    // node A announces itself on the wire; node B discovers it
    let a_addr = PeerAddr {
        protocol: Protocol::Net,
        socket_addr: SocketAddr { ip: IpAddr::V4(127, 0, 0, 1), port: 8008 },
        public_key: key_a.clone(),
    };
    let datagram = a_addr.to_wire_bytes();
    let mut b_state = AppState::new();
    let discovered = parse_announcement(&datagram, &key_b).unwrap().expect("a new peer");
    assert_eq!(discovered.public_key, key_a);
    b_state.on_new_peer(&discovered);
    assert_eq!(b_state.peers.len(), 1);

    // a completed handshake would give both ends one key and seed per
    // direction; take the A-to-B pair
    let session_key = vec![0x33u8; 32];
    let seed = vec![0x44u8; 24];
    let mut a_writer = BoxWriter::new(session_key.clone(), NonceGen::new(&seed));
    let mut b_reader = BoxReader::new(session_key, NonceGen::new(&seed));

    let (tx, _rx) = mpsc::channel::<String>();
    b_state.on_handshake_successful(&discovered, tx);

    // A sends "hello"; B decodes it and sees the message in its chat
    let frame = a_writer.send(&b"hello".to_vec()).unwrap();
    let body = b_reader.recv(&frame).unwrap().expect("a body");
    let text = render_message(&body);
    assert_eq!(text, "hello");
    b_state.on_message_received(&discovered, text);
    let chat = &b_state.chats[0].1;
    assert!(matches!(chat.messages.last().unwrap().sender, ChatSender::Peer(_)));
    assert_eq!(chat.messages.last().unwrap().message, "hello");

    // A hangs up; B observes the clean close
    let bye = a_writer.send_goodbye();
    assert_eq!(b_reader.recv(&bye).unwrap(), None);
    b_state.on_connection_closed(&discovered, true);
    let chat = &b_state.chats[0].1;
    assert!(chat.peer_tx.is_none());
    assert_eq!(chat.messages.last().unwrap().message, "Connection Closed -- Goodbye!");
}
