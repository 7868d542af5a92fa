use scuttle_chat::addr::{IpAddr, SocketAddr};
use scuttle_chat::app_state::{Action, AppMode, AppState, InputKey};
use scuttle_chat::chat::ChatSender;
use scuttle_chat::discovery::{PeerAddr, Protocol};
use scuttle_chat::peer_connection::{
    classify_handshake_fault, render_message, HandshakeErrorKind, HandshakeFault,
};
use std::sync::mpsc;

fn addr(last_octet: u8, key_byte: u8) -> PeerAddr {
    PeerAddr {
        protocol: Protocol::Net,
        socket_addr: SocketAddr { ip: IpAddr::V4(10, 0, 0, last_octet), port: 8008 },
        public_key: vec![key_byte; 32],
    }
}

#[test]
fn selection_wraps_both_ways() {
    let mut st = AppState::new();
    for i in 0..3u8 {
        st.on_new_peer(&addr(i, i + 1));
    }
    assert_eq!(st.peers.len(), 3);
    assert_eq!(st.selected, None);
    st.handle_input_normal(InputKey::Down);
    assert_eq!(st.selected, Some(0));
    st.handle_input_normal(InputKey::Char('j'));
    st.handle_input_normal(InputKey::Char('j'));
    assert_eq!(st.selected, Some(2));
    st.handle_input_normal(InputKey::Char('j'));
    assert_eq!(st.selected, Some(0));
    st.handle_input_normal(InputKey::Char('k'));
    assert_eq!(st.selected, Some(2));
    st.handle_input_normal(InputKey::Esc);
    assert_eq!(st.selected, None);
}

#[test]
fn new_peer_is_listed_once() {
    let mut st = AppState::new();
    st.on_new_peer(&addr(1, 9));
    st.on_new_peer(&addr(1, 9));
    assert_eq!(st.peers.len(), 1);
}

#[test]
fn enter_without_selection_only_logs() {
    let mut st = AppState::new();
    let r = st.handle_input_normal(InputKey::Char('\n'));
    assert!(matches!(r, Action::Idle));
    assert_eq!(st.debug_log.len(), 1);
    assert!(matches!(st.mode, AppMode::Normal));
}

#[test]
fn enter_on_selected_peer_requests_connection() {
    let mut st = AppState::new();
    let p = addr(1, 9);
    st.on_new_peer(&p);
    st.handle_input_normal(InputKey::Down);
    let r = st.handle_input_normal(InputKey::Char('\n'));
    match r {
        Action::Connect(q) => assert_eq!(q.public_key, p.public_key),
        _ => panic!("expected a connect action"),
    }
    assert!(matches!(st.mode, AppMode::Chat(_)));
}

#[test]
fn quit_and_debug_keys() {
    let mut st = AppState::new();
    assert!(matches!(st.handle_input_normal(InputKey::Char('q')), Action::Quit));
    assert!(matches!(st.handle_input_normal(InputKey::Char('d')), Action::Idle));
    assert!(matches!(st.mode, AppMode::Debug));
    st.handle_input_debug(InputKey::Char('x'));
    assert!(matches!(st.mode, AppMode::Debug));
    st.handle_input_debug(InputKey::Esc);
    assert!(matches!(st.mode, AppMode::Normal));
}

#[test]
fn chat_send_round_trip_through_channel() {
    let mut st = AppState::new();
    let p = addr(1, 9);
    st.on_new_peer(&p);
    let (tx, rx) = mpsc::channel::<String>();
    st.on_handshake_successful(&p, tx);
    assert_eq!(st.chats.len(), 1);
    assert_eq!(st.chats[0].1.messages.len(), 2);

    let id = p.feed_id();
    st.handle_input_chat(&id, InputKey::Char('h'));
    st.handle_input_chat(&id, InputKey::Char('i'));
    st.handle_input_chat(&id, InputKey::Char('!'));
    st.handle_input_chat(&id, InputKey::Backspace);
    assert_eq!(st.chats[0].1.input, "hi");
    let r = st.handle_input_chat(&id, InputKey::Char('\n'));
    assert!(matches!(r, Action::Idle));
    assert_eq!(rx.try_recv().unwrap(), "hi");
    let last = st.chats[0].1.messages.last().unwrap();
    assert!(matches!(last.sender, ChatSender::_You));
    assert_eq!(last.message, "hi");
    assert_eq!(st.chats[0].1.input, "");
}

#[test]
fn chat_send_without_connection_notes_it() {
    let mut st = AppState::new();
    let p = addr(1, 9);
    st.on_new_peer(&p);
    let (tx, rx) = mpsc::channel::<String>();
    st.on_handshake_successful(&p, tx);
    let id = p.feed_id();
    st.on_connection_closed(&p, true);
    assert!(st.chats[0].1.peer_tx.is_none());
    st.handle_input_chat(&id, InputKey::Char('y'));
    st.handle_input_chat(&id, InputKey::Char('\n'));
    assert!(rx.try_recv().is_err());
    let last = st.chats[0].1.messages.last().unwrap();
    assert!(matches!(last.sender, ChatSender::Info));
}

#[test]
fn message_received_appends_peer_line() {
    let mut st = AppState::new();
    let p = addr(1, 9);
    st.on_new_peer(&p);
    let (tx, _rx) = mpsc::channel::<String>();
    st.on_handshake_successful(&p, tx);
    st.on_message_received(&p, "hello".to_string());
    let last = st.chats[0].1.messages.last().unwrap();
    assert!(matches!(last.sender, ChatSender::Peer(_)));
    assert_eq!(last.message, "hello");
}

#[test]
fn goodbye_closes_chat_cleanly() {
    let mut st = AppState::new();
    let p = addr(1, 9);
    st.on_new_peer(&p);
    let (tx, _rx) = mpsc::channel::<String>();
    st.on_handshake_successful(&p, tx);
    let before = st.chats[0].1.messages.len();
    st.on_connection_closed(&p, true);
    assert_eq!(st.chats[0].1.messages.len(), before + 1);
    assert_eq!(st.chats[0].1.messages.last().unwrap().message, "Connection Closed -- Goodbye!");
    assert!(st.chats[0].1.peer_tx.is_none());
}

#[test]
fn handshake_failure_is_logged_and_noted() {
    let mut st = AppState::new();
    let p = addr(1, 9);
    st.on_new_peer(&p);
    let (tx, _rx) = mpsc::channel::<String>();
    st.on_handshake_successful(&p, tx);
    let logs = st.debug_log.len();
    st.on_handshake_failed(&p);
    assert!(st.debug_log.len() > logs);
    assert!(st.chats[0].1.peer_tx.is_none());
}

#[test]
fn debug_log_keeps_sixteen_lines() {
    let mut st = AppState::new();
    for i in 0..20 {
        st.log((format!("line {}", i), "DEBUG".to_string()));
    }
    assert_eq!(st.debug_log.len(), 16);
    assert_eq!(st.debug_log[0].0, "line 4");
}

#[test]
fn handshake_fault_taxonomy() {
    assert_eq!(
        classify_handshake_fault(HandshakeFault::Io),
        HandshakeErrorKind::TransportClosed
    );
    assert_eq!(
        classify_handshake_fault(HandshakeFault::ClientHelloVerify),
        HandshakeErrorKind::WrongNetworkKey
    );
    assert_eq!(
        classify_handshake_fault(HandshakeFault::ServerHelloVerify),
        HandshakeErrorKind::WrongNetworkKey
    );
    assert_eq!(
        classify_handshake_fault(HandshakeFault::UnexpectedEnd),
        HandshakeErrorKind::ProtocolRejected
    );
    assert_eq!(
        classify_handshake_fault(HandshakeFault::ServerAcceptVerify),
        HandshakeErrorKind::ProtocolRejected
    );
}

#[test]
fn received_bodies_render_as_text_or_hex() {
    assert_eq!(render_message(&b"hello".to_vec()), "hello");
    assert_eq!(render_message(&vec![0xff, 0x00, 0xab]), "ff00ab");
}
