use scuttle_chat::box_stream::{BoxReader, BoxStreamError, BoxWriter};
use scuttle_chat::nonce::NonceGen;

fn writer(key: [u8; 32], seed: [u8; 24]) -> BoxWriter {
    BoxWriter::new(key.to_vec(), NonceGen::new(&seed.to_vec()))
}

fn reader(key: [u8; 32], seed: [u8; 24]) -> BoxReader {
    BoxReader::new(key.to_vec(), NonceGen::new(&seed.to_vec()))
}

const KEY: [u8; 32] = [7u8; 32];
const SEED: [u8; 24] = [3u8; 24];

#[test]
fn round_trip_hello() {
    let mut w = writer(KEY, SEED);
    let mut r = reader(KEY, SEED);
    let frame = w.send(&b"hello".to_vec()).unwrap();
    assert_eq!(frame.len(), 34 + 5);
    let got = r.recv(&frame).unwrap();
    assert_eq!(got, Some(b"hello".to_vec()));
}

#[test]
fn round_trip_boundary_sizes() {
    for &n in &[1usize, 2, 4095, 4096] {
        let mut w = writer(KEY, SEED);
        let mut r = reader(KEY, SEED);
        let body = vec![0xabu8; n];
        let frame = w.send(&body).unwrap();
        assert_eq!(frame.len(), 34 + n);
        assert_eq!(r.recv(&frame).unwrap(), Some(body));
    }
}

#[test]
fn oversize_rejected_before_any_output() {
    let mut w = writer(KEY, SEED);
    let r = w.send(&vec![1u8; 5000]);
    assert_eq!(r, Err(BoxStreamError::FrameTooLarge));
    // the refusal burned no nonce: the next send is still the first frame
    let frame_after = w.send(&b"x".to_vec()).unwrap();
    let mut w2 = writer(KEY, SEED);
    assert_eq!(frame_after, w2.send(&b"x".to_vec()).unwrap());
    let r2 = writer(KEY, SEED).send(&vec![2u8; 4097]);
    assert_eq!(r2, Err(BoxStreamError::FrameTooLarge));
}

#[test]
fn goodbye_after_message() {
    let mut w = writer(KEY, SEED);
    let mut r = reader(KEY, SEED);
    let f1 = w.send(&b"A".to_vec()).unwrap();
    let f2 = w.send_goodbye();
    assert_eq!(f2.len(), 34);
    assert_eq!(r.recv(&f1).unwrap(), Some(b"A".to_vec()));
    assert_eq!(r.recv(&f2).unwrap(), None);
}

#[test]
fn header_ciphertext_tamper_fails() {
    let mut w = writer(KEY, SEED);
    let mut r = reader(KEY, SEED);
    let mut frame = w.send(&b"hello".to_vec()).unwrap();
    // byte 0 of the header ciphertext region (after the 16-byte tag)
    frame[16] ^= 1;
    assert_eq!(r.recv(&frame), Err(BoxStreamError::HeaderOpenFailed));
}

#[test]
fn header_tag_tamper_fails() {
    let mut w = writer(KEY, SEED);
    let mut r = reader(KEY, SEED);
    let mut frame = w.send(&b"hello".to_vec()).unwrap();
    frame[0] ^= 0x80;
    assert_eq!(r.recv(&frame), Err(BoxStreamError::HeaderOpenFailed));
}

#[test]
fn body_ciphertext_tamper_fails() {
    let mut w = writer(KEY, SEED);
    let mut r = reader(KEY, SEED);
    let mut frame = w.send(&b"hello".to_vec()).unwrap();
    frame[34] ^= 1;
    assert_eq!(r.recv(&frame), Err(BoxStreamError::BodyOpenFailed));
}

#[test]
fn wrong_key_fails() {
    let mut w = writer(KEY, SEED);
    let mut r = reader([8u8; 32], SEED);
    let frame = w.send(&b"hello".to_vec()).unwrap();
    assert_eq!(r.recv(&frame), Err(BoxStreamError::HeaderOpenFailed));
}

#[test]
fn short_frame_is_io_error() {
    let mut w = writer(KEY, SEED);
    let mut r = reader(KEY, SEED);
    let mut frame = w.send(&b"hello".to_vec()).unwrap();
    frame.pop();
    assert_eq!(r.recv(&frame), Err(BoxStreamError::ReaderIoError));
}

#[test]
fn oversized_length_field_is_frame_too_large() {
    // seal a header announcing a 5000-byte body, bypassing the writer's cap
    let key = ssb_crypto::secretbox::Key(KEY);
    let nonce = ssb_crypto::secretbox::Nonce(SEED);
    let mut payload = [0u8; 18];
    payload[0] = (5000u16 >> 8) as u8;
    payload[1] = (5000u16 & 0xff) as u8;
    payload[2] = 9; // some body tag bytes
    let tag = key.seal(&mut payload, &nonce);
    let mut hbox = tag.0.to_vec();
    hbox.extend_from_slice(&payload);
    let mut r = reader(KEY, SEED);
    assert_eq!(r.recv_header(&hbox), Err(BoxStreamError::FrameTooLarge));
}

#[test]
fn streaming_header_then_body() {
    let mut w = writer(KEY, SEED);
    let mut r = reader(KEY, SEED);
    let frame = w.send(&b"split it".to_vec()).unwrap();
    let hbox = frame[..34].to_vec();
    let cbody = frame[34..].to_vec();
    let (len, tag) = r.recv_header(&hbox).unwrap().expect("not a goodbye");
    assert_eq!(len as usize, cbody.len());
    let body = r.recv_body(&tag, &cbody).unwrap();
    assert_eq!(body, b"split it".to_vec());
}

#[test]
fn nonce_counter_steps_by_one() {
    let mut g = NonceGen::new(&[0u8; 24].to_vec());
    let n0 = g.next();
    let n1 = g.next();
    assert_eq!(n0, vec![0u8; 24]);
    let mut expect = vec![0u8; 24];
    expect[23] = 1;
    assert_eq!(n1, expect);
}

#[test]
fn nonce_counter_carries_and_wraps() {
    let mut seed = vec![0u8; 24];
    seed[22] = 1;
    seed[23] = 0xff;
    let mut g = NonceGen::new(&seed);
    assert_eq!(g.next(), seed);
    let mut expect = vec![0u8; 24];
    expect[22] = 2;
    assert_eq!(g.next(), expect);

    let mut all_ff = NonceGen::new(&vec![0xffu8; 24]);
    assert_eq!(all_ff.next(), vec![0xffu8; 24]);
    assert_eq!(all_ff.next(), vec![0u8; 24]);
}

#[test]
fn distinct_nonces_distinct_frames() {
    // the two frames of identical bodies differ, because nonces differ
    let mut w = writer(KEY, SEED);
    let f1 = w.send(&b"same".to_vec()).unwrap();
    let f2 = w.send(&b"same".to_vec()).unwrap();
    assert_ne!(f1, f2);
}
