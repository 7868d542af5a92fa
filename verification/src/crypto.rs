//! Trusted bindings to the cryptographic and encoding primitives the
//! transport stack is built on: the `secretbox` authenticated cipher of
//! `ssb-crypto`, the standard base64 engine of `base64`, and std's UTF-8
//! decoding.  Each binding's contract states what the outside function's
//! documentation promises; results that cannot be written out (ciphertexts,
//! authentication tags, base64 text) are given names that the verified
//! callers' contracts are phrased over.

use vstd::prelude::*;

verus! {

/// The ciphertext `secretbox` produces for `msg` under `key` and `nonce`
/// (same length as `msg`).
pub uninterp spec fn sb_cipher(key: Seq<u8>, nonce: Seq<u8>, msg: Seq<u8>) -> Seq<u8>;

/// The 16-byte authentication tag `secretbox` produces for `msg` under
/// `key` and `nonce`.
pub uninterp spec fn sb_tag(key: Seq<u8>, nonce: Seq<u8>, msg: Seq<u8>) -> Seq<u8>;

/// What opening `cipher` with `tag` under `key` and `nonce` yields:
/// the plaintext when the tag authenticates the ciphertext, `None` otherwise.
pub uninterp spec fn sb_plain(key: Seq<u8>, nonce: Seq<u8>, cipher: Seq<u8>, tag: Seq<u8>) -> Option<
    Seq<u8>,
>;

/// Relies on `ssb_crypto::secretbox::Key::seal`: encrypts `msg` in place
/// (keeping its length) and returns the detached 16-byte tag.  Opening the
/// resulting pair under the same key and nonce gives back the message.
#[verifier::external_body]
pub(crate) fn sb_seal(msg: &mut Vec<u8>, nonce: &Vec<u8>, key: &Vec<u8>) -> (tag: Vec<u8>)
    requires
        nonce@.len() == 24,
        key@.len() == 32,
    ensures
        final(msg)@ == sb_cipher(key@, nonce@, old(msg)@),
        final(msg)@.len() == old(msg)@.len(),
        tag@ == sb_tag(key@, nonce@, old(msg)@),
        tag@.len() == 16,
        sb_plain(key@, nonce@, final(msg)@, tag@) == Some(old(msg)@),
{
    let k = ssb_crypto::secretbox::Key::from_slice(key.as_slice()).unwrap();
    let n = ssb_crypto::secretbox::Nonce::from_slice(nonce.as_slice()).unwrap();
    let hmac = k.seal(msg.as_mut_slice(), &n);
    hmac.0.to_vec()
}

/// Relies on `ssb_crypto::secretbox::Key::open`: verifies the detached tag
/// and, on success, decrypts `cipher` in place to the unique plaintext the
/// pair seals; on failure the buffer's length is still unchanged.
#[verifier::external_body]
pub(crate) fn sb_open(cipher: &mut Vec<u8>, tag: &Vec<u8>, nonce: &Vec<u8>, key: &Vec<u8>) -> (ok:
    bool)
    requires
        nonce@.len() == 24,
        key@.len() == 32,
        tag@.len() == 16,
    ensures
        ok <==> sb_plain(key@, nonce@, old(cipher)@, tag@) is Some,
        ok ==> Some(final(cipher)@) == sb_plain(key@, nonce@, old(cipher)@, tag@),
        final(cipher)@.len() == old(cipher)@.len(),
{
    let k = ssb_crypto::secretbox::Key::from_slice(key.as_slice()).unwrap();
    let n = ssb_crypto::secretbox::Nonce::from_slice(nonce.as_slice()).unwrap();
    let t = ssb_crypto::secretbox::Hmac::from_slice(tag.as_slice()).unwrap();
    k.open(cipher.as_mut_slice(), &t, &n)
}

/// The standard base64 text (as ASCII bytes) of `bytes`.
pub uninterp spec fn b64_encoding(bytes: Seq<u8>) -> Seq<u8>;

/// What standard base64 decoding of `text` yields: the decoded bytes for
/// canonical padded base64 text, `None` otherwise.
pub uninterp spec fn b64_decoding(text: Seq<u8>) -> Option<Seq<u8>>;

/// A byte of the standard base64 alphabet, or the `=` padding byte.
pub open spec fn is_b64_byte(b: u8) -> bool {
    (65 <= b <= 90)  // 'A'..='Z'
     || (97 <= b <= 122)  // 'a'..='z'
     || (48 <= b <= 57)  // '0'..='9'
     || b == 43  // '+'
     || b == 47  // '/'
     || b == 61  // '='
}

/// Relies on `base64`'s standard engine `encode`: four alphabet-or-padding
/// output bytes for every started group of three input bytes, and decoding
/// the output gives back the input.
#[verifier::external_body]
pub(crate) fn b64_encode(bytes: &Vec<u8>) -> (r: Vec<u8>)
    ensures
        r@ == b64_encoding(bytes@),
        r@.len() == 4 * ((bytes@.len() + 2) / 3),
        forall|i: int| 0 <= i < r@.len() ==> is_b64_byte(r@[i]),
        b64_decoding(r@) == Some(bytes@),
{
    base64::Engine::encode(&base64::engine::general_purpose::STANDARD, bytes.as_slice()).into_bytes()
}

/// Relies on `base64`'s standard engine `decode`: succeeds exactly on
/// canonical padded base64 text and yields the encoded bytes.
#[verifier::external_body]
pub(crate) fn b64_decode(text: &Vec<u8>) -> (r: Option<Vec<u8>>)
    ensures
        r is Some <==> b64_decoding(text@) is Some,
        r matches Some(v) ==> b64_decoding(text@) == Some(v@),
{
    match base64::Engine::decode(&base64::engine::general_purpose::STANDARD, text.as_slice()) {
        Ok(v) => Some(v),
        Err(_) => None,
    }
}

/// Relies on `String::from_utf8`: succeeds exactly on valid UTF-8 and
/// yields its decoding.
#[verifier::external_body]
pub(crate) fn string_from_utf8(bytes: &Vec<u8>) -> (r: Option<String>)
    ensures
        r is Some <==> vstd::utf8::valid_utf8(bytes@),
        r matches Some(s) ==> s@ == vstd::utf8::decode_utf8(bytes@),
{
    match String::from_utf8(bytes.clone()) {
        Ok(s) => Some(s),
        Err(_) => None,
    }
}

} // verus!
