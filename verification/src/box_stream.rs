//! The box-stream codec: frame-level authenticated encryption over a byte
//! stream.  A frame is a 34-byte sealed header (16-byte tag, 18-byte header
//! ciphertext) followed by the sealed body; the header plaintext carries the
//! body length and the body's tag.  An all-zero header plaintext is the
//! goodbye sentinel.  The writer and reader here turn bodies into wire bytes
//! and back; the surrounding program moves those bytes over the transport.

use vstd::prelude::*;
use crate::crypto::{sb_cipher, sb_open, sb_plain, sb_seal, sb_tag};
use vstd::arithmetic::div_mod::{lemma_mod_multiples_vanish, lemma_mod_self_0, lemma_small_mod};
use crate::nonce::{be_bytes, lemma_pow256_pos, pow256, NonceGen};
use crate::wire::{all_zero, spec_u16_be, spec_u16_from_be};
use crate::wire::{append_bytes, is_all_zero, sub_bytes, u16_from_be, u16_to_be, zero_bytes};

verus! {

/// The largest body a frame may carry.
pub const MAX_BODY_LEN: usize = 4096;

/// How a frame can fail to decode.  Every failure is terminal for the
/// stream: the reader's nonce sequence no longer matches the writer's.
#[derive(Clone, Copy, PartialEq, Eq, Structural, Debug)]
pub enum BoxStreamError {
    /// The input ended before a whole frame was available.
    ReaderIoError,
    /// The sealed header did not authenticate.
    HeaderOpenFailed,
    /// The sealed body did not authenticate.
    BodyOpenFailed,
    /// A length field beyond `MAX_BODY_LEN`, or an oversized send.
    FrameTooLarge,
}

/// The nonce a generator seeded with counter `c` hands out on its `i`-th draw.
pub open spec fn nonce_at(c: nat, i: nat) -> Seq<u8> {
    be_bytes((c + i) % pow256(24), 24)
}

/// The 18-byte header plaintext: big-endian body length, then the body's tag.
pub open spec fn header_plain(key: Seq<u8>, body_nonce: Seq<u8>, body: Seq<u8>) -> Seq<u8> {
    spec_u16_be(body.len() as u16) + sb_tag(key, body_nonce, body)
}

/// The full wire encoding of one body frame sent at counter `c`.
pub open spec fn frame_bytes(key: Seq<u8>, c: nat, body: Seq<u8>) -> Seq<u8> {
    let nh = nonce_at(c, 0);
    let nb = nonce_at(c, 1);
    let hp = header_plain(key, nb, body);
    sb_tag(key, nh, hp) + sb_cipher(key, nh, hp) + sb_cipher(key, nb, body)
}

/// The wire encoding of the goodbye sentinel sent at counter `c`.
pub open spec fn goodbye_bytes(key: Seq<u8>, c: nat) -> Seq<u8> {
    let nh = nonce_at(c, 0);
    let zeros = Seq::new(18, |i: int| 0u8);
    sb_tag(key, nh, zeros) + sb_cipher(key, nh, zeros)
}

/// What opening a 34-byte sealed header at counter `c` yields:
/// `Ok(None)` for the goodbye sentinel, `Ok(Some((len, tag)))` for a body
/// announcement, or the error the reader must surface.
pub open spec fn header_outcome(key: Seq<u8>, c: nat, hdr: Seq<u8>) -> Result<
    Option<(u16, Seq<u8>)>,
    BoxStreamError,
>
    recommends
        hdr.len() == 34,
{
    match sb_plain(key, nonce_at(c, 0), hdr.subrange(16, 34), hdr.subrange(0, 16)) {
        Option::None => Result::Err(BoxStreamError::HeaderOpenFailed),
        Option::Some(hp) => if all_zero(hp) {
            Result::Ok(Option::None)
        } else {
            let len = spec_u16_from_be(hp.subrange(0, 2));
            if len > 4096 {
                Result::Err(BoxStreamError::FrameTooLarge)
            } else {
                Result::Ok(Option::Some((len, hp.subrange(2, 18))))
            }
        },
    }
}

/// What a reader at counter `c` yields for a buffer holding one whole frame.
pub open spec fn recv_outcome(key: Seq<u8>, c: nat, wire: Seq<u8>) -> Result<
    Option<Seq<u8>>,
    BoxStreamError,
>
    recommends
        wire.len() >= 34,
{
    match header_outcome(key, c, wire.subrange(0, 34)) {
        Result::Err(e) => Result::Err(e),
        Result::Ok(Option::None) => if wire.len() == 34 {
            Result::Ok(Option::None)
        } else {
            Result::Err(BoxStreamError::ReaderIoError)
        },
        Result::Ok(Option::Some((len, tag))) => if wire.len() != 34 + len {
            Result::Err(BoxStreamError::ReaderIoError)
        } else {
            match sb_plain(key, nonce_at(c, 1), wire.skip(34), tag) {
                Option::Some(b) => Result::Ok(Option::Some(b)),
                Option::None => Result::Err(BoxStreamError::BodyOpenFailed),
            }
        },
    }
}

/// The sending half of a box stream: the write key and the write-direction
/// nonce generator, used by nothing else.
pub struct BoxWriter {
    key: Vec<u8>,
    noncegen: NonceGen,
}

/// The receiving half of a box stream: the read key and the read-direction
/// nonce generator, used by nothing else.
pub struct BoxReader {
    key: Vec<u8>,
    noncegen: NonceGen,
}

impl BoxWriter {
    pub closed spec fn wf(self) -> bool {
        self.key@.len() == 32 && self.noncegen.wf()
    }

    /// The session key this writer seals with.
    pub closed spec fn key_view(self) -> Seq<u8> {
        self.key@
    }

    /// The counter the next drawn nonce will carry.
    pub closed spec fn counter(self) -> nat {
        self.noncegen.counter()
    }

    pub fn new(key: Vec<u8>, noncegen: NonceGen) -> (r: BoxWriter)
        requires
            key@.len() == 32,
            noncegen.wf(),
        ensures
            r.wf(),
            r.key_view() == key@,
            r.counter() == noncegen.counter(),
    {
        BoxWriter { key, noncegen }
    }

    /// Seal `body` into one frame.  Bodies over `MAX_BODY_LEN` are refused
    /// before any nonce is drawn or any byte produced.  On success the
    /// result is exactly the frame a reader at the same key and counter
    /// decodes back to `body` (the round-trip clause below).
    pub fn send(&mut self, body: &Vec<u8>) -> (r: Result<Vec<u8>, BoxStreamError>)
        requires
            old(self).wf(),
            body@.len() >= 1,
        ensures
            final(self).wf(),
            final(self).key_view() == old(self).key_view(),
            body@.len() > 4096 ==> r == Result::<Vec<u8>, BoxStreamError>::Err(
                BoxStreamError::FrameTooLarge,
            ) && final(self).counter() == old(self).counter(),
            body@.len() <= 4096 ==> {
                &&& r matches Result::Ok(w)
                &&& w@ == frame_bytes(old(self).key_view(), old(self).counter(), body@)
                &&& recv_outcome(old(self).key_view(), old(self).counter(), w@)
                    == Result::<Option<Seq<u8>>, BoxStreamError>::Ok(Option::Some(body@))
                &&& final(self).counter() == (old(self).counter() + 2) % pow256(24)
            },
    {
        if body.len() > MAX_BODY_LEN {
            return Result::Err(BoxStreamError::FrameTooLarge);
        }
        proof {
            self.noncegen.lemma_counter_bound();
        }
        let nh = self.noncegen.next();
        let nb = self.noncegen.next();
        proof {
            lemma_pow256_pos(24);
            lemma_small_mod(old(self).counter(), pow256(24));
            lemma_counter_steps(old(self).counter());
            assert(nh@ == nonce_at(old(self).counter(), 0));
            assert(nb@ == nonce_at(old(self).counter(), 1));
        }
        // seal the body
        let mut cbody = body.clone();
        let btag = sb_seal(&mut cbody, &nb, &self.key);
        // build and seal the 18-byte header plaintext
        let mut hp = u16_to_be(body.len() as u16);
        append_bytes(&mut hp, &btag);
        let ghost hp0 = hp@;
        proof {
            assert(hp0 =~= header_plain(old(self).key_view(), nonce_at(old(self).counter(), 1), body@));
        }
        let htag = sb_seal(&mut hp, &nh, &self.key);
        // assemble tag ++ header ciphertext ++ body ciphertext
        let mut w = htag;
        append_bytes(&mut w, &hp);
        append_bytes(&mut w, &cbody);
        proof {
            let key = old(self).key_view();
            let c = old(self).counter();
            assert(w@ =~= frame_bytes(key, c, body@));
            // the frame decodes back to the body
            let hdr = w@.subrange(0, 34);
            assert(hdr.subrange(0, 16) =~= sb_tag(key, nonce_at(c, 0), hp0));
            assert(hdr.subrange(16, 34) =~= sb_cipher(key, nonce_at(c, 0), hp0));
            assert(!all_zero(hp0)) by {
                if body@.len() >= 256 {
                    assert(hp0[0] != 0);
                } else {
                    assert(hp0[1] != 0);
                }
            };
            assert(hp0.subrange(0, 2) =~= spec_u16_be(body@.len() as u16));
            crate::wire::lemma_u16_be_round_trip(body@.len() as u16);
            assert(hp0.subrange(2, 18) =~= sb_tag(key, nonce_at(c, 1), body@));
            assert(w@.skip(34) =~= sb_cipher(key, nonce_at(c, 1), body@));
            assert(header_outcome(key, c, hdr) == Result::<Option<(u16, Seq<u8>)>,
                BoxStreamError>::Ok(Option::Some((body@.len() as u16, hp0.subrange(2, 18)))));
            assert(recv_outcome(key, c, w@) == Result::<Option<Seq<u8>>, BoxStreamError>::Ok(
                Option::Some(body@),
            ));
        }
        Result::Ok(w)
    }

    /// Seal the goodbye sentinel: one frame of 18 zero bytes.  The writer
    /// is consumed; its side of the stream is closed.  A reader at the
    /// same key and counter decodes the sentinel as end-of-stream.
    pub fn send_goodbye(self) -> (r: Vec<u8>)
        requires
            self.wf(),
        ensures
            r@ == goodbye_bytes(self.key_view(), self.counter()),
            recv_outcome(self.key_view(), self.counter(), r@) == Result::<
                Option<Seq<u8>>,
                BoxStreamError,
            >::Ok(Option::None),
    {
        let mut this = self;
        proof {
            this.noncegen.lemma_counter_bound();
        }
        let nh = this.noncegen.next();
        proof {
            lemma_pow256_pos(24);
            lemma_small_mod(self.counter(), pow256(24));
            assert(nh@ == nonce_at(self.counter(), 0));
        }
        let mut zeros = zero_bytes(18);
        let ghost z0 = zeros@;
        let htag = sb_seal(&mut zeros, &nh, &this.key);
        let mut w = htag;
        append_bytes(&mut w, &zeros);
        proof {
            let key = self.key_view();
            let c = self.counter();
            assert(z0 =~= Seq::new(18, |i: int| 0u8));
            assert(w@ =~= goodbye_bytes(key, c));
            let hdr = w@.subrange(0, 34);
            assert(hdr =~= w@);
            assert(hdr.subrange(0, 16) =~= sb_tag(key, nonce_at(c, 0), z0));
            assert(hdr.subrange(16, 34) =~= sb_cipher(key, nonce_at(c, 0), z0));
            assert(recv_outcome(key, c, w@) == Result::<Option<Seq<u8>>, BoxStreamError>::Ok(
                Option::None::<Seq<u8>>,
            ));
        }
        w
    }
}

impl BoxReader {
    pub closed spec fn wf(self) -> bool {
        self.key@.len() == 32 && self.noncegen.wf()
    }

    /// The session key this reader opens with.
    pub closed spec fn key_view(self) -> Seq<u8> {
        self.key@
    }

    /// The counter the next drawn nonce will carry.
    pub closed spec fn counter(self) -> nat {
        self.noncegen.counter()
    }

    pub fn new(key: Vec<u8>, noncegen: NonceGen) -> (r: BoxReader)
        requires
            key@.len() == 32,
            noncegen.wf(),
        ensures
            r.wf(),
            r.key_view() == key@,
            r.counter() == noncegen.counter(),
    {
        BoxReader { key, noncegen }
    }

    /// Open one 34-byte sealed header.  `Ok(None)` is the goodbye sentinel;
    /// `Ok(Some((len, tag)))` announces a body of `len` bytes whose sealed
    /// form must be handed to [`BoxReader::recv_body`] next.
    pub fn recv_header(&mut self, hbox: &Vec<u8>) -> (r: Result<
        Option<(u16, Vec<u8>)>,
        BoxStreamError,
    >)
        requires
            old(self).wf(),
            hbox@.len() == 34,
        ensures
            final(self).wf(),
            final(self).key_view() == old(self).key_view(),
            final(self).counter() == (old(self).counter() + 1) % pow256(24),
            match r {
                Result::Ok(Option::None) => header_outcome(
                    old(self).key_view(),
                    old(self).counter(),
                    hbox@,
                ) == Result::<Option<(u16, Seq<u8>)>, BoxStreamError>::Ok(
                    Option::None::<(u16, Seq<u8>)>,
                ),
                Result::Ok(Option::Some((len, tag))) => header_outcome(
                    old(self).key_view(),
                    old(self).counter(),
                    hbox@,
                ) == Result::<Option<(u16, Seq<u8>)>, BoxStreamError>::Ok(
                    Option::Some((len, tag@)),
                ) && len <= 4096 && tag@.len() == 16,
                Result::Err(e) => header_outcome(
                    old(self).key_view(),
                    old(self).counter(),
                    hbox@,
                ) == Result::<Option<(u16, Seq<u8>)>, BoxStreamError>::Err(e),
            },
    {
        proof {
            self.noncegen.lemma_counter_bound();
        }
        let nh = self.noncegen.next();
        let htag = sub_bytes(hbox, 0, 16);
        let mut hp = sub_bytes(hbox, 16, 34);
        let ghost ct0 = hp@;
        proof {
            lemma_pow256_pos(24);
            lemma_small_mod(old(self).counter(), pow256(24));
            assert(nh@ == nonce_at(old(self).counter(), 0));
            assert(ct0 =~= hbox@.subrange(16, 34));
            assert(htag@ =~= hbox@.subrange(0, 16));
        }
        let ok = sb_open(&mut hp, &htag, &nh, &self.key);
        if !ok {
            return Result::Err(BoxStreamError::HeaderOpenFailed);
        }
        if is_all_zero(&hp) {
            return Result::Ok(Option::None);
        }
        let len = u16_from_be(hp[0], hp[1]);
        proof {
            assert(hp@.subrange(0, 2) =~= seq![hp@[0], hp@[1]]);
        }
        if len > 4096 {
            return Result::Err(BoxStreamError::FrameTooLarge);
        }
        let tag = sub_bytes(&hp, 2, 18);
        Result::Ok(Option::Some((len, tag)))
    }

    /// Open one sealed body announced by a prior header.
    pub fn recv_body(&mut self, tag: &Vec<u8>, cbody: &Vec<u8>) -> (r: Result<
        Vec<u8>,
        BoxStreamError,
    >)
        requires
            old(self).wf(),
            tag@.len() == 16,
        ensures
            final(self).wf(),
            final(self).key_view() == old(self).key_view(),
            final(self).counter() == (old(self).counter() + 1) % pow256(24),
            match r {
                Result::Ok(b) => sb_plain(
                    old(self).key_view(),
                    nonce_at(old(self).counter(), 0),
                    cbody@,
                    tag@,
                ) == Option::Some(b@),
                Result::Err(e) => e == BoxStreamError::BodyOpenFailed && sb_plain(
                    old(self).key_view(),
                    nonce_at(old(self).counter(), 0),
                    cbody@,
                    tag@,
                ) is None,
            },
    {
        proof {
            self.noncegen.lemma_counter_bound();
        }
        let nb = self.noncegen.next();
        proof {
            lemma_pow256_pos(24);
            lemma_small_mod(old(self).counter(), pow256(24));
            assert(nb@ == nonce_at(old(self).counter(), 0));
        }
        let mut body = cbody.clone();
        let ok = sb_open(&mut body, tag, &nb, &self.key);
        if ok {
            Result::Ok(body)
        } else {
            Result::Err(BoxStreamError::BodyOpenFailed)
        }
    }

    /// Decode one whole frame held in `wire`: the body, `None` for the
    /// goodbye sentinel, or the terminal decode error, exactly as
    /// [`recv_outcome`] states.
    pub fn recv(&mut self, wire: &Vec<u8>) -> (r: Result<Option<Vec<u8>>, BoxStreamError>)
        requires
            old(self).wf(),
            wire@.len() >= 34,
        ensures
            final(self).wf(),
            final(self).key_view() == old(self).key_view(),
            match r {
                Result::Ok(Option::None) => recv_outcome(
                    old(self).key_view(),
                    old(self).counter(),
                    wire@,
                ) == Result::<Option<Seq<u8>>, BoxStreamError>::Ok(Option::None::<Seq<u8>>),
                Result::Ok(Option::Some(b)) => recv_outcome(
                    old(self).key_view(),
                    old(self).counter(),
                    wire@,
                ) == Result::<Option<Seq<u8>>, BoxStreamError>::Ok(Option::Some(b@)),
                Result::Err(e) => recv_outcome(old(self).key_view(), old(self).counter(), wire@)
                    == Result::<Option<Seq<u8>>, BoxStreamError>::Err(e),
            },
            final(self).counter() == match r {
                Result::Ok(Option::Some(_)) => (old(self).counter() + 2) % pow256(24),
                Result::Err(BoxStreamError::BodyOpenFailed) => (old(self).counter() + 2) % pow256(
                    24,
                ),
                _ => (old(self).counter() + 1) % pow256(24),
            },
    {
        proof {
            self.noncegen.lemma_counter_bound();
            lemma_pow256_pos(24);
            lemma_counter_steps(old(self).counter());
        }
        let hbox = sub_bytes(wire, 0, 34);
        let hr = self.recv_header(&hbox);
        match hr {
            Result::Err(e) => Result::Err(e),
            Result::Ok(Option::None) => {
                if wire.len() == 34 {
                    Result::Ok(Option::None)
                } else {
                    Result::Err(BoxStreamError::ReaderIoError)
                }
            },
            Result::Ok(Option::Some((len, tag))) => {
                if wire.len() != 34 + len as usize {
                    return Result::Err(BoxStreamError::ReaderIoError);
                }
                let cbody = sub_bytes(wire, 34, wire.len());
                proof {
                    assert(cbody@ =~= wire@.skip(34));
                    let mid = (old(self).counter() + 1) % pow256(24);
                    assert(mid < pow256(24)) by {
                        vstd::arithmetic::div_mod::lemma_mod_bound(
                            (old(self).counter() + 1) as int,
                            pow256(24) as int,
                        );
                    };
                    lemma_small_mod(mid, pow256(24));
                    assert(nonce_at(mid, 0) == nonce_at(old(self).counter(), 1));
                }
                match self.recv_body(&tag, &cbody) {
                    Result::Ok(b) => Result::Ok(Option::Some(b)),
                    Result::Err(e) => Result::Err(e),
                }
            },
        }
    }
}

/// Two draws advance a generator's counter by two, modulo the nonce space.
proof fn lemma_counter_steps(c: nat)
    requires
        c < pow256(24),
    ensures
        ((c + 1) % pow256(24) + 1) % pow256(24) == (c + 2) % pow256(24),
{
    let p = pow256(24);
    lemma_pow256_pos(24);
    if c + 1 < p {
        lemma_small_mod(c + 1, p);
        if c + 2 < p {
            lemma_small_mod(c + 2, p);
        } else {
            assert(c + 2 == p);
            assert((c + 2) % p == 0) by {
                lemma_mod_self_0(p as int);
            };
            assert((c + 1 + 1) % p == 0) by {
                lemma_mod_self_0(p as int);
            };
        }
    } else {
        assert(c + 1 == p);
        assert((c + 1) % p == 0) by {
            lemma_mod_self_0(p as int);
        };
        lemma_small_mod(1, p);
        assert((c + 2) % p == 1) by {
            assert(c + 2 == p + 1);
            lemma_mod_multiples_vanish(1, 1, p as int);
        };
    }
}

impl BoxStreamError {
    /// The failure, in words.
    pub fn display_string(&self) -> (r: String)
        ensures
            r@ == match self {
                BoxStreamError::ReaderIoError => "IO Error"@,
                BoxStreamError::HeaderOpenFailed => "Header open failed"@,
                BoxStreamError::BodyOpenFailed => "Body open failed"@,
                BoxStreamError::FrameTooLarge => "Frame too large"@,
            },
    {
        match self {
            BoxStreamError::ReaderIoError => <String as vstd::string::StringExecFns>::from_str(
                "IO Error",
            ),
            BoxStreamError::HeaderOpenFailed => <String as vstd::string::StringExecFns>::from_str(
                "Header open failed",
            ),
            BoxStreamError::BodyOpenFailed => <String as vstd::string::StringExecFns>::from_str(
                "Body open failed",
            ),
            BoxStreamError::FrameTooLarge => <String as vstd::string::StringExecFns>::from_str(
                "Frame too large",
            ),
        }
    }
}

} // verus!
