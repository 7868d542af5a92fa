//! The per-direction nonce generator of the box stream: a 24-byte
//! big-endian counter.  `next` hands out the current value and steps the
//! counter by one, so no nonce is ever produced twice within one
//! direction of a connection (proved in [`lemma_nonce_uniqueness`]).

use vstd::prelude::*;
use vstd::arithmetic::div_mod::{
    lemma_fundamental_div_mod, lemma_mod_self_0, lemma_small_mod,
};
use vstd::arithmetic::mul::{lemma_mul_inequality, lemma_mul_is_distributive_add_other_way};

verus! {

/// 256 raised to `n`: the number of values `n` bytes can hold.
pub open spec fn pow256(n: nat) -> nat
    decreases n,
{
    if n == 0 {
        1
    } else {
        256 * pow256((n - 1) as nat)
    }
}

/// The number read from `s` as a big-endian base-256 numeral.
pub open spec fn be_val(s: Seq<u8>) -> nat
    decreases s.len(),
{
    if s.len() == 0 {
        0
    } else {
        be_val(s.drop_last()) * 256 + s.last() as nat
    }
}

/// The `len`-byte big-endian numeral of `n` (truncated to the low `len` bytes).
pub open spec fn be_bytes(n: nat, len: nat) -> Seq<u8>
    decreases len,
{
    if len == 0 {
        Seq::empty()
    } else {
        be_bytes(n / 256, (len - 1) as nat).push((n % 256) as u8)
    }
}

pub proof fn lemma_pow256_pos(n: nat)
    ensures
        pow256(n) >= 1,
    decreases n,
{
    if n > 0 {
        lemma_pow256_pos((n - 1) as nat);
    }
}

pub proof fn lemma_be_bytes_len(n: nat, len: nat)
    ensures
        be_bytes(n, len).len() == len,
    decreases len,
{
    if len > 0 {
        lemma_be_bytes_len(n / 256, (len - 1) as nat);
    }
}

/// Reading back the numeral of `n` gives `n`, when `n` fits in `len` bytes.
pub proof fn lemma_be_round_trip(n: nat, len: nat)
    requires
        n < pow256(len),
    ensures
        be_val(be_bytes(n, len)) == n,
    decreases len,
{
    if len == 0 {
    } else {
        let prev = be_bytes(n / 256, (len - 1) as nat);
        lemma_be_bytes_len(n / 256, (len - 1) as nat);
        assert(be_bytes(n, len).drop_last() =~= prev);
        assert(n / 256 < pow256((len - 1) as nat)) by {
            lemma_pow256_pos((len - 1) as nat);
            assert(n < 256 * pow256((len - 1) as nat));
        };
        lemma_be_round_trip(n / 256, (len - 1) as nat);
    }
}

/// A big-endian numeral never reads back as more than `pow256` of its length.
pub proof fn lemma_be_val_bound(s: Seq<u8>)
    ensures
        be_val(s) < pow256(s.len()),
    decreases s.len(),
{
    if s.len() > 0 {
        lemma_be_val_bound(s.drop_last());
        assert(be_val(s.drop_last()) * 256 + 255 < pow256(s.len())) by {
            let p = pow256((s.len() - 1) as nat);
            assert(be_val(s.drop_last()) <= p - 1);
            assert(be_val(s.drop_last()) * 256 <= (p - 1) * 256) by {
                lemma_mul_inequality(be_val(s.drop_last()) as int, p - 1, 256);
            };
            assert(pow256(s.len()) == 256 * p);
        };
    }
}

/// Writing out the value of `s` reproduces `s` exactly.
pub proof fn lemma_be_bytes_of_val(s: Seq<u8>)
    ensures
        be_bytes(be_val(s), s.len()) == s,
    decreases s.len(),
{
    if s.len() == 0 {
        assert(be_bytes(be_val(s), s.len()) =~= s);
    } else {
        let v = be_val(s);
        let d = s.drop_last();
        assert(v == be_val(d) * 256 + s.last());
        assert(v / 256 == be_val(d) && v % 256 == s.last()) by {
            lemma_fundamental_div_mod(v as int, 256);
        };
        lemma_be_bytes_of_val(d);
        assert(be_bytes(v, s.len()) =~= s);
    }
}

/// Two distinct counter values below `pow256(len)` have distinct numerals.
pub proof fn lemma_be_bytes_injective(a: nat, b: nat, len: nat)
    requires
        a < pow256(len),
        b < pow256(len),
        a != b,
    ensures
        be_bytes(a, len) != be_bytes(b, len),
{
    if be_bytes(a, len) == be_bytes(b, len) {
        lemma_be_round_trip(a, len);
        lemma_be_round_trip(b, len);
    }
}

/// `be_val` splits at position `k`: high digits scaled, plus low digits.
pub proof fn lemma_be_val_split(s: Seq<u8>, k: int)
    requires
        0 <= k <= s.len(),
    ensures
        be_val(s) == be_val(s.take(k)) * pow256((s.len() - k) as nat) + be_val(s.skip(k)),
    decreases s.len() - k,
{
    if k == s.len() {
        assert(s.take(k) =~= s);
        assert(s.skip(k) =~= Seq::<u8>::empty());
        assert(pow256((s.len() - k) as nat) == 1);
        assert(be_val(s.skip(k)) == 0);
        assert(be_val(s.take(k)) * 1 == be_val(s.take(k)));
        assert(be_val(s) == be_val(s.take(k)) * pow256((s.len() - k) as nat) + be_val(s.skip(k)));
    } else {
        let n = s.len() as int;
        let d = s.drop_last();
        lemma_be_val_split(d, k);
        assert(d.take(k) =~= s.take(k));
        assert(d.skip(k) =~= s.skip(k).drop_last());
        let x = be_val(s.take(k));
        let q = pow256((n - k - 1) as nat);
        let lo = be_val(s.skip(k).drop_last());
        let lst = s.last() as nat;
        assert(be_val(d) == x * q + lo);
        assert(be_val(s) == be_val(d) * 256 + lst);
        assert(s.skip(k).len() == n - k);
        assert(s.skip(k).last() == s.last());
        assert(be_val(s.skip(k)) == lo * 256 + lst);
        assert(pow256((n - k) as nat) == 256 * q) by {
            assert((n - k) as nat != 0);
            assert(((n - k) as nat - 1) as nat == (n - k - 1) as nat);
        };
        assert((x * q + lo) * 256 + lst == x * (256 * q) + (lo * 256 + lst)) by (nonlinear_arith);
        assert(be_val(s) == x * pow256((s.len() - k) as nat) + be_val(s.skip(k)));
        assert(be_val(s) == be_val(s.take(k)) * pow256((s.len() - k) as nat) + be_val(s.skip(k)));
    }
}

/// All-255 bytes read as `pow256(len) - 1`.
pub proof fn lemma_be_val_all_255(s: Seq<u8>)
    requires
        forall|i: int| 0 <= i < s.len() ==> s[i] == 255,
    ensures
        be_val(s) == pow256(s.len()) - 1,
    decreases s.len(),
{
    if s.len() > 0 {
        lemma_be_val_all_255(s.drop_last());
        let p = pow256((s.len() - 1) as nat);
        assert(be_val(s) == (p - 1) * 256 + 255);
        assert((p - 1) * 256 == p * 256 - 256) by (nonlinear_arith);
        assert(p * 256 == pow256(s.len())) by {
            assert(pow256(s.len()) == 256 * p);
        };
    }
}

/// All-zero bytes read as zero.
pub proof fn lemma_be_val_all_zero(s: Seq<u8>)
    requires
        forall|i: int| 0 <= i < s.len() ==> s[i] == 0,
    ensures
        be_val(s) == 0,
    decreases s.len(),
{
    if s.len() > 0 {
        lemma_be_val_all_zero(s.drop_last());
    }
}

/// A 24-byte big-endian counter.  Each call of [`NonceGen::next`] returns
/// the current counter value and advances it by one, wrapping modulo
/// `pow256(24)`.
pub struct NonceGen {
    bytes: Vec<u8>,
}

impl NonceGen {
    /// The generator holds exactly 24 bytes.
    pub closed spec fn wf(self) -> bool {
        self.bytes@.len() == 24
    }

    /// The counter value the next nonce will carry.
    pub closed spec fn counter(self) -> nat {
        be_val(self.bytes@)
    }

    /// A well-formed generator's counter fits in 24 bytes.
    pub proof fn lemma_counter_bound(self)
        requires
            self.wf(),
        ensures
            self.counter() < pow256(24),
    {
        lemma_be_val_bound(self.bytes@);
    }

    /// Start a generator at the given 24-byte seed.
    pub fn new(seed: &Vec<u8>) -> (r: NonceGen)
        requires
            seed@.len() == 24,
        ensures
            r.wf(),
            r.counter() == be_val(seed@),
    {
        NonceGen { bytes: seed.clone() }
    }

    /// Hand out the current nonce and step the counter by one
    /// (big-endian increment with carry, wrapping modulo `pow256(24)`).
    pub fn next(&mut self) -> (r: Vec<u8>)
        requires
            old(self).wf(),
        ensures
            final(self).wf(),
            r@.len() == 24,
            r@ == be_bytes(old(self).counter(), 24),
            final(self).counter() == (old(self).counter() + 1) % pow256(24),
    {
        let r = self.bytes.clone();
        proof {
            lemma_be_bytes_of_val(old(self).bytes@);
            assert(r@ == be_bytes(old(self).counter(), 24));
        }
        let mut i: usize = 24;
        while i > 0
            invariant
                old(self).bytes@.len() == 24,
                self.bytes@.len() == 24,
                0 <= i <= 24,
                r@.len() == 24,
                r@ == be_bytes(old(self).counter(), 24),
                forall|j: int| 0 <= j < i ==> self.bytes@[j] == old(self).bytes@[j],
                forall|j: int| i <= j < 24 ==> self.bytes@[j] == 0 && old(self).bytes@[j] == 255,
            decreases i,
        {
            let b = self.bytes[i - 1];
            if b == 255 {
                self.bytes.set(i - 1, 0);
                i -= 1;
            } else {
                self.bytes.set(i - 1, b + 1);
                proof {
                    lemma_carry_increment(old(self).bytes@, self.bytes@, i - 1);
                    lemma_be_val_bound(self.bytes@);
                    lemma_small_mod(be_val(self.bytes@), pow256(24));
                }
                return r;
            }
        }
        proof {
            lemma_be_val_all_255(old(self).bytes@);
            lemma_be_val_all_zero(self.bytes@);
            lemma_pow256_pos(24);
            lemma_mod_self_0(pow256(24) as int);
        }
        r
    }
}

/// Incrementing digit `p` and zeroing everything to its right adds one
/// to the big-endian value, given the digits right of `p` were all 255.
proof fn lemma_carry_increment(a: Seq<u8>, b: Seq<u8>, p: int)
    requires
        a.len() == b.len(),
        0 <= p < a.len(),
        a[p] < 255,
        b[p] == a[p] + 1,
        forall|j: int| 0 <= j < p ==> b[j] == a[j],
        forall|j: int| p < j < a.len() ==> a[j] == 255 && b[j] == 0,
    ensures
        be_val(b) == be_val(a) + 1,
{
    let n = a.len() as int;
    let q = pow256((n - p - 1) as nat);
    lemma_be_val_split(a, p + 1);
    lemma_be_val_split(b, p + 1);
    lemma_be_val_all_255(a.skip(p + 1));
    lemma_be_val_all_zero(b.skip(p + 1));
    // the high parts differ only in their last digit, which grew by one
    let ha = a.take(p + 1);
    let hb = b.take(p + 1);
    assert(ha.drop_last() =~= hb.drop_last());
    assert(be_val(hb) == be_val(ha) + 1);
    assert((be_val(ha) + 1) * q == be_val(ha) * q + q) by {
        lemma_mul_is_distributive_add_other_way(q as int, be_val(ha) as int, 1);
    };
}

/// Two draws at distinct positions in one generator's lifetime yield
/// distinct nonces, as long as fewer than `pow256(24)` draws are made:
/// no nonce repeats within a connection.
pub proof fn lemma_nonce_uniqueness(seed: nat, i: nat, j: nat)
    requires
        i < j,
        j - i < pow256(24),
    ensures
        be_bytes((seed + i) % pow256(24), 24) != be_bytes((seed + j) % pow256(24), 24),
{
    let m = pow256(24) as int;
    lemma_pow256_pos(24);
    let a = (seed + i) as int;
    let b = (seed + j) as int;
    lemma_fundamental_div_mod(a, m);
    lemma_fundamental_div_mod(b, m);
    if (seed + i) % pow256(24) == (seed + j) % pow256(24) {
        let qa = a / m;
        let qb = b / m;
        assert(b - a == (qb - qa) * m) by (nonlinear_arith)
            requires
                a == m * qa + a % m,
                b == m * qb + b % m,
                a % m == b % m,
        {};
        assert(false) by (nonlinear_arith)
            requires
                b - a == (qb - qa) * m,
                0 < b - a < m,
        {};
    }
    let va = (seed + i) % pow256(24);
    let vb = (seed + j) % pow256(24);
    assert(va < pow256(24) && vb < pow256(24)) by {
        lemma_mod_bound(a, m);
        lemma_mod_bound(b, m);
    };
    lemma_be_bytes_injective(va, vb, 24);
}

proof fn lemma_mod_bound(x: int, m: int)
    requires
        x >= 0,
        m > 0,
    ensures
        0 <= x % m < m,
{
}

} // verus!
