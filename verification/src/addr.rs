//! The textual grammar of socket endpoints, shared by the peer-address
//! formats: canonical decimal and hexadecimal numerals, byte-sequence
//! searching and splitting, and the `host:port` form for IPv4 and IPv6
//! endpoints.  The grammar is canonical: a text parses exactly when it is
//! the one form this module's formatters produce.

use vstd::prelude::*;

verus! {

/// ASCII decimal digit.
pub open spec fn is_dec_digit(b: u8) -> bool {
    48 <= b <= 57
}

/// ASCII lowercase hexadecimal digit.
pub open spec fn is_hex_digit(b: u8) -> bool {
    is_dec_digit(b) || (97 <= b <= 102)
}

/// The value of one hexadecimal digit byte.
pub open spec fn hex_digit_val(b: u8) -> nat {
    if is_dec_digit(b) {
        (b - 48) as nat
    } else {
        (b - 87) as nat
    }
}

/// The value of a decimal numeral.
pub open spec fn dec_val(s: Seq<u8>) -> nat
    recommends
        forall|i: int| 0 <= i < s.len() ==> is_dec_digit(s[i]),
    decreases s.len(),
{
    if s.len() == 0 {
        0
    } else {
        dec_val(s.drop_last()) * 10 + (s.last() - 48) as nat
    }
}

/// The value of a lowercase hexadecimal numeral.
pub open spec fn hex_val(s: Seq<u8>) -> nat
    recommends
        forall|i: int| 0 <= i < s.len() ==> is_hex_digit(s[i]),
    decreases s.len(),
{
    if s.len() == 0 {
        0
    } else {
        hex_val(s.drop_last()) * 16 + hex_digit_val(s.last())
    }
}

/// The minimal decimal numeral of `n`.
pub open spec fn dec_digits(n: nat) -> Seq<u8>
    decreases n,
{
    if n < 10 {
        seq![(48 + n) as u8]
    } else {
        dec_digits(n / 10).push((48 + n % 10) as u8)
    }
}

/// The minimal lowercase hexadecimal numeral of `n`.
pub open spec fn hex_digits(n: nat) -> Seq<u8>
    decreases n,
{
    let d = n % 16;
    let db = if d < 10 {
        (48 + d) as u8
    } else {
        (87 + d) as u8
    };
    if n < 16 {
        seq![db]
    } else {
        hex_digits(n / 16).push(db)
    }
}

/// A canonical decimal numeral for a value up to `max`: at least one
/// digit, no leading zero, at most `maxlen` digits, value in range.
pub open spec fn is_canon_dec(s: Seq<u8>, max: nat, maxlen: nat) -> bool {
    &&& 1 <= s.len() <= maxlen
    &&& forall|i: int| 0 <= i < s.len() ==> is_dec_digit(s[i])
    &&& (s.len() == 1 || s[0] != 48)
    &&& dec_val(s) <= max
}

/// A canonical lowercase hexadecimal numeral of a 16-bit group.
pub open spec fn is_canon_hex(s: Seq<u8>) -> bool {
    &&& 1 <= s.len() <= 4
    &&& forall|i: int| 0 <= i < s.len() ==> is_hex_digit(s[i])
    &&& (s.len() == 1 || s[0] != 48)
}

/// The minimal numeral is made of digits, has no leading zero, and reads
/// back as its value.
pub proof fn lemma_dec_digits_canon(n: nat)
    ensures
        dec_digits(n).len() >= 1,
        forall|i: int| 0 <= i < dec_digits(n).len() ==> is_dec_digit(dec_digits(n)[i]),
        dec_digits(n).len() == 1 || dec_digits(n)[0] != 48,
        dec_val(dec_digits(n)) == n,
        n < 10 ==> dec_digits(n).len() == 1,
        n >= 10 ==> dec_digits(n).len() == dec_digits(n / 10).len() + 1,
    decreases n,
{
    if n < 10 {
        assert(dec_digits(n) =~= seq![(48 + n) as u8]);
        assert(dec_digits(n).drop_last() =~= Seq::<u8>::empty());
        assert(dec_val(Seq::<u8>::empty()) == 0);
        assert(dec_val(dec_digits(n)) == 0 * 10 + n);
    } else {
        lemma_dec_digits_canon(n / 10);
        let p = dec_digits(n / 10);
        assert(dec_digits(n) =~= p.push((48 + n % 10) as u8));
        assert(dec_digits(n).drop_last() =~= p);
        assert(dec_digits(n)[0] == p[0]);
        assert(p[0] != 48) by {
            if p.len() == 1 {
                // p is the single digit of n / 10 >= 1
                assert(p[0] == 48 + (n / 10) % 10 || n / 10 >= 10);
                if n / 10 < 10 {
                    assert(p =~= seq![(48 + n / 10) as u8]);
                    assert(n / 10 >= 1);
                }
            }
        };
        assert(dec_val(dec_digits(n)) == (n / 10) * 10 + n % 10);
        assert((n / 10) * 10 + n % 10 == n) by {
            vstd::arithmetic::div_mod::lemma_fundamental_div_mod(n as int, 10);
        };
    }
}

/// The minimal hexadecimal numeral is canonical and reads back as its value.
pub proof fn lemma_hex_digits_canon(n: nat)
    ensures
        hex_digits(n).len() >= 1,
        forall|i: int| 0 <= i < hex_digits(n).len() ==> is_hex_digit(hex_digits(n)[i]),
        hex_digits(n).len() == 1 || hex_digits(n)[0] != 48,
        hex_val(hex_digits(n)) == n,
        n < 16 ==> hex_digits(n).len() == 1,
        n >= 16 ==> hex_digits(n).len() == hex_digits(n / 16).len() + 1,
    decreases n,
{
    let d = n % 16;
    let db = if d < 10 {
        (48 + d) as u8
    } else {
        (87 + d) as u8
    };
    if n < 16 {
        assert(n % 16 == n) by {
            vstd::arithmetic::div_mod::lemma_small_mod(n, 16);
        };
        assert(hex_digits(n) =~= seq![db]);
        assert(hex_digits(n).drop_last() =~= Seq::<u8>::empty());
        assert(hex_val(Seq::<u8>::empty()) == 0);
        assert(hex_digit_val(db) == n);
        assert(hex_val(hex_digits(n)) == 0 * 16 + n);
    } else {
        lemma_hex_digits_canon(n / 16);
        let p = hex_digits(n / 16);
        assert(hex_digits(n) =~= p.push(db));
        assert(hex_digits(n).drop_last() =~= p);
        assert(hex_digits(n)[0] == p[0]);
        assert(p[0] != 48) by {
            if p.len() == 1 {
                if n / 16 < 16 {
                    assert(n / 16 >= 1);
                    assert((n / 16) % 16 == n / 16) by {
                        vstd::arithmetic::div_mod::lemma_small_mod((n / 16) as nat, 16);
                    };
                }
            }
        };
        assert(hex_digit_val(db) == d);
        assert(hex_val(hex_digits(n)) == (n / 16) * 16 + d);
        assert((n / 16) * 16 + n % 16 == n) by {
            vstd::arithmetic::div_mod::lemma_fundamental_div_mod(n as int, 16);
        };
    }
}

/// Numerals of values up to 255 take at most three digits.
pub proof fn lemma_dec_digits_len3(n: nat)
    requires
        n <= 255,
    ensures
        dec_digits(n).len() <= 3,
{
    lemma_dec_digits_canon(n);
    if n >= 10 {
        lemma_dec_digits_canon(n / 10);
        if n / 10 >= 10 {
            lemma_dec_digits_canon(n / 10 / 10);
        }
    }
}

/// Numerals of values up to 65535 take at most five digits.
pub proof fn lemma_dec_digits_len5(n: nat)
    requires
        n <= 65535,
    ensures
        dec_digits(n).len() <= 5,
{
    lemma_dec_digits_canon(n);
    if n >= 10 {
        lemma_dec_digits_canon(n / 10);
        if n / 10 >= 10 {
            lemma_dec_digits_canon(n / 10 / 10);
            if n / 10 / 10 >= 10 {
                lemma_dec_digits_canon(n / 10 / 10 / 10);
                if n / 10 / 10 / 10 >= 10 {
                    lemma_dec_digits_canon(n / 10 / 10 / 10 / 10);
                }
            }
        }
    }
}

/// Hexadecimal numerals of 16-bit values take at most four digits.
pub proof fn lemma_hex_digits_len4(n: nat)
    requires
        n <= 65535,
    ensures
        hex_digits(n).len() <= 4,
{
    lemma_hex_digits_canon(n);
    if n >= 16 {
        lemma_hex_digits_canon(n / 16);
        if n / 16 >= 16 {
            lemma_hex_digits_canon(n / 16 / 16);
            if n / 16 / 16 >= 16 {
                lemma_hex_digits_canon(n / 16 / 16 / 16);
            }
        }
    }
}

/// The index of the first occurrence of `b` in `s`.
pub open spec fn find_byte(s: Seq<u8>, b: u8) -> Option<int>
    decreases s.len(),
{
    if s.len() == 0 {
        Option::None
    } else if s[0] == b {
        Option::Some(0)
    } else {
        match find_byte(s.drop_first(), b) {
            Option::None => Option::None,
            Option::Some(i) => Option::Some(i + 1),
        }
    }
}

/// What `find_byte` returns: the least index holding `b`, or `None` when
/// `b` does not occur.
pub proof fn lemma_find_byte(s: Seq<u8>, b: u8)
    ensures
        match find_byte(s, b) {
            Option::Some(i) => 0 <= i < s.len() && s[i] == b && forall|j: int|
                0 <= j < i ==> s[j] != b,
            Option::None => forall|j: int| 0 <= j < s.len() ==> s[j] != b,
        },
    decreases s.len(),
{
    if s.len() > 0 && s[0] != b {
        let d = s.drop_first();
        lemma_find_byte(d, b);
        assert(forall|j: int| 0 <= j < d.len() ==> d[j] == s[j + 1]);
        match find_byte(d, b) {
            Option::Some(i) => {
                assert(s[i + 1] == b);
                assert forall|j: int| 0 <= j < i + 1 implies s[j] != b by {
                    if j >= 1 {
                        assert(d[j - 1] == s[j]);
                        assert(d[j - 1] != b);
                    }
                };
            },
            Option::None => {
                assert forall|j: int| 0 <= j < s.len() implies s[j] != b by {
                    if j >= 1 {
                        assert(d[j - 1] == s[j]);
                        assert(d[j - 1] != b);
                    }
                };
            },
        }
    }
}

/// The tokens of `s` between occurrences of `sep` (no token holds `sep`;
/// there is always one more token than separators, so an empty `s` is one
/// empty token).
pub open spec fn split_on(s: Seq<u8>, sep: u8) -> Seq<Seq<u8>>
    decreases s.len(),
{
    if s.len() == 0 {
        seq![Seq::<u8>::empty()]
    } else if s[0] == sep {
        seq![Seq::<u8>::empty()] + split_on(s.drop_first(), sep)
    } else {
        let rest = split_on(s.drop_first(), sep);
        seq![seq![s[0]] + rest[0]] + rest.drop_first()
    }
}

/// Splitting a `sep`-free token, a separator, and a remainder peels off
/// that token.
pub proof fn lemma_split_on_prepend(t: Seq<u8>, sep: u8, rest: Seq<u8>)
    requires
        forall|i: int| 0 <= i < t.len() ==> t[i] != sep,
    ensures
        split_on(t + seq![sep] + rest, sep) == seq![t] + split_on(rest, sep),
    decreases t.len(),
{
    let s = t + seq![sep] + rest;
    if t.len() == 0 {
        assert(s[0] == sep);
        assert(s.drop_first() =~= rest);
        assert(t =~= Seq::<u8>::empty());
        assert(split_on(s, sep) == seq![Seq::<u8>::empty()] + split_on(rest, sep));
        assert(seq![t] + split_on(rest, sep) =~= seq![Seq::<u8>::empty()] + split_on(rest, sep));
    } else {
        let t2 = t.drop_first();
        lemma_split_on_prepend(t2, sep, rest);
        let s2 = t2 + seq![sep] + rest;
        assert(s.drop_first() =~= s2);
        assert(s[0] == t[0]);
        let r2 = split_on(s2, sep);
        assert(r2 == seq![t2] + split_on(rest, sep));
        assert(r2[0] == t2);
        assert(split_on(s, sep) == seq![seq![s[0]] + r2[0]] + r2.drop_first());
        assert(seq![s[0]] + t2 =~= t);
        assert(r2.drop_first() =~= split_on(rest, sep));
        assert(split_on(s, sep) =~~= seq![t] + split_on(rest, sep));
    }
}

/// A `sep`-free sequence splits into itself alone.
pub proof fn lemma_split_on_whole(t: Seq<u8>, sep: u8)
    requires
        forall|i: int| 0 <= i < t.len() ==> t[i] != sep,
    ensures
        split_on(t, sep) == seq![t],
    decreases t.len(),
{
    if t.len() == 0 {
        assert(t =~= Seq::<u8>::empty());
        assert(split_on(t, sep) =~~= seq![t]);
    } else {
        let t2 = t.drop_first();
        lemma_split_on_whole(t2, sep);
        let r2 = split_on(t2, sep);
        assert(r2[0] == t2);
        assert(split_on(t, sep) == seq![seq![t[0]] + t2] + r2.drop_first());
        assert(seq![t[0]] + t2 =~= t);
        assert(r2.drop_first() =~= Seq::<Seq<u8>>::empty());
        assert(split_on(t, sep) =~~= seq![t]);
    }
}

/// Find the first occurrence of `b` in `v`.
pub fn find_byte_exec(v: &Vec<u8>, b: u8) -> (r: Option<usize>)
    ensures
        match r {
            Option::Some(i) => find_byte(v@, b) == Option::Some(i as int),
            Option::None => find_byte(v@, b) is None,
        },
{
    proof {
        lemma_find_byte(v@, b);
    }
    let n = v.len();
    let mut i: usize = 0;
    while i < n
        invariant
            n == v@.len(),
            i <= n,
            forall|j: int| 0 <= j < i ==> v@[j] != b,
        decreases n - i,
    {
        if v[i] == b {
            proof {
                lemma_find_byte(v@, b);
                if find_byte(v@, b) is None {
                    assert(v@[i as int] != b);
                }
            }
            return Option::Some(i);
        }
        i += 1;
    }
    Option::None
}

/// Split `v` into its `sep`-separated tokens.
pub fn split_exec(v: &Vec<u8>, sep: u8) -> (r: Vec<Vec<u8>>)
    ensures
        r@.len() == split_on(v@, sep).len(),
        forall|k: int| 0 <= k < r@.len() ==> r@[k]@ == split_on(v@, sep)[k],
    decreases v@.len(),
{
    match find_byte_exec(v, sep) {
        Option::None => {
            proof {
                lemma_find_byte(v@, sep);
                lemma_split_on_whole(v@, sep);
            }
            let mut r: Vec<Vec<u8>> = Vec::new();
            r.push(v.clone());
            r
        },
        Option::Some(i) => {
            let vn = v.len();
            proof {
                lemma_find_byte(v@, sep);
                assert(0 <= i < v@.len());
            }
            let head = crate::wire::sub_bytes(v, 0, i);
            let tail = crate::wire::sub_bytes(v, i + 1, vn);
            proof {
                assert(head@ =~= v@.take(i as int));
                assert(tail@ =~= v@.skip(i + 1));
                assert(v@ =~= head@ + seq![sep] + tail@);
                lemma_split_on_prepend(head@, sep, tail@);
            }
            let rest = split_exec(&tail, sep);
            let mut r: Vec<Vec<u8>> = Vec::new();
            r.push(head);
            let m = rest.len();
            let mut k: usize = 0;
            while k < m
                invariant
                    m == rest@.len(),
                    k <= m,
                    r@.len() == k + 1,
                    r@[0]@ == v@.take(i as int),
                    forall|j: int| 0 <= j < k ==> r@[j + 1]@ == rest@[j]@,
                    rest@.len() == split_on(v@.skip(i + 1), sep).len(),
                    forall|j: int|
                        0 <= j < rest@.len() ==> rest@[j]@ == split_on(v@.skip(i + 1), sep)[j],
                decreases m - k,
            {
                let t = rest[k].clone();
                r.push(t);
                k += 1;
            }
            proof {
                let sp = split_on(v@, sep);
                assert(sp == seq![v@.take(i as int)] + split_on(v@.skip(i + 1), sep));
                assert(r@.len() == sp.len());
                assert forall|j: int| 0 <= j < r@.len() implies r@[j]@ == sp[j] by {
                    if j == 0 {
                        assert(sp[0] == v@.take(i as int));
                    } else {
                        assert(sp[j] == split_on(v@.skip(i + 1), sep)[j - 1]);
                        assert(r@[j]@ == rest@[j - 1]@);
                    }
                };
            }
            r
        },
    }
}

/// Parse a canonical decimal numeral worth at most `max`.
pub fn parse_canon_dec(t: &Vec<u8>, max: u16, maxlen: usize) -> (r: Option<u16>)
    requires
        maxlen <= 5,
    ensures
        r is Some <==> is_canon_dec(t@, max as nat, maxlen as nat),
        r matches Option::Some(n) ==> n as nat == dec_val(t@) && n <= max,
{
    let n = t.len();
    if n < 1 || n > maxlen {
        return Option::None;
    }
    if n > 1 && t[0] == 48 {
        return Option::None;
    }
    let mut v: u32 = 0;
    let mut i: usize = 0;
    while i < n
        invariant
            n == t@.len(),
            1 <= n <= 5,
            i <= n,
            forall|j: int| 0 <= j < i ==> is_dec_digit(t@[j]),
            v == dec_val(t@.take(i as int)),
            v <= 99999,
        decreases n - i,
    {
        let b = t[i];
        if b < 48 || b > 57 {
            return Option::None;
        }
        proof {
            assert(t@.take(i + 1).drop_last() =~= t@.take(i as int));
            assert(t@.take(i + 1).last() == t@[i as int]);
        }
        v = v * 10 + (b - 48) as u32;
        i += 1;
        proof {
            assert(v == dec_val(t@.take(i as int)));
            assert(v <= 99999) by {
                lemma_dec_val_le_99999(t@.take(i as int));
            };
        }
    }
    proof {
        assert(t@.take(n as int) =~= t@);
    }
    if v > max as u32 {
        return Option::None;
    }
    Option::Some(v as u16)
}

/// Digit strings of up to five digits are worth at most 99999.
proof fn lemma_dec_val_le_99999(s: Seq<u8>)
    requires
        s.len() <= 5,
        forall|i: int| 0 <= i < s.len() ==> is_dec_digit(s[i]),
    ensures
        dec_val(s) <= 99999,
    decreases s.len(),
{
    if s.len() > 0 {
        lemma_dec_val_le_9999(s.drop_last());
    }
}

proof fn lemma_dec_val_le_9999(s: Seq<u8>)
    requires
        s.len() <= 4,
        forall|i: int| 0 <= i < s.len() ==> is_dec_digit(s[i]),
    ensures
        dec_val(s) <= 9999,
    decreases s.len(),
{
    if s.len() > 0 {
        lemma_dec_val_le_999(s.drop_last());
    }
}

proof fn lemma_dec_val_le_999(s: Seq<u8>)
    requires
        s.len() <= 3,
        forall|i: int| 0 <= i < s.len() ==> is_dec_digit(s[i]),
    ensures
        dec_val(s) <= 999,
    decreases s.len(),
{
    if s.len() > 0 {
        lemma_dec_val_le_99(s.drop_last());
    }
}

proof fn lemma_dec_val_le_99(s: Seq<u8>)
    requires
        s.len() <= 2,
        forall|i: int| 0 <= i < s.len() ==> is_dec_digit(s[i]),
    ensures
        dec_val(s) <= 99,
    decreases s.len(),
{
    if s.len() > 0 {
        lemma_dec_val_le_9(s.drop_last());
    }
}

proof fn lemma_dec_val_le_9(s: Seq<u8>)
    requires
        s.len() <= 1,
        forall|i: int| 0 <= i < s.len() ==> is_dec_digit(s[i]),
    ensures
        dec_val(s) <= 9,
{
    if s.len() > 0 {
        assert(s.drop_last() =~= Seq::<u8>::empty());
        assert(dec_val(Seq::<u8>::empty()) == 0);
        assert(is_dec_digit(s[0]));
        assert(s.last() == s[0]);
    }
}

/// Parse a canonical lowercase hexadecimal numeral of a 16-bit group.
pub fn parse_canon_hex(t: &Vec<u8>) -> (r: Option<u16>)
    ensures
        r is Some <==> is_canon_hex(t@),
        r matches Option::Some(n) ==> n as nat == hex_val(t@),
{
    let n = t.len();
    if n < 1 || n > 4 {
        return Option::None;
    }
    if n > 1 && t[0] == 48 {
        return Option::None;
    }
    let mut v: u32 = 0;
    let mut i: usize = 0;
    while i < n
        invariant
            n == t@.len(),
            1 <= n <= 4,
            i <= n,
            forall|j: int| 0 <= j < i ==> is_hex_digit(t@[j]),
            v == hex_val(t@.take(i as int)),
            v <= 65535,
        decreases n - i,
    {
        let b = t[i];
        let d: u32 = if b >= 48 && b <= 57 {
            (b - 48) as u32
        } else if b >= 97 && b <= 102 {
            (b - 87) as u32
        } else {
            return Option::None;
        };
        proof {
            assert(t@.take(i + 1).drop_last() =~= t@.take(i as int));
            assert(t@.take(i + 1).last() == t@[i as int]);
        }
        v = v * 16 + d;
        i += 1;
        proof {
            assert(v == hex_val(t@.take(i as int)));
            assert(v <= 65535) by {
                lemma_hex_val_le(t@.take(i as int));
            };
        }
    }
    proof {
        assert(t@.take(n as int) =~= t@);
    }
    Option::Some(v as u16)
}

/// Hexadecimal strings of up to four digits are worth at most 65535.
proof fn lemma_hex_val_le(s: Seq<u8>)
    requires
        s.len() <= 4,
        forall|i: int| 0 <= i < s.len() ==> is_hex_digit(s[i]),
    ensures
        dec_val(s) >= 0,
        hex_val(s) <= if s.len() == 4 {
            65535nat
        } else if s.len() == 3 {
            4095nat
        } else if s.len() == 2 {
            255nat
        } else if s.len() == 1 {
            15nat
        } else {
            0nat
        },
    decreases s.len(),
{
    if s.len() > 0 {
        lemma_hex_val_le(s.drop_last());
        assert(hex_digit_val(s.last()) <= 15);
    }
}

/// Write the minimal decimal numeral of `n`.
pub fn fmt_dec(n: u16) -> (r: Vec<u8>)
    ensures
        r@ == dec_digits(n as nat),
    decreases n,
{
    if n < 10 {
        let mut r: Vec<u8> = Vec::new();
        r.push(48 + n as u8);
        proof {
            assert(r@ =~= dec_digits(n as nat));
        }
        r
    } else {
        let mut r = fmt_dec(n / 10);
        r.push(48 + (n % 10) as u8);
        proof {
            assert(r@ =~= dec_digits(n as nat));
        }
        r
    }
}

/// Write the minimal lowercase hexadecimal numeral of `n`.
pub fn fmt_hex(n: u16) -> (r: Vec<u8>)
    ensures
        r@ == hex_digits(n as nat),
    decreases n,
{
    let d = (n % 16) as u8;
    let db: u8 = if d < 10 {
        48 + d
    } else {
        87 + d
    };
    if n < 16 {
        let mut r: Vec<u8> = Vec::new();
        r.push(db);
        proof {
            assert(r@ =~= hex_digits(n as nat));
        }
        r
    } else {
        let mut r = fmt_hex(n / 16);
        r.push(db);
        proof {
            assert(r@ =~= hex_digits(n as nat));
        }
        r
    }
}

/// An IP host: four octets, or eight 16-bit groups.
#[derive(Clone, Copy, PartialEq, Eq, Structural, Debug)]
pub enum IpAddr {
    V4(u8, u8, u8, u8),
    V6(u16, u16, u16, u16, u16, u16, u16, u16),
}

/// A socket endpoint: an IP host and a port.
#[derive(Clone, Copy, PartialEq, Eq, Structural, Debug)]
pub struct SocketAddr {
    pub ip: IpAddr,
    pub port: u16,
}

/// The canonical text of a host: dotted minimal decimal octets for IPv4;
/// eight colon-separated minimal lowercase hexadecimal groups for IPv6
/// (full form, no `::` compression).
pub open spec fn fmt_ip(ip: IpAddr) -> Seq<u8> {
    match ip {
        IpAddr::V4(a, b, c, d) => dec_digits(a as nat) + seq![46u8] + dec_digits(b as nat)
            + seq![46u8] + dec_digits(c as nat) + seq![46u8] + dec_digits(d as nat),
        IpAddr::V6(g0, g1, g2, g3, g4, g5, g6, g7) => hex_digits(g0 as nat) + seq![58u8]
            + hex_digits(g1 as nat) + seq![58u8] + hex_digits(g2 as nat) + seq![58u8] + hex_digits(
            g3 as nat,
        ) + seq![58u8] + hex_digits(g4 as nat) + seq![58u8] + hex_digits(g5 as nat) + seq![58u8]
            + hex_digits(g6 as nat) + seq![58u8] + hex_digits(g7 as nat),
    }
}

/// The canonical text of an endpoint: `host:port`, with an IPv6 host in
/// square brackets.
pub open spec fn fmt_sock(sa: SocketAddr) -> Seq<u8> {
    match sa.ip {
        IpAddr::V4(..) => fmt_ip(sa.ip) + seq![58u8] + dec_digits(sa.port as nat),
        IpAddr::V6(..) => seq![91u8] + fmt_ip(sa.ip) + seq![93u8, 58u8] + dec_digits(
            sa.port as nat,
        ),
    }
}

/// What parsing an endpoint text yields: the endpoint whose canonical form
/// the text is, or nothing.
pub open spec fn spec_parse_sock(t: Seq<u8>) -> Option<SocketAddr> {
    if t.len() == 0 {
        Option::None
    } else if t[0] == 91 {
        let toks = split_on(t.drop_first(), 93);
        if toks.len() != 2 {
            Option::None
        } else {
            let inside = toks[0];
            let after = toks[1];
            if after.len() < 2 || after[0] != 58 || !is_canon_dec(after.drop_first(), 65535, 5) {
                Option::None
            } else {
                let gs = split_on(inside, 58);
                if gs.len() == 8 && is_canon_hex(gs[0]) && is_canon_hex(gs[1]) && is_canon_hex(
                    gs[2],
                ) && is_canon_hex(gs[3]) && is_canon_hex(gs[4]) && is_canon_hex(gs[5])
                    && is_canon_hex(gs[6]) && is_canon_hex(gs[7]) {
                    Option::Some(
                        SocketAddr {
                            ip: IpAddr::V6(
                                hex_val(gs[0]) as u16,
                                hex_val(gs[1]) as u16,
                                hex_val(gs[2]) as u16,
                                hex_val(gs[3]) as u16,
                                hex_val(gs[4]) as u16,
                                hex_val(gs[5]) as u16,
                                hex_val(gs[6]) as u16,
                                hex_val(gs[7]) as u16,
                            ),
                            port: dec_val(after.drop_first()) as u16,
                        },
                    )
                } else {
                    Option::None
                }
            }
        }
    } else {
        let toks = split_on(t, 58);
        if toks.len() != 2 || !is_canon_dec(toks[1], 65535, 5) {
            Option::None
        } else {
            let os = split_on(toks[0], 46);
            if os.len() == 4 && is_canon_dec(os[0], 255, 3) && is_canon_dec(os[1], 255, 3)
                && is_canon_dec(os[2], 255, 3) && is_canon_dec(os[3], 255, 3) {
                Option::Some(
                    SocketAddr {
                        ip: IpAddr::V4(
                            dec_val(os[0]) as u8,
                            dec_val(os[1]) as u8,
                            dec_val(os[2]) as u8,
                            dec_val(os[3]) as u8,
                        ),
                        port: dec_val(toks[1]) as u16,
                    },
                )
            } else {
                Option::None
            }
        }
    }
}

/// Write the canonical text of a host.
pub fn format_ip(ip: &IpAddr) -> (r: Vec<u8>)
    ensures
        r@ == fmt_ip(*ip),
{
    match ip {
        IpAddr::V4(a, b, c, d) => {
            let mut r = fmt_dec(*a as u16);
            r.push(46);
            let t = fmt_dec(*b as u16);
            crate::wire::append_bytes(&mut r, &t);
            r.push(46);
            let t = fmt_dec(*c as u16);
            crate::wire::append_bytes(&mut r, &t);
            r.push(46);
            let t = fmt_dec(*d as u16);
            crate::wire::append_bytes(&mut r, &t);
            proof {
                assert(r@ =~= fmt_ip(*ip));
            }
            r
        },
        IpAddr::V6(g0, g1, g2, g3, g4, g5, g6, g7) => {
            let mut r = fmt_hex(*g0);
            r.push(58);
            let t = fmt_hex(*g1);
            crate::wire::append_bytes(&mut r, &t);
            r.push(58);
            let t = fmt_hex(*g2);
            crate::wire::append_bytes(&mut r, &t);
            r.push(58);
            let t = fmt_hex(*g3);
            crate::wire::append_bytes(&mut r, &t);
            r.push(58);
            let t = fmt_hex(*g4);
            crate::wire::append_bytes(&mut r, &t);
            r.push(58);
            let t = fmt_hex(*g5);
            crate::wire::append_bytes(&mut r, &t);
            r.push(58);
            let t = fmt_hex(*g6);
            crate::wire::append_bytes(&mut r, &t);
            r.push(58);
            let t = fmt_hex(*g7);
            crate::wire::append_bytes(&mut r, &t);
            proof {
                assert(r@ =~= fmt_ip(*ip));
            }
            r
        },
    }
}

/// Write the canonical text of an endpoint.
pub fn format_socket_addr(sa: &SocketAddr) -> (r: Vec<u8>)
    ensures
        r@ == fmt_sock(*sa),
{
    let mut r: Vec<u8> = Vec::new();
    let v6 = match sa.ip {
        IpAddr::V6(..) => true,
        IpAddr::V4(..) => false,
    };
    if v6 {
        r.push(91);
    }
    let host = format_ip(&sa.ip);
    crate::wire::append_bytes(&mut r, &host);
    if v6 {
        r.push(93);
    }
    r.push(58);
    let pt = fmt_dec(sa.port);
    crate::wire::append_bytes(&mut r, &pt);
    proof {
        assert(r@ =~= fmt_sock(*sa));
    }
    r
}

/// Parse the canonical text of an endpoint.
pub fn parse_socket_addr(t: &Vec<u8>) -> (r: Option<SocketAddr>)
    ensures
        r == spec_parse_sock(t@),
{
    if t.len() == 0 {
        return Option::None;
    }
    if t[0] == 91 {
        let inner = crate::wire::sub_bytes(t, 1, t.len());
        proof {
            assert(inner@ =~= t@.drop_first());
        }
        let toks = split_exec(&inner, 93);
        if toks.len() != 2 {
            return Option::None;
        }
        let inside = &toks[0];
        let after = &toks[1];
        if after.len() < 2 {
            return Option::None;
        }
        if after[0] != 58 {
            return Option::None;
        }
        let port_txt = crate::wire::sub_bytes(after, 1, after.len());
        proof {
            assert(port_txt@ =~= after@.drop_first());
        }
        let port = match parse_canon_dec(&port_txt, 65535, 5) {
            Option::Some(p) => p,
            Option::None => {
                return Option::None;
            },
        };
        let gs = split_exec(inside, 58);
        if gs.len() != 8 {
            return Option::None;
        }
        let g0 = parse_canon_hex(&gs[0]);
        let g1 = parse_canon_hex(&gs[1]);
        let g2 = parse_canon_hex(&gs[2]);
        let g3 = parse_canon_hex(&gs[3]);
        let g4 = parse_canon_hex(&gs[4]);
        let g5 = parse_canon_hex(&gs[5]);
        let g6 = parse_canon_hex(&gs[6]);
        let g7 = parse_canon_hex(&gs[7]);
        match (g0, g1, g2, g3, g4, g5, g6, g7) {
            (
                Option::Some(v0),
                Option::Some(v1),
                Option::Some(v2),
                Option::Some(v3),
                Option::Some(v4),
                Option::Some(v5),
                Option::Some(v6),
                Option::Some(v7),
            ) => Option::Some(
                SocketAddr { ip: IpAddr::V6(v0, v1, v2, v3, v4, v5, v6, v7), port },
            ),
            _ => Option::None,
        }
    } else {
        let toks = split_exec(t, 58);
        if toks.len() != 2 {
            return Option::None;
        }
        let port = match parse_canon_dec(&toks[1], 65535, 5) {
            Option::Some(p) => p,
            Option::None => {
                return Option::None;
            },
        };
        let os = split_exec(&toks[0], 46);
        if os.len() != 4 {
            return Option::None;
        }
        let o0 = parse_canon_dec(&os[0], 255, 3);
        let o1 = parse_canon_dec(&os[1], 255, 3);
        let o2 = parse_canon_dec(&os[2], 255, 3);
        let o3 = parse_canon_dec(&os[3], 255, 3);
        match (o0, o1, o2, o3) {
            (Option::Some(a), Option::Some(b), Option::Some(c), Option::Some(d)) => Option::Some(
                SocketAddr { ip: IpAddr::V4(a as u8, b as u8, c as u8, d as u8), port },
            ),
            _ => Option::None,
        }
    }
}

/// No byte of `s` is `b`.
pub open spec fn free_of(s: Seq<u8>, b: u8) -> bool {
    forall|i: int| 0 <= i < s.len() ==> s[i] != b
}

/// Concatenation keeps a byte absent.
pub proof fn lemma_free_of_concat(x: Seq<u8>, y: Seq<u8>, b: u8)
    requires
        free_of(x, b),
        free_of(y, b),
    ensures
        free_of(x + y, b),
{
    assert forall|i: int| 0 <= i < (x + y).len() implies (x + y)[i] != b by {
        if i < x.len() {
            assert((x + y)[i] == x[i]);
        } else {
            assert((x + y)[i] == y[i - x.len()]);
        }
    };
}

/// A decimal numeral is free of every non-digit byte.
pub proof fn lemma_dec_digits_free(n: nat, b: u8)
    requires
        !is_dec_digit(b),
    ensures
        free_of(dec_digits(n), b),
{
    lemma_dec_digits_canon(n);
}

/// A hexadecimal numeral is free of every byte that is no hex digit.
pub proof fn lemma_hex_digits_free(n: nat, b: u8)
    requires
        !is_hex_digit(b),
    ensures
        free_of(hex_digits(n), b),
{
    lemma_hex_digits_canon(n);
}

/// Parsing inverts formatting: the canonical text of an endpoint parses
/// back to exactly that endpoint.
pub proof fn lemma_parse_fmt_sock(sa: SocketAddr)
    ensures
        spec_parse_sock(fmt_sock(sa)) == Option::Some(sa),
{
    match sa.ip {
        IpAddr::V4(..) => lemma_parse_fmt_sock_v4(sa),
        IpAddr::V6(..) => lemma_parse_fmt_sock_v6(sa),
    }
}

#[verifier::rlimit(60)]
proof fn lemma_parse_fmt_sock_v4(sa: SocketAddr)
    requires
        sa.ip is V4,
    ensures
        spec_parse_sock(fmt_sock(sa)) == Option::Some(sa),
{
    let t = fmt_sock(sa);
    let pt = dec_digits(sa.port as nat);
    lemma_dec_digits_canon(sa.port as nat);
    lemma_dec_digits_len5(sa.port as nat);
    match sa.ip {
        IpAddr::V6(..) => {},
        IpAddr::V4(a, b, c, d) => {
            let ta = dec_digits(a as nat);
            let tb = dec_digits(b as nat);
            let tc = dec_digits(c as nat);
            let td = dec_digits(d as nat);
            lemma_dec_digits_canon(a as nat);
            lemma_dec_digits_canon(b as nat);
            lemma_dec_digits_canon(c as nat);
            lemma_dec_digits_canon(d as nat);
            lemma_dec_digits_len3(a as nat);
            lemma_dec_digits_len3(b as nat);
            lemma_dec_digits_len3(c as nat);
            lemma_dec_digits_len3(d as nat);
            let ip_txt = fmt_ip(sa.ip);
            // the host text holds only digits and dots, so it is colon-free
            lemma_dec_digits_free(a as nat, 58);
            lemma_dec_digits_free(b as nat, 58);
            lemma_dec_digits_free(c as nat, 58);
            lemma_dec_digits_free(d as nat, 58);
            lemma_free_of_concat(ta, seq![46u8], 58);
            lemma_free_of_concat(ta + seq![46u8], tb, 58);
            lemma_free_of_concat(ta + seq![46u8] + tb, seq![46u8], 58);
            lemma_free_of_concat(ta + seq![46u8] + tb + seq![46u8], tc, 58);
            lemma_free_of_concat(ta + seq![46u8] + tb + seq![46u8] + tc, seq![46u8], 58);
            lemma_free_of_concat(ta + seq![46u8] + tb + seq![46u8] + tc + seq![46u8], td, 58);
            assert(free_of(ip_txt, 58));
            assert(t =~= ip_txt + seq![58u8] + pt);
            lemma_split_on_prepend(ip_txt, 58, pt);
            lemma_split_on_whole(pt, 58);
            let toks = split_on(t, 58);
            assert(toks =~~= seq![ip_txt, pt]);
            assert(toks.len() == 2);
            assert(is_canon_dec(toks[1], 65535, 5));
            // split the host on dots
            let r2 = tc + seq![46u8] + td;
            let r1 = tb + seq![46u8] + r2;
            assert(ip_txt =~= ta + seq![46u8] + r1);
            lemma_dec_digits_free(a as nat, 46);
            lemma_dec_digits_free(b as nat, 46);
            lemma_dec_digits_free(c as nat, 46);
            lemma_dec_digits_free(d as nat, 46);
            lemma_split_on_prepend(ta, 46, r1);
            lemma_split_on_prepend(tb, 46, r2);
            lemma_split_on_prepend(tc, 46, td);
            lemma_split_on_whole(td, 46);
            let os = split_on(ip_txt, 46);
            assert(os =~~= seq![ta, tb, tc, td]);
            assert(os.len() == 4);
            assert(t[0] == ta[0]);
            assert(is_dec_digit(t[0]));
            assert(t[0] != 91);
            assert(dec_val(os[0]) as u8 == a);
            assert(dec_val(os[1]) as u8 == b);
            assert(dec_val(os[2]) as u8 == c);
            assert(dec_val(os[3]) as u8 == d);
            assert(dec_val(toks[1]) as u16 == sa.port);
            assert(spec_parse_sock(t) == Option::Some(sa));
        },
    }
}

#[verifier::rlimit(100)]
proof fn lemma_parse_fmt_sock_v6(sa: SocketAddr)
    requires
        sa.ip is V6,
    ensures
        spec_parse_sock(fmt_sock(sa)) == Option::Some(sa),
{
    let t = fmt_sock(sa);
    let pt = dec_digits(sa.port as nat);
    lemma_dec_digits_canon(sa.port as nat);
    lemma_dec_digits_len5(sa.port as nat);
    match sa.ip {
        IpAddr::V4(..) => {},
        IpAddr::V6(g0, g1, g2, g3, g4, g5, g6, g7) => {
            let h0 = hex_digits(g0 as nat);
            let h1 = hex_digits(g1 as nat);
            let h2 = hex_digits(g2 as nat);
            let h3 = hex_digits(g3 as nat);
            let h4 = hex_digits(g4 as nat);
            let h5 = hex_digits(g5 as nat);
            let h6 = hex_digits(g6 as nat);
            let h7 = hex_digits(g7 as nat);
            lemma_hex_digits_canon(g0 as nat);
            lemma_hex_digits_canon(g1 as nat);
            lemma_hex_digits_canon(g2 as nat);
            lemma_hex_digits_canon(g3 as nat);
            lemma_hex_digits_canon(g4 as nat);
            lemma_hex_digits_canon(g5 as nat);
            lemma_hex_digits_canon(g6 as nat);
            lemma_hex_digits_canon(g7 as nat);
            lemma_hex_digits_len4(g0 as nat);
            lemma_hex_digits_len4(g1 as nat);
            lemma_hex_digits_len4(g2 as nat);
            lemma_hex_digits_len4(g3 as nat);
            lemma_hex_digits_len4(g4 as nat);
            lemma_hex_digits_len4(g5 as nat);
            lemma_hex_digits_len4(g6 as nat);
            lemma_hex_digits_len4(g7 as nat);
            let ip_txt = fmt_ip(sa.ip);
            // the host text holds only hex digits and colons, never `]`
            lemma_hex_digits_free(g0 as nat, 93);
            lemma_hex_digits_free(g1 as nat, 93);
            lemma_hex_digits_free(g2 as nat, 93);
            lemma_hex_digits_free(g3 as nat, 93);
            lemma_hex_digits_free(g4 as nat, 93);
            lemma_hex_digits_free(g5 as nat, 93);
            lemma_hex_digits_free(g6 as nat, 93);
            lemma_hex_digits_free(g7 as nat, 93);
            assert(free_of(ip_txt, 93)) by {
                assert forall|i: int| 0 <= i < ip_txt.len() implies ip_txt[i] != 93 by {
                    lemma_ip6_txt_byte(sa.ip, i);
                };
            };
            let after = seq![58u8] + pt;
            assert(t.drop_first() =~= ip_txt + seq![93u8] + after);
            lemma_split_on_prepend(ip_txt, 93, after);
            assert(free_of(after, 93)) by {
                lemma_dec_digits_free(sa.port as nat, 93);
                lemma_free_of_concat(seq![58u8], pt, 93);
            };
            lemma_split_on_whole(after, 93);
            let toks = split_on(t.drop_first(), 93);
            assert(toks =~~= seq![ip_txt, after]);
            assert(after.drop_first() =~= pt);
            assert(is_canon_dec(after.drop_first(), 65535, 5));
            lemma_v6_split(g0, g1, g2, g3, g4, g5, g6, g7);
            let gs = split_on(ip_txt, 58);
            assert(gs == seq![h0, h1, h2, h3, h4, h5, h6, h7]);
            assert(t[0] == 91);
            assert(hex_val(gs[0]) as u16 == g0);
            assert(hex_val(gs[1]) as u16 == g1);
            assert(hex_val(gs[2]) as u16 == g2);
            assert(hex_val(gs[3]) as u16 == g3);
            assert(hex_val(gs[4]) as u16 == g4);
            assert(hex_val(gs[5]) as u16 == g5);
            assert(hex_val(gs[6]) as u16 == g6);
            assert(hex_val(gs[7]) as u16 == g7);
            assert(dec_val(after.drop_first()) as u16 == sa.port);
            assert(spec_parse_sock(t) == Option::Some(sa));
        },
    }
}

/// Every byte of an IPv6 host text is a hex digit or a colon.
proof fn lemma_ip6_txt_byte(ip: IpAddr, i: int)
    requires
        ip is V6,
        0 <= i < fmt_ip(ip).len(),
    ensures
        is_hex_digit(fmt_ip(ip)[i]) || fmt_ip(ip)[i] == 58,
{
    match ip {
        IpAddr::V4(..) => {},
        IpAddr::V6(g0, g1, g2, g3, g4, g5, g6, g7) => {
            lemma_hex_digits_canon(g0 as nat);
            lemma_hex_digits_canon(g1 as nat);
            lemma_hex_digits_canon(g2 as nat);
            lemma_hex_digits_canon(g3 as nat);
            lemma_hex_digits_canon(g4 as nat);
            lemma_hex_digits_canon(g5 as nat);
            lemma_hex_digits_canon(g6 as nat);
            lemma_hex_digits_canon(g7 as nat);
        },
    }
}

/// The IPv6 host text splits on colons into its eight group numerals.
#[verifier::rlimit(100)]
proof fn lemma_v6_split(g0: u16, g1: u16, g2: u16, g3: u16, g4: u16, g5: u16, g6: u16, g7: u16)
    ensures
        split_on(fmt_ip(IpAddr::V6(g0, g1, g2, g3, g4, g5, g6, g7)), 58) == seq![
            hex_digits(g0 as nat),
            hex_digits(g1 as nat),
            hex_digits(g2 as nat),
            hex_digits(g3 as nat),
            hex_digits(g4 as nat),
            hex_digits(g5 as nat),
            hex_digits(g6 as nat),
            hex_digits(g7 as nat),
        ],
{
    let h0 = hex_digits(g0 as nat);
    let h1 = hex_digits(g1 as nat);
    let h2 = hex_digits(g2 as nat);
    let h3 = hex_digits(g3 as nat);
    let h4 = hex_digits(g4 as nat);
    let h5 = hex_digits(g5 as nat);
    let h6 = hex_digits(g6 as nat);
    let h7 = hex_digits(g7 as nat);
    let ip_txt = fmt_ip(IpAddr::V6(g0, g1, g2, g3, g4, g5, g6, g7));
    let r6 = h6 + seq![58u8] + h7;
    let r5 = h5 + seq![58u8] + r6;
    let r4 = h4 + seq![58u8] + r5;
    let r3 = h3 + seq![58u8] + r4;
    let r2 = h2 + seq![58u8] + r3;
    let r1 = h1 + seq![58u8] + r2;
    assert(ip_txt =~= h0 + seq![58u8] + r1);
    lemma_hex_digits_free(g0 as nat, 58);
    lemma_hex_digits_free(g1 as nat, 58);
    lemma_hex_digits_free(g2 as nat, 58);
    lemma_hex_digits_free(g3 as nat, 58);
    lemma_hex_digits_free(g4 as nat, 58);
    lemma_hex_digits_free(g5 as nat, 58);
    lemma_hex_digits_free(g6 as nat, 58);
    lemma_hex_digits_free(g7 as nat, 58);
    lemma_split_on_prepend(h0, 58, r1);
    lemma_split_on_prepend(h1, 58, r2);
    lemma_split_on_prepend(h2, 58, r3);
    lemma_split_on_prepend(h3, 58, r4);
    lemma_split_on_prepend(h4, 58, r5);
    lemma_split_on_prepend(h5, 58, r6);
    lemma_split_on_prepend(h6, 58, h7);
    lemma_split_on_whole(h7, 58);
    assert(split_on(ip_txt, 58) =~~= seq![h0, h1, h2, h3, h4, h5, h6, h7]);
}

/// A byte that may appear in an endpoint text: a (hex) digit or one of
/// the delimiters `.`, `:`, `[`, `]`.
pub open spec fn sock_byte_ok(b: u8) -> bool {
    is_hex_digit(b) || b == 46 || b == 58 || b == 91 || b == 93
}

/// Every byte of an endpoint text is a digit or a delimiter.
#[verifier::rlimit(60)]
pub proof fn lemma_fmt_sock_bytes(sa: SocketAddr)
    ensures
        forall|i: int| 0 <= i < fmt_sock(sa).len() ==> sock_byte_ok(#[trigger] fmt_sock(sa)[i]),
{
    lemma_dec_digits_canon(sa.port as nat);
    let pt = dec_digits(sa.port as nat);
    match sa.ip {
        IpAddr::V4(a, b, c, d) => {
            lemma_dec_digits_canon(a as nat);
            lemma_dec_digits_canon(b as nat);
            lemma_dec_digits_canon(c as nat);
            lemma_dec_digits_canon(d as nat);
            let ta = dec_digits(a as nat);
            let tb = dec_digits(b as nat);
            let tc = dec_digits(c as nat);
            let td = dec_digits(d as nat);
            let t = fmt_sock(sa);
            assert(t =~= ta + seq![46u8] + tb + seq![46u8] + tc + seq![46u8] + td + seq![58u8]
                + pt);
            assert forall|i: int| 0 <= i < t.len() implies sock_byte_ok(#[trigger] t[i]) by {
                let l0 = ta.len() as int;
                let l1 = l0 + 1 + tb.len();
                let l2 = l1 + 1 + tc.len();
                let l3 = l2 + 1 + td.len();
                if i < l0 {
                    assert(t[i] == ta[i]);
                } else if i == l0 {
                } else if i < l1 {
                    assert(t[i] == tb[i - l0 - 1]);
                } else if i == l1 {
                } else if i < l2 {
                    assert(t[i] == tc[i - l1 - 1]);
                } else if i == l2 {
                } else if i < l3 {
                    assert(t[i] == td[i - l2 - 1]);
                } else if i == l3 {
                } else {
                    assert(t[i] == pt[i - l3 - 1]);
                }
            };
        },
        IpAddr::V6(g0, g1, g2, g3, g4, g5, g6, g7) => {
            lemma_hex_digits_canon(g0 as nat);
            lemma_hex_digits_canon(g1 as nat);
            lemma_hex_digits_canon(g2 as nat);
            lemma_hex_digits_canon(g3 as nat);
            lemma_hex_digits_canon(g4 as nat);
            lemma_hex_digits_canon(g5 as nat);
            lemma_hex_digits_canon(g6 as nat);
            lemma_hex_digits_canon(g7 as nat);
            let ip_txt = fmt_ip(sa.ip);
            let t = fmt_sock(sa);
            assert(t =~= seq![91u8] + ip_txt + seq![93u8, 58u8] + pt);
            assert forall|i: int| 0 <= i < ip_txt.len() implies sock_byte_ok(
                #[trigger] ip_txt[i],
            ) by {
                lemma_ip6_txt_byte(sa.ip, i);
            };
            assert forall|i: int| 0 <= i < t.len() implies sock_byte_ok(#[trigger] t[i]) by {
                let l0 = 1 + ip_txt.len() as int;
                if i == 0 {
                } else if i < l0 {
                    assert(t[i] == ip_txt[i - 1]);
                } else if i < l0 + 2 {
                } else {
                    assert(t[i] == pt[i - l0 - 2]);
                }
            };
        },
    }
}

} // verus!
