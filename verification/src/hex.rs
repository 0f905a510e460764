//! Lowercase hexadecimal encoding of byte strings, verified, with a
//! round-trip proof. Fingerprints and announcement signatures travel in this
//! form.

use vstd::prelude::*;

verus! {

/// ASCII digit of a nibble, lowercase.
pub open spec fn hex_digit(n: u8) -> u8 {
    if n < 10 {
        (48 + n) as u8
    } else {
        (87 + n) as u8
    }
}

/// Nibble denoted by an ASCII digit, if any.
pub open spec fn hex_val(c: u8) -> Option<u8> {
    if 48 <= c && c <= 57 {
        Some((c - 48) as u8)
    } else if 97 <= c && c <= 102 {
        Some((c - 87) as u8)
    } else {
        None
    }
}

/// Two lowercase digits for each byte, high nibble first.
pub open spec fn spec_hex_encode(b: Seq<u8>) -> Seq<u8>
    decreases b.len(),
{
    if b.len() == 0 {
        Seq::empty()
    } else {
        seq![hex_digit(b[0] / 16), hex_digit(b[0] % 16)] + spec_hex_encode(
            b.subrange(1, b.len() as int),
        )
    }
}

pub proof fn lemma_hex_encode_len(b: Seq<u8>)
    ensures
        spec_hex_encode(b).len() == 2 * b.len(),
    decreases b.len(),
{
    if b.len() == 0 {
    } else {
        lemma_hex_encode_len(b.subrange(1, b.len() as int));
    }
}

pub proof fn lemma_hex_digit_val(n: u8)
    requires
        n < 16,
    ensures
        hex_val(hex_digit(n)) == Some(n),
{
}

pub proof fn lemma_hex_encode_snoc(b: Seq<u8>, x: u8)
    ensures
        spec_hex_encode(b.push(x)) == spec_hex_encode(b) + seq![hex_digit(x / 16), hex_digit(
            x % 16,
        )],
    decreases b.len(),
{
    let whole = b.push(x);
    if b.len() == 0 {
        let e = whole.subrange(1, 1int);
        assert(e =~= Seq::<u8>::empty());
        assert(spec_hex_encode(e) == Seq::<u8>::empty());
        assert(spec_hex_encode(whole) == seq![hex_digit(x / 16), hex_digit(x % 16)]
            + spec_hex_encode(e));
        assert(spec_hex_encode(b) == Seq::<u8>::empty());
        assert(seq![hex_digit(x / 16), hex_digit(x % 16)] + Seq::<u8>::empty() =~= Seq::<
            u8,
        >::empty() + seq![hex_digit(x / 16), hex_digit(x % 16)]);
    } else {
        let tail = b.subrange(1, b.len() as int);
        assert(whole[0] == b[0]);
        assert(whole.subrange(1, whole.len() as int) =~= tail.push(x));
        lemma_hex_encode_snoc(tail, x);
        let a: Seq<u8> = seq![hex_digit(b[0] / 16), hex_digit(b[0] % 16)];
        let c: Seq<u8> = seq![hex_digit(x / 16), hex_digit(x % 16)];
        assert(spec_hex_encode(whole) == a + (spec_hex_encode(tail) + c));
        assert(a + (spec_hex_encode(tail) + c) =~= (a + spec_hex_encode(tail)) + c);
        assert(spec_hex_encode(b) == a + spec_hex_encode(tail));
    }
}

/// Encodes bytes as lowercase hexadecimal text.
pub fn hex_encode(b: &Vec<u8>) -> (r: Vec<u8>)
    ensures
        r@ == spec_hex_encode(b@),
        r@.len() == 2 * b@.len(),
{
    let n = b.len();
    let mut out: Vec<u8> = Vec::new();
    let mut i: usize = 0;
    while i < n
        invariant
            i <= n,
            n == b@.len(),
            out@ == spec_hex_encode(b@.subrange(0, i as int)),
        decreases n - i,
    {
        let x = b[i];
        let hi = x / 16;
        let lo = x % 16;
        out.push(
            if hi < 10 {
                48 + hi
            } else {
                87 + hi
            },
        );
        out.push(
            if lo < 10 {
                48 + lo
            } else {
                87 + lo
            },
        );
        proof {
            lemma_hex_encode_snoc(b@.subrange(0, i as int), b@[i as int]);
            assert(b@.subrange(0, i + 1) =~= b@.subrange(0, i as int).push(b@[i as int]));
        }
        i = i + 1;
        assert(out@ =~= spec_hex_encode(b@.subrange(0, i as int)));
    }
    assert(b@.subrange(0, n as int) =~= b@);
    proof {
        lemma_hex_encode_len(b@);
    }
    out
}

/// Decodes lowercase hexadecimal text; anything else yields `None`.
pub fn hex_decode(s: &Vec<u8>) -> (r: Option<Vec<u8>>)
    ensures
        (match r {
            Some(b) => s@ == spec_hex_encode(b@),
            None => forall|b: Seq<u8>| s@ != spec_hex_encode(b),
        }),
{
    if s.len() % 2 != 0 {
        proof {
            assert forall|b: Seq<u8>| s@ != spec_hex_encode(b) by {
                lemma_hex_encode_len(b);
            }
        }
        return None;
    }
    let n = s.len() / 2;
    let slen = s.len();
    let mut out: Vec<u8> = Vec::new();
    let mut i: usize = 0;
    while i < n
        invariant
            i <= n,
            slen == s@.len(),
            s@.len() == 2 * n,
            out@.len() == i,
            spec_hex_encode(out@) == s@.subrange(0, 2 * i as int),
        decreases n - i,
    {
        let c_hi = s[2 * i];
        let c_lo = s[2 * i + 1];
        let hi: u8 = if 48 <= c_hi && c_hi <= 57 {
            c_hi - 48
        } else if 97 <= c_hi && c_hi <= 102 {
            c_hi - 87
        } else {
            proof {
                lemma_bad_digit(s@, out@, i as int, n as int, true);
            }
            return None;
        };
        let lo: u8 = if 48 <= c_lo && c_lo <= 57 {
            c_lo - 48
        } else if 97 <= c_lo && c_lo <= 102 {
            c_lo - 87
        } else {
            proof {
                lemma_bad_digit(s@, out@, i as int, n as int, false);
            }
            return None;
        };
        let x = hi * 16 + lo;
        proof {
            lemma_hex_encode_snoc(out@, x);
            assert(hex_digit(x / 16) == c_hi);
            assert(hex_digit(x % 16) == c_lo);
            assert(spec_hex_encode(out@.push(x)) =~= s@.subrange(0, 2 * (i + 1)));
        }
        out.push(x);
        i = i + 1;
    }
    assert(s@.subrange(0, 2 * n as int) =~= s@);
    Some(out)
}

/// When a digit position fails to parse, no byte string encodes to `s`.
proof fn lemma_bad_digit(s: Seq<u8>, prefix: Seq<u8>, i: int, n: int, hi: bool)
    requires
        0 <= i < n,
        s.len() == 2 * n,
        prefix.len() == i,
        spec_hex_encode(prefix) == s.subrange(0, 2 * i),
        hi ==> hex_val(s[2 * i]) is None,
        !hi ==> hex_val(s[2 * i + 1]) is None,
    ensures
        forall|b: Seq<u8>| s != spec_hex_encode(b),
{
    assert forall|b: Seq<u8>| s != spec_hex_encode(b) by {
        if s == spec_hex_encode(b) {
            lemma_hex_encode_len(b);
            lemma_hex_encode_digits(b, i);
            if hi {
                lemma_hex_digit_val(b[i] / 16);
            } else {
                lemma_hex_digit_val(b[i] % 16);
            }
        }
    }
}

/// In an encoding, position `2i` holds the digits of byte `i`.
proof fn lemma_hex_encode_digits(b: Seq<u8>, i: int)
    requires
        0 <= i < b.len(),
    ensures
        spec_hex_encode(b)[2 * i] == hex_digit(b[i] / 16),
        spec_hex_encode(b)[2 * i + 1] == hex_digit(b[i] % 16),
    decreases i,
{
    lemma_hex_encode_len(b.subrange(1, b.len() as int));
    if i == 0 {
    } else {
        let tail = b.subrange(1, b.len() as int);
        lemma_hex_encode_digits(tail, i - 1);
        assert(tail[i - 1] == b[i]);
    }
}


/// Hex encoding is injective: equal encodings come from equal bytes.
pub proof fn lemma_hex_encode_injective(a: Seq<u8>, b: Seq<u8>)
    requires
        spec_hex_encode(a) == spec_hex_encode(b),
    ensures
        a == b,
    decreases a.len(),
{
    lemma_hex_encode_len(a);
    lemma_hex_encode_len(b);
    if a.len() == 0 {
        assert(a =~= b);
    } else {
        let ta = a.subrange(1, a.len() as int);
        let tb = b.subrange(1, b.len() as int);
        assert(spec_hex_encode(a)[0] == hex_digit(a[0] / 16));
        assert(spec_hex_encode(a)[1] == hex_digit(a[0] % 16));
        assert(spec_hex_encode(b)[0] == hex_digit(b[0] / 16));
        assert(spec_hex_encode(b)[1] == hex_digit(b[0] % 16));
        lemma_hex_digit_val(a[0] / 16);
        lemma_hex_digit_val(a[0] % 16);
        lemma_hex_digit_val(b[0] / 16);
        lemma_hex_digit_val(b[0] % 16);
        assert(a[0] == b[0]);
        assert(spec_hex_encode(ta) =~= spec_hex_encode(a).subrange(2, spec_hex_encode(a).len() as int));
        assert(spec_hex_encode(tb) =~= spec_hex_encode(b).subrange(2, spec_hex_encode(b).len() as int));
        lemma_hex_encode_injective(ta, tb);
        assert forall|k: int| 0 <= k < a.len() implies a[k] == b[k] by {
            if k > 0 {
                assert(ta[k - 1] == a[k]);
                assert(tb[k - 1] == b[k]);
            }
        }
        assert(a =~= b);
    }
}

} // verus!
