use vstd::prelude::*;

use vstd::arithmetic::div_mod::lemma_fundamental_div_mod;
use vstd::arithmetic::div_mod::lemma_fundamental_div_mod_converse;

verus! {

/// The value and byte count of the unsigned base-128 little-endian integer
/// at the front of `s`: each byte contributes its low seven bits, the high
/// bit says whether another byte follows.  `None` when the stream ends
/// before a byte without the continuation bit.
pub open spec fn leb_u(s: Seq<u8>) -> Option<(nat, nat)>
    decreases s.len(),
{
    if s.len() == 0 {
        None
    } else if s[0] < 128 {
        Some((s[0] as nat, 1nat))
    } else {
        match leb_u(s.skip(1)) {
            None => None,
            Some((v, l)) => Some((((s[0] - 128) + 128 * v) as nat, (l + 1) as nat)),
        }
    }
}

/// The value and byte count of the signed (two's complement) base-128
/// little-endian integer at the front of `s`.  The final byte's bit 6 is the
/// sign bit; the sign propagates outward through the multiplication.
pub open spec fn leb_s(s: Seq<u8>) -> Option<(int, nat)>
    decreases s.len(),
{
    if s.len() == 0 {
        None
    } else if s[0] < 64 {
        Some((s[0] as int, 1nat))
    } else if s[0] < 128 {
        Some((s[0] - 128, 1nat))
    } else {
        match leb_s(s.skip(1)) {
            None => None,
            Some((v, l)) => Some(((s[0] - 128) + 128 * v, (l + 1) as nat)),
        }
    }
}

/// The canonical (shortest) unsigned encoding of `n`.
pub open spec fn enc_u(n: nat) -> Seq<u8>
    decreases n,
{
    if n < 128 {
        seq![n as u8]
    } else {
        proof {
            assert(n >= 128 ==> n / 128 < n) by (nonlinear_arith);
        }
        seq![(128 + n % 128) as u8] + enc_u(n / 128)
    }
}

/// The absolute value, as a termination measure for the signed encoder.
pub open spec fn sabs(v: int) -> nat {
    if v < 0 {
        (-v) as nat
    } else {
        v as nat
    }
}

/// The canonical (shortest) signed encoding of `v`.
pub open spec fn enc_s(v: int) -> Seq<u8>
    decreases sabs(v),
{
    if -64 <= v < 64 {
        if v < 0 {
            seq![(v + 128) as u8]
        } else {
            seq![v as u8]
        }
    } else {
        proof {
            assert((-64 <= v < 64) == false ==> sabs((v - v % 128) / 128) < sabs(v))
                by (nonlinear_arith);
        }
        seq![(128 + v % 128) as u8] + enc_s((v - v % 128) / 128)
    }
}

/// Unsigned round trip: decoding the canonical encoding of `n` gives back
/// `n` and consumes exactly the encoding, which is at most ten bytes long
/// for a 64-bit value.
pub proof fn lemma_unsigned_round_trip(n: u64)
    ensures
        leb_u(enc_u(n as nat)) == Some((n as nat, enc_u(n as nat).len() as nat)),
        1 <= enc_u(n as nat).len() <= 10,
{
    lemma_enc_u_decodes(n as nat);
    assert((n as nat) < vstd::arithmetic::power2::pow2(70)) by {
        vstd::arithmetic::power2::lemma2_to64();
        vstd::arithmetic::power2::lemma_pow2_strictly_increases(64, 70);
    };
    lemma_enc_u_len(n as nat, 10);
}

/// Signed round trip: decoding the canonical encoding of `v` gives back
/// `v` and consumes exactly the encoding, which is at most ten bytes long
/// for a 64-bit value.
pub proof fn lemma_signed_round_trip(v: i64)
    ensures
        leb_s(enc_s(v as int)) == Some((v as int, enc_s(v as int).len() as nat)),
        1 <= enc_s(v as int).len() <= 10,
{
    lemma_enc_s_decodes(v as int);
    assert(-vstd::arithmetic::power2::pow2(70) <= 2 * (v as int)
        < vstd::arithmetic::power2::pow2(70)) by {
        vstd::arithmetic::power2::lemma2_to64();
        vstd::arithmetic::power2::lemma_pow2_strictly_increases(64, 70);
    };
    lemma_enc_s_len(v as int, 10);
}

proof fn lemma_enc_u_decodes(n: nat)
    ensures
        leb_u(enc_u(n)) == Some((n, enc_u(n).len() as nat)),
    decreases n,
{
    if n < 128 {
        assert(enc_u(n) =~= seq![n as u8]);
    } else {
        assert(n / 128 < n) by (nonlinear_arith)
            requires
                n >= 128,
        ;
        lemma_enc_u_decodes(n / 128);
        let c = enc_u(n);
        assert(c.skip(1) =~= enc_u(n / 128));
        assert(n % 128 + 128 * (n / 128) == n) by {
            lemma_fundamental_div_mod(n as int, 128);
        };
    }
}

/// If `n < 2^(7 k)` then the canonical encoding has at most `k` digits.
proof fn lemma_enc_u_len(n: nat, k: nat)
    requires
        n < vstd::arithmetic::power2::pow2(7 * k),
        k >= 1,
    ensures
        1 <= enc_u(n).len() <= k,
    decreases n,
{
    if n < 128 {
    } else {
        assert(n / 128 < n) by (nonlinear_arith)
            requires
                n >= 128,
        ;
        assert(k >= 2) by {
            if k == 1 {
                vstd::arithmetic::power2::lemma2_to64();
            }
        };
        assert(vstd::arithmetic::power2::pow2(7 * k) == 128 * vstd::arithmetic::power2::pow2(
            (7 * k - 7) as nat,
        )) by {
            vstd::arithmetic::power2::lemma_pow2_adds(7, (7 * k - 7) as nat);
            vstd::arithmetic::power2::lemma2_to64();
        };
        assert(n / 128 < vstd::arithmetic::power2::pow2((7 * k - 7) as nat)) by (nonlinear_arith)
            requires
                n < 128 * vstd::arithmetic::power2::pow2((7 * k - 7) as nat),
        ;
        assert((7 * k - 7) as nat == 7 * ((k - 1) as nat));
        lemma_enc_u_len(n / 128, (k - 1) as nat);
    }
}

proof fn lemma_enc_s_decodes(v: int)
    ensures
        leb_s(enc_s(v)) == Some((v, enc_s(v).len() as nat)),
    decreases sabs(v),
{
    if -64 <= v < 64 {
    } else {
        let d = v % 128;
        let q = (v - d) / 128;
        assert(0 <= d < 128) by {
            vstd::arithmetic::div_mod::lemma_mod_bound(v, 128);
        };
        assert(v == 128 * q + d) by {
            lemma_fundamental_div_mod(v, 128);
            assert((v - d) / 128 == v / 128) by (nonlinear_arith)
                requires
                    v == 128 * (v / 128) + d,
            ;
        };
        assert(sabs(q) < sabs(v)) by (nonlinear_arith)
            requires
                v == 128 * q + d,
                0 <= d < 128,
                (v < -64 || v >= 64),
        ;
        lemma_enc_s_decodes(q);
        let c = enc_s(v);
        assert(c.skip(1) =~= enc_s(q));
    }
}

/// If `|2 v| <= 2^(7 k)` then the canonical signed encoding has at most `k`
/// digits.
proof fn lemma_enc_s_len(v: int, k: nat)
    requires
        -vstd::arithmetic::power2::pow2(7 * k) <= 2 * v < vstd::arithmetic::power2::pow2(7 * k),
        k >= 1,
    ensures
        1 <= enc_s(v).len() <= k,
    decreases sabs(v),
{
    if -64 <= v < 64 {
    } else {
        let d = v % 128;
        let q = (v - d) / 128;
        assert(0 <= d < 128) by {
            vstd::arithmetic::div_mod::lemma_mod_bound(v, 128);
        };
        assert(v == 128 * q + d) by {
            lemma_fundamental_div_mod(v, 128);
            assert((v - d) / 128 == v / 128) by (nonlinear_arith)
                requires
                    v == 128 * (v / 128) + d,
            ;
        };
        assert(sabs(q) < sabs(v)) by (nonlinear_arith)
            requires
                v == 128 * q + d,
                0 <= d < 128,
                (v < -64 || v >= 64),
        ;
        assert(k >= 2) by {
            if k == 1 {
                vstd::arithmetic::power2::lemma2_to64();
            }
        };
        assert(vstd::arithmetic::power2::pow2(7 * k) == 256 * vstd::arithmetic::power2::pow2(
            (7 * k - 8) as nat,
        )) by {
            vstd::arithmetic::power2::lemma_pow2_adds(8, (7 * k - 8) as nat);
            vstd::arithmetic::power2::lemma2_to64();
        };
        let hh = vstd::arithmetic::power2::pow2((7 * k - 8) as nat);
        assert(-hh <= q < hh) by (nonlinear_arith)
            requires
                v == 128 * q + d,
                0 <= d < 128,
                -(256 * hh) <= 2 * v < 256 * hh,
        ;
        assert(vstd::arithmetic::power2::pow2((7 * k - 7) as nat) == 2 * hh) by {
            vstd::arithmetic::power2::lemma_pow2_adds(1, (7 * k - 8) as nat);
            vstd::arithmetic::power2::lemma2_to64();
        };
        assert((7 * k - 7) as nat == 7 * ((k - 1) as nat));
        lemma_enc_s_len(q, (k - 1) as nat);
    }
}

/// A 32-bit value's canonical unsigned encoding is one to five bytes.
pub proof fn lemma_enc_u32_len(n: u32)
    ensures
        1 <= enc_u(n as nat).len() <= 5,
{
    assert((n as nat) < vstd::arithmetic::power2::pow2(35)) by {
        vstd::arithmetic::power2::lemma2_to64();
        vstd::arithmetic::power2::lemma_pow2_strictly_increases(32, 35);
    };
    lemma_enc_u_len(n as nat, 5);
}

/// A parsed unsigned varint spans one to `s.len()` bytes.
pub proof fn lemma_leb_u_len(s: Seq<u8>)
    ensures
        leb_u(s) matches Some((v, l)) ==> 1 <= l <= s.len(),
    decreases s.len(),
{
    if s.len() != 0 && s[0] >= 128 {
        lemma_leb_u_len(s.skip(1));
    }
}

/// A parsed signed varint spans one to `s.len()` bytes.
pub proof fn lemma_leb_s_len(s: Seq<u8>)
    ensures
        leb_s(s) matches Some((v, l)) ==> 1 <= l <= s.len(),
    decreases s.len(),
{
    if s.len() != 0 && s[0] >= 128 {
        lemma_leb_s_len(s.skip(1));
    }
}

/// Encode `n` in the unsigned variable-length format.
pub fn encode_unsigned(n: u64) -> (r: Vec<u8>)
    ensures
        r@ == enc_u(n as nat),
    decreases n,
{
    if n < 128 {
        let mut v: Vec<u8> = Vec::new();
        v.push(n as u8);
        proof {
            assert(v@ =~= enc_u(n as nat));
        }
        v
    } else {
        proof {
            assert(n as nat / 128 == (n / 128) as nat);
        }
        let mut rest = encode_unsigned(n / 128);
        let mut v: Vec<u8> = Vec::new();
        v.push(128 + (n % 128) as u8);
        v.append(&mut rest);
        proof {
            assert(v@ =~= enc_u(n as nat));
        }
        v
    }
}

/// Encode `n` in the signed variable-length format.
pub fn encode_signed(n: i64) -> (r: Vec<u8>)
    ensures
        r@ == enc_s(n as int),
    decreases sabs(n as int),
{
    if -64 <= n && n < 64 {
        let b: u8 = if n < 0 {
            (n + 128) as u8
        } else {
            n as u8
        };
        let mut v: Vec<u8> = Vec::new();
        v.push(b);
        proof {
            assert(v@ =~= enc_s(n as int));
        }
        v
    } else {
        let (d8, q): (u8, i64) = if n >= 64 {
            let m: u64 = n as u64;
            ((m % 128) as u8, (m / 128) as i64)
        } else {
            // Two's-complement trick: with m = -1 - n >= 64, the low digit of
            // n is 127 - m % 128 and the remaining digits are -1 - m / 128.
            let m: u64 = (-1i64 - n) as u64;
            (127 - (m % 128) as u8, -1i64 - (m / 128) as i64)
        };
        proof {
            let vi = n as int;
            if n >= 64 {
                lemma_fundamental_div_mod(vi, 128);
            } else {
                let m = (-1 - vi) as nat;
                lemma_fundamental_div_mod(m as int, 128);
                // vi == 128 * (-1 - m / 128) + (127 - m % 128)
                lemma_fundamental_div_mod_converse(
                    vi,
                    128,
                    -1 - (m as int) / 128,
                    127 - (m as int) % 128,
                );
            }
            assert(d8 as int == vi % 128);
            assert(q as int == (vi - vi % 128) / 128) by {
                lemma_fundamental_div_mod(vi, 128);
                assert((vi - vi % 128) / 128 == vi / 128) by (nonlinear_arith)
                    requires
                        vi == 128 * (vi / 128) + vi % 128,
                ;
            };
            assert(sabs(q as int) < sabs(vi)) by (nonlinear_arith)
                requires
                    vi == 128 * (q as int) + (d8 as int),
                    0 <= (d8 as int) < 128,
                    (vi < -64 || vi >= 64),
            ;
        }
        let mut rest = encode_signed(q);
        let mut v: Vec<u8> = Vec::new();
        v.push(128 + d8);
        v.append(&mut rest);
        proof {
            assert(v@ =~= enc_s(n as int));
        }
        v
    }
}

} // verus!
