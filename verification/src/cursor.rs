use vstd::prelude::*;

use crate::error::DecodeError;
use crate::error::Malformation;
use crate::varint::leb_s;
use crate::varint::leb_u;
use vstd::arithmetic::power2::pow2;

verus! {

/// A read position over an owned byte buffer: the primitive reads that every
/// decoder builds on.  All reads fail with `UnexpectedEof` rather than pad
/// or truncate when fewer bytes are available than required.
pub struct ByteCursor {
    bytes: Vec<u8>,
    pos: usize,
}

/// The little-endian 32-bit value of the first four bytes of `s`.
pub open spec fn le_u32(s: Seq<u8>) -> u32
    recommends
        s.len() >= 4,
{
    (s[0] + 0x100 * s[1] + 0x1_0000 * s[2] + 0x100_0000 * s[3]) as u32
}

impl ByteCursor {
    /// The position never passes the end of the buffer.
    pub closed spec fn wf(&self) -> bool {
        self.pos <= self.bytes@.len()
    }

    /// The bytes not yet consumed.
    pub closed spec fn remaining(&self) -> Seq<u8> {
        self.bytes@.skip(self.pos as int)
    }

    pub fn new(bytes: Vec<u8>) -> (c: ByteCursor)
        ensures
            c.wf(),
            c.remaining() == bytes@,
    {
        let ghost view = bytes@;
        let c = ByteCursor { bytes, pos: 0 };
        proof {
            assert(c.remaining() =~= view);
        }
        c
    }

    /// Non-consuming probe: whether at least one byte remains.
    pub fn has_next(&self) -> (r: bool)
        requires
            self.wf(),
        ensures
            r == (self.remaining().len() > 0),
    {
        self.pos < self.bytes.len()
    }

    /// How many bytes remain.
    pub fn remaining_len(&self) -> (r: usize)
        requires
            self.wf(),
        ensures
            r == self.remaining().len(),
    {
        self.bytes.len() - self.pos
    }

    /// Non-consuming look at the next byte.
    pub fn peek(&self) -> (r: Option<u8>)
        requires
            self.wf(),
        ensures
            self.remaining().len() > 0 ==> r == Some(self.remaining()[0]),
            self.remaining().len() == 0 ==> r is None,
    {
        if self.pos < self.bytes.len() {
            Some(self.bytes[self.pos])
        } else {
            None
        }
    }

    /// Consume one byte.
    pub fn read_byte(&mut self) -> (r: Result<u8, DecodeError>)
        requires
            old(self).wf(),
        ensures
            final(self).wf(),
            old(self).remaining().len() > 0 ==> r == Ok::<u8, DecodeError>(
                old(self).remaining()[0],
            ) && final(self).remaining() == old(self).remaining().skip(1),
            old(self).remaining().len() == 0 ==> r == Err::<u8, DecodeError>(
                DecodeError::UnexpectedEof,
            ) && *final(self) == *old(self),
    {
        if self.pos < self.bytes.len() {
            let b = self.bytes[self.pos];
            self.pos = self.pos + 1;
            proof {
                assert(self.remaining() =~= old(self).remaining().skip(1));
            }
            Ok(b)
        } else {
            Err(DecodeError::UnexpectedEof)
        }
    }

    /// Consume exactly `n` bytes; fails without consuming anything when
    /// fewer remain.
    pub fn read_bytes(&mut self, n: usize) -> (r: Result<Vec<u8>, DecodeError>)
        requires
            old(self).wf(),
        ensures
            final(self).wf(),
            old(self).remaining().len() >= n ==> {
                &&& r matches Ok(v) && v@ == old(self).remaining().take(n as int)
                &&& final(self).remaining() == old(self).remaining().skip(n as int)
            },
            old(self).remaining().len() < n ==> r == Err::<Vec<u8>, DecodeError>(
                DecodeError::UnexpectedEof,
            ) && *final(self) == *old(self),
    {
        if n > self.bytes.len() - self.pos {
            return Err(DecodeError::UnexpectedEof);
        }
        let len = self.bytes.len();
        let mut out: Vec<u8> = Vec::new();
        let mut i: usize = 0;
        while i < n
            invariant
                self == old(self),
                self.wf(),
                self.bytes@.len() == len,
                self.pos + n <= len,
                0 <= i <= n,
                out@ =~= self.remaining().take(i as int),
            decreases n - i,
        {
            out.push(self.bytes[self.pos + i]);
            i = i + 1;
            proof {
                assert(out@ =~= self.remaining().take(i as int));
            }
        }
        self.pos = self.pos + n;
        proof {
            assert(self.remaining() =~= old(self).remaining().skip(n as int));
        }
        Ok(out)
    }

    /// Consume everything that remains.
    pub fn read_the_rest(&mut self) -> (r: Vec<u8>)
        requires
            old(self).wf(),
        ensures
            final(self).wf(),
            r@ == old(self).remaining(),
            final(self).remaining().len() == 0,
    {
        let n = self.bytes.len() - self.pos;
        let out = match self.read_bytes(n) {
            Ok(v) => v,
            Err(_) => Vec::new(),
        };
        proof {
            assert(out@ =~= old(self).remaining());
        }
        out
    }

    /// Read a fixed four-byte little-endian 32-bit integer.
    pub fn read_u32_le(&mut self) -> (r: Result<u32, DecodeError>)
        requires
            old(self).wf(),
        ensures
            final(self).wf(),
            old(self).remaining().len() >= 4 ==> r == Ok::<u32, DecodeError>(
                le_u32(old(self).remaining()),
            ) && final(self).remaining() == old(self).remaining().skip(4),
            old(self).remaining().len() < 4 ==> r == Err::<u32, DecodeError>(
                DecodeError::UnexpectedEof,
            ) && *final(self) == *old(self),
    {
        let b = match self.read_bytes(4) {
            Ok(v) => v,
            Err(e) => {
                return Err(e);
            },
        };
        let x: u32 = b[0] as u32 + 0x100 * (b[1] as u32) + 0x1_0000 * (b[2] as u32) + 0x100_0000
            * (b[3] as u32);
        Ok(x)
    }

    /// Read an unsigned variable-length integer whose remaining digits must
    /// fit in `bits_left` bits.  Succeeds exactly when the integer at the
    /// front of the stream is complete, spans few enough digits, and its
    /// value fits.
    fn read_leb_u(&mut self, bits_left: u32) -> (r: Result<u64, DecodeError>)
        requires
            old(self).wf(),
            bits_left <= 64,
        ensures
            final(self).wf(),
            final(self).remaining().len() <= old(self).remaining().len(),
            leb_u(old(self).remaining()) is None ==> r == Err::<u64, DecodeError>(
                DecodeError::UnexpectedEof,
            ),
            leb_u(old(self).remaining()) matches Some((v, l)) ==> if v < pow2(bits_left as nat)
                && 7 * (l as int - 1) < bits_left as int {
                &&& r matches Ok(x)
                &&& x as nat == v
                &&& final(self).remaining() == old(self).remaining().skip(l as int)
            } else {
                r == Err::<u64, DecodeError>(DecodeError::Malformed(Malformation::VarintOverflow))
            },
        decreases old(self).remaining().len(),
    {
        let ghost s0 = old(self).remaining();
        let b = match self.read_byte() {
            Ok(b) => b,
            Err(e) => {
                return Err(e);
            },
        };
        if b < 128 {
            // Final digit: the whole value is this byte.
            if bits_left == 0 {
                Err(DecodeError::Malformed(Malformation::VarintOverflow))
            } else if bits_left >= 7 {
                proof {
                    vstd::arithmetic::power2::lemma2_to64();
                    if bits_left > 7 {
                        vstd::arithmetic::power2::lemma_pow2_strictly_increases(
                            7,
                            bits_left as nat,
                        );
                    }
                }
                Ok(b as u64)
            } else {
                let limit = pow2_small(bits_left);
                if (b as u64) < limit {
                    Ok(b as u64)
                } else {
                    Err(DecodeError::Malformed(Malformation::VarintOverflow))
                }
            }
        } else {
            // Continuation digit: this byte holds the low seven bits.
            let sub_bits = if bits_left >= 7 {
                bits_left - 7
            } else {
                0
            };
            let ghost s1 = s0.skip(1);
            proof {
                crate::varint::lemma_leb_u_len(s1);
            }
            match self.read_leb_u(sub_bits) {
                Err(e) => {
                    proof {
                        match leb_u(s1) {
                            Some((v2, l2)) => {
                                vstd::arithmetic::power2::lemma_pow2_pos(sub_bits as nat);
                                lemma_mul_bound_equiv(
                                    (b - 128) as int,
                                    v2 as int,
                                    pow2(sub_bits as nat) as int,
                                );
                                if bits_left >= 7 {
                                    vstd::arithmetic::power2::lemma_pow2_adds(7, sub_bits as nat);
                                    vstd::arithmetic::power2::lemma2_to64();
                                }
                            },
                            None => {},
                        }
                    }
                    Err(e)
                },
                Ok(x) => {
                    proof {
                        let (v2, l2) = leb_u(s1).unwrap();
                        assert(bits_left >= 7) by {
                            if bits_left < 7 {
                                vstd::arithmetic::power2::lemma2_to64();
                            }
                        };
                        vstd::arithmetic::power2::lemma_pow2_adds(7, sub_bits as nat);
                        vstd::arithmetic::power2::lemma2_to64();
                        vstd::arithmetic::power2::lemma_pow2_pos(sub_bits as nat);
                        lemma_mul_bound_equiv(
                            (b - 128) as int,
                            v2 as int,
                            pow2(sub_bits as nat) as int,
                        );
                        if bits_left < 64 {
                            vstd::arithmetic::power2::lemma_pow2_strictly_increases(
                                bits_left as nat,
                                64,
                            );
                        }
                        assert(s1.skip(l2 as int) =~= s0.skip(1 + l2 as int));
                    }
                    let val = (b - 128) as u64 + 128 * x;
                    Ok(val)
                },
            }
        }
    }

    /// Read an unsigned variable-length 64-bit integer.  Succeeds exactly
    /// when the stream starts with a complete encoding of at most ten bytes
    /// whose value fits 64 bits; a longer or larger one is malformed.
    pub fn read_u64(&mut self) -> (r: Result<u64, DecodeError>)
        requires
            old(self).wf(),
        ensures
            final(self).wf(),
            final(self).remaining().len() <= old(self).remaining().len(),
            leb_u(old(self).remaining()) is None ==> r == Err::<u64, DecodeError>(
                DecodeError::UnexpectedEof,
            ),
            leb_u(old(self).remaining()) matches Some((v, l)) ==> if v
                < 0x1_0000_0000_0000_0000 && l <= 10 {
                &&& r matches Ok(x)
                &&& x as nat == v
                &&& final(self).remaining() == old(self).remaining().skip(l as int)
            } else {
                r == Err::<u64, DecodeError>(DecodeError::Malformed(Malformation::VarintOverflow))
            },
    {
        proof {
            vstd::arithmetic::power2::lemma2_to64();
        }
        self.read_leb_u(64)
    }

    /// Read an unsigned variable-length integer and truncate it to 32 bits,
    /// as the format's 32-bit accessors do.
    pub fn read_u32(&mut self) -> (r: Result<u32, DecodeError>)
        requires
            old(self).wf(),
        ensures
            final(self).wf(),
            final(self).remaining().len() <= old(self).remaining().len(),
            leb_u(old(self).remaining()) is None ==> r == Err::<u32, DecodeError>(
                DecodeError::UnexpectedEof,
            ),
            leb_u(old(self).remaining()) matches Some((v, l)) ==> if v
                < 0x1_0000_0000_0000_0000 && l <= 10 {
                &&& r == Ok::<u32, DecodeError>(v as u32)
                &&& final(self).remaining() == old(self).remaining().skip(l as int)
            } else {
                r == Err::<u32, DecodeError>(DecodeError::Malformed(Malformation::VarintOverflow))
            },
    {
        match self.read_u64() {
            Ok(x) => Ok(x as u32),
            Err(e) => Err(e),
        }
    }

    /// Read a signed variable-length integer whose remaining digits must fit
    /// in `bits_left` bits (sign included).
    fn read_leb_s(&mut self, bits_left: u32) -> (r: Result<i64, DecodeError>)
        requires
            old(self).wf(),
            bits_left <= 64,
        ensures
            final(self).wf(),
            final(self).remaining().len() <= old(self).remaining().len(),
            leb_s(old(self).remaining()) is None ==> r == Err::<i64, DecodeError>(
                DecodeError::UnexpectedEof,
            ),
            leb_s(old(self).remaining()) matches Some((v, l)) ==> if -(pow2(bits_left as nat)
                as int) <= 2 * v < pow2(bits_left as nat) && 7 * (l as int - 1)
                < bits_left as int {
                &&& r matches Ok(x)
                &&& x as int == v
                &&& final(self).remaining() == old(self).remaining().skip(l as int)
            } else {
                r == Err::<i64, DecodeError>(DecodeError::Malformed(Malformation::VarintOverflow))
            },
        decreases old(self).remaining().len(),
    {
        let ghost s0 = old(self).remaining();
        let b = match self.read_byte() {
            Ok(b) => b,
            Err(e) => {
                return Err(e);
            },
        };
        if b < 128 {
            // Final digit, carrying the sign in bit 6.
            let d: i64 = if b < 64 {
                b as i64
            } else {
                (b as i64) - 128
            };
            if bits_left == 0 {
                Err(DecodeError::Malformed(Malformation::VarintOverflow))
            } else if bits_left >= 8 {
                proof {
                    vstd::arithmetic::power2::lemma2_to64();
                    if bits_left > 8 {
                        vstd::arithmetic::power2::lemma_pow2_strictly_increases(
                            8,
                            bits_left as nat,
                        );
                    }
                }
                Ok(d)
            } else {
                let limit = pow2_small(bits_left);
                proof {
                    vstd::arithmetic::power2::lemma2_to64();
                    if (bits_left as nat) < 7 {
                        vstd::arithmetic::power2::lemma_pow2_strictly_increases(
                            bits_left as nat,
                            7,
                        );
                    }
                }
                let twice: i64 = 2 * d;
                if -(limit as i64) <= twice && twice < limit as i64 {
                    Ok(d)
                } else {
                    Err(DecodeError::Malformed(Malformation::VarintOverflow))
                }
            }
        } else {
            // Continuation digit: this byte holds the low seven bits.
            let sub_bits = if bits_left >= 7 {
                bits_left - 7
            } else {
                0
            };
            let ghost s1 = s0.skip(1);
            proof {
                crate::varint::lemma_leb_s_len(s1);
            }
            match self.read_leb_s(sub_bits) {
                Err(e) => {
                    proof {
                        match leb_s(s1) {
                            Some((v2, l2)) => {
                                if bits_left >= 8 {
                                    vstd::arithmetic::power2::lemma_pow2_pos(
                                        (sub_bits - 1) as nat,
                                    );
                                    lemma_smul_bound_equiv(
                                        (b - 128) as int,
                                        v2,
                                        pow2((sub_bits - 1) as nat) as int,
                                    );
                                    vstd::arithmetic::power2::lemma_pow2_adds(7, sub_bits as nat);
                                    vstd::arithmetic::power2::lemma_pow2_adds(
                                        1,
                                        (sub_bits - 1) as nat,
                                    );
                                    vstd::arithmetic::power2::lemma2_to64();
                                }
                            },
                            None => {},
                        }
                    }
                    Err(e)
                },
                Ok(x) => {
                    proof {
                        let (v2, l2) = leb_s(s1).unwrap();
                        assert(bits_left >= 8) by {
                            vstd::arithmetic::power2::lemma2_to64();
                            if bits_left == 7 {
                                assert(pow2(0) == 1);
                            }
                        };
                        vstd::arithmetic::power2::lemma_pow2_adds(7, sub_bits as nat);
                        vstd::arithmetic::power2::lemma_pow2_adds(1, (sub_bits - 1) as nat);
                        vstd::arithmetic::power2::lemma2_to64();
                        vstd::arithmetic::power2::lemma_pow2_pos((sub_bits - 1) as nat);
                        lemma_smul_bound_equiv(
                            (b - 128) as int,
                            v2,
                            pow2((sub_bits - 1) as nat) as int,
                        );
                        if bits_left < 64 {
                            vstd::arithmetic::power2::lemma_pow2_strictly_increases(
                                bits_left as nat,
                                64,
                            );
                        }
                        assert(s1.skip(l2 as int) =~= s0.skip(1 + l2 as int));
                    }
                    let val = ((b - 128) as i64) + 128 * x;
                    Ok(val)
                },
            }
        }
    }

    /// Read a signed variable-length 64-bit integer.  Succeeds exactly when
    /// the stream starts with a complete encoding of at most ten bytes whose
    /// value fits 64 bits; a longer or larger one is malformed.
    pub fn read_i64(&mut self) -> (r: Result<i64, DecodeError>)
        requires
            old(self).wf(),
        ensures
            final(self).wf(),
            final(self).remaining().len() <= old(self).remaining().len(),
            leb_s(old(self).remaining()) is None ==> r == Err::<i64, DecodeError>(
                DecodeError::UnexpectedEof,
            ),
            leb_s(old(self).remaining()) matches Some((v, l)) ==> if -0x8000_0000_0000_0000 <= v
                < 0x8000_0000_0000_0000 && l <= 10 {
                &&& r matches Ok(x)
                &&& x as int == v
                &&& final(self).remaining() == old(self).remaining().skip(l as int)
            } else {
                r == Err::<i64, DecodeError>(DecodeError::Malformed(Malformation::VarintOverflow))
            },
    {
        proof {
            vstd::arithmetic::power2::lemma2_to64();
        }
        self.read_leb_s(64)
    }

    /// Read a signed variable-length integer and truncate it to 32 bits, as
    /// the format's 32-bit accessors do.
    pub fn read_i32(&mut self) -> (r: Result<i32, DecodeError>)
        requires
            old(self).wf(),
        ensures
            final(self).wf(),
            final(self).remaining().len() <= old(self).remaining().len(),
            leb_s(old(self).remaining()) is None ==> r == Err::<i32, DecodeError>(
                DecodeError::UnexpectedEof,
            ),
            leb_s(old(self).remaining()) matches Some((v, l)) ==> if -0x8000_0000_0000_0000 <= v
                < 0x8000_0000_0000_0000 && l <= 10 {
                &&& r == Ok::<i32, DecodeError>(v as i32)
                &&& final(self).remaining() == old(self).remaining().skip(l as int)
            } else {
                r == Err::<i32, DecodeError>(DecodeError::Malformed(Malformation::VarintOverflow))
            },
    {
        match self.read_i64() {
            Ok(x) => Ok(#[verifier::truncate] (x as i32)),
            Err(e) => Err(e),
        }
    }
}

/// `2^e` for small `e`, computed by doubling.
fn pow2_small(e: u32) -> (r: u64)
    requires
        e < 64,
    ensures
        r as nat == pow2(e as nat),
{
    proof {
        vstd::arithmetic::power2::lemma2_to64();
    }
    let mut r: u64 = 1;
    let mut i: u32 = 0;
    while i < e
        invariant
            i <= e < 64,
            r as nat == pow2(i as nat),
        decreases e - i,
    {
        proof {
            vstd::arithmetic::power2::lemma_pow2_adds(1, i as nat);
            vstd::arithmetic::power2::lemma2_to64();
            vstd::arithmetic::power2::lemma_pow2_strictly_increases(i as nat, 63);
            vstd::arithmetic::power2::lemma2_to64_rest();
        }
        r = 2 * r;
        i = i + 1;
    }
    r
}

/// With `0 <= d < 128`: `d + 128 v < 128 p` exactly when `v < p`.
proof fn lemma_mul_bound_equiv(d: int, v: int, p: int)
    requires
        0 <= d < 128,
        0 <= v,
        1 <= p,
    ensures
        (d + 128 * v < 128 * p) == (v < p),
{
    assert((d + 128 * v < 128 * p) == (v < p)) by (nonlinear_arith)
        requires
            0 <= d < 128,
            0 <= v,
            1 <= p,
    ;
}

/// With `0 <= d < 128` and `h >= 1`: the value `d + 128 v` is within
/// `[-128 h, 128 h)` when doubled exactly when `2 v` is within `[-2 h, 2 h)`.
proof fn lemma_smul_bound_equiv(d: int, v: int, h: int)
    requires
        0 <= d < 128,
        1 <= h,
    ensures
        (-(256 * h) <= 2 * (d + 128 * v) < 256 * h) == (-(2 * h) <= 2 * v < 2 * h),
{
    assert((-(256 * h) <= 2 * (d + 128 * v) < 256 * h) == (-h <= v < h)) by (nonlinear_arith)
        requires
            0 <= d < 128,
            1 <= h,
    ;
}

} // verus!
