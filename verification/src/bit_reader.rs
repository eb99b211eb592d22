//! Reading the bit fields of a Fixed item, most significant bit first.
use vstd::prelude::*;
use vstd::arithmetic::power2::*;
use crate::bitstream::{bits_value, bytes_bits, lemma_bits_value_append, lemma_bits_value_bound, lemma_bits_value_of_value_bits, lemma_bytes_bits_first, lemma_bytes_bits_len, lemma_nth_bit_u8, lemma_pow2_shl, value_bits};
use crate::error::{Error, InvalidSpec};

verus! {

/// Reads consecutive bit ranges of a Fixed item of a given length from a byte
/// slice, fetching bytes from the slice only when it needs them. Bits are
/// numbered from `8 * length` (the first, most significant bit) down to 1.
pub struct BitReader {
    buffer: u8,
    buf_pos: u32,
    out_pos: u32,
}

/// Bits `[pad, pad + d)` of a byte, counted from the low end, taken as a chunk.
proof fn lemma_take_chunk(b: u8, pad: u32, d: u32)
    requires
        1 <= d,
        pad + d <= 8,
    ensures
        ({
            let chunk = (b >> pad) & (0xffu8 >> ((8 - d) as u32));
            &&& value_bits(b as nat, 8).skip(8 - (pad + d)) =~= value_bits(chunk as nat, d as nat)
                + value_bits(b as nat, 8).skip(8 - pad)
            &&& (chunk as nat) < pow2(d as nat)
        }),
{
    let chunk = (b >> pad) & (0xffu8 >> ((8 - d) as u32));
    let l = value_bits(b as nat, 8).skip(8 - (pad + d));
    let r = value_bits(chunk as nat, d as nat) + value_bits(b as nat, 8).skip(8 - pad);
    assert forall|j: int| 0 <= j < pad + d implies l[j] == r[j] by {
        if j < d {
            let jj = j as u32;
            lemma_nth_bit_u8(b, (pad + d - 1 - jj) as u8);
            lemma_nth_bit_u8(chunk, (d - 1 - jj) as u8);
            assert(((((b >> pad) & (0xffu8 >> ((8 - d) as u32))) >> ((d - 1 - jj) as u8)) & 1u8) == ((b >> ((pad + d - 1 - jj) as u8)) & 1u8)) by (bit_vector)
                requires
                    1 <= d,
                    pad + d <= 8,
                    jj < d;
        }
    }
    assert((((b >> pad) & (0xffu8 >> ((8 - d) as u32))) as u64) < (1u64 << (d as u64))) by (bit_vector)
        requires
            1 <= d,
            pad + d <= 8;
    lemma_pow2_shl(d as u64);
}

/// Accumulating a chunk of `d` bits below the bits read so far.
proof fn lemma_accumulate(rv: u64, c: u64, m: nat, d: u32)
    requires
        1 <= d <= 8,
        m + d <= 64,
        (rv as nat) < pow2(m),
        (c as nat) < pow2(d as nat),
    ensures
        ((rv << d) | c) as nat == rv * pow2(d as nat) + c,
        (((rv << d) | c) as nat) < pow2((m + d) as nat),
{
    lemma_pow2_adds(m, d as nat);
    lemma_pow2_pos(d as nat);
    vstd::arithmetic::mul::lemma_mul_strict_inequality(rv as int, pow2(m) as int, pow2(d as nat) as int);
    assert((rv + 1) * pow2(d as nat) <= pow2(m) * pow2(d as nat)) by (nonlinear_arith)
        requires rv + 1 <= pow2(m);
    assert(rv * pow2(d as nat) + c < pow2((m + d) as nat)) by (nonlinear_arith)
        requires (rv + 1) * pow2(d as nat) <= pow2((m + d) as nat), c < pow2(d as nat);
    lemma2_to64();
    vstd::arithmetic::power2::lemma2_to64_rest();
    if m + d < 64 {
        lemma_pow2_strictly_increases((m + d) as nat, 64);
    }
    assert(rv * pow2(d as nat) <= u64::MAX);
    vstd::bits::lemma_u64_shl_is_mul(rv, d as u64);
    lemma_pow2_shl(d as u64);
    let s = rv << d;
    assert(s == rv << (d as u64));
    assert((s | c) == s + c) by (bit_vector)
        requires
            c < (1u64 << (d as u64)),
            s == rv << (d as u64),
            d <= 8;
}

impl BitReader {
    /// The reader's own invariant: fewer than eight bits are buffered.
    pub closed spec fn inv(&self) -> bool {
        self.buf_pos < 8
    }

    /// Bits still to be read in the Fixed item.
    pub closed spec fn out_pos(&self) -> nat {
        self.out_pos as nat
    }

    /// Bits fetched from the slice and not read yet.
    pub closed spec fn pending(&self) -> Seq<bool> {
        value_bits(self.buffer as nat, 8).skip(8 - self.buf_pos)
    }

    /// The bits still to be read: the pending bits, then those of `data`.
    pub open spec fn stream(&self, data: Seq<u8>) -> Seq<bool> {
        self.pending() + bytes_bits(data)
    }

    /// Fewer than eight bits are ever pending.
    pub proof fn lemma_pending_len(&self)
        requires
            self.inv(),
        ensures
            self.pending().len() < 8,
    {
    }

    /// A reader for a Fixed item of `bytes` bytes.
    pub fn new(bytes: u32) -> (r: Self)
        requires
            bytes * 8 <= u32::MAX,
        ensures
            r.inv(),
            r.out_pos() == bytes * 8,
            r.pending() == Seq::<bool>::empty(),
    {
        let r = Self { buffer: 0, buf_pos: 0, out_pos: bytes * 8 };
        assert(r.pending() =~= Seq::<bool>::empty());
        r
    }

    /// Reads bits `start` down to `end`, which must follow the bits read so
    /// far; the value is made of them, the first most significant.
    pub fn read_bits(&mut self, reader: &mut &[u8], start: u32, end: u32) -> (r: Result<u64, Error>)
        requires
            old(self).inv(),
            start == old(self).out_pos() ==> {
                &&& end <= start
                &&& start - end < 64
                &&& end == 0 ==> old(self).stream(old(reader)@).len() < start + 1
            },
        ensures
            final(self).inv(),
            final(reader)@ =~= old(reader)@.skip(old(reader)@.len() - final(reader)@.len()),
            final(reader)@.len() <= old(reader)@.len(),
            start != old(self).out_pos() ==> (r matches Err(Error::InvalidSpec { child: InvalidSpec::NonContinousBits })
                && *final(self) == *old(self) && final(reader)@ == old(reader)@),
            start == old(self).out_pos() ==> ({
                let n = (start - end + 1) as nat;
                let s = old(self).stream(old(reader)@);
                if n <= s.len() {
                    &&& r == Ok::<u64, Error>(bits_value(s.take(n as int)) as u64)
                    &&& bits_value(s.take(n as int)) < pow2(n)
                    &&& final(self).stream(final(reader)@) =~= s.skip(n as int)
                    &&& final(self).out_pos() == old(self).out_pos() - n
                } else {
                    &&& r matches Err(Error::ReadingOob)
                    &&& final(reader)@.len() == 0
                    &&& final(self).pending().len() == 0
                }
            }),
    {
        if start != self.out_pos {
            return Err(Error::InvalidSpec { child: InvalidSpec::NonContinousBits });
        }
        let nbits = start - end + 1;
        let ghost s0 = self.stream(reader@);
        let ghost reader0 = reader@;
        let ghost out0 = self.out_pos;
        let mut rv: u64 = 0;
        let mut bits_remaining = nbits;
        proof {
            assert(s0.take(0) =~= Seq::<bool>::empty());
            assert(s0.skip(0) =~= s0);
            lemma_pow2_pos(0);
        }
        while bits_remaining > 0
            invariant
                1 <= nbits <= 64,
                bits_remaining <= nbits,
                self.buf_pos < 8,
                out0 == old(self).out_pos,
                s0 == old(self).stream(reader0),
                reader0 == old(reader)@,
                old(self).out_pos == start,
                end == 0 ==> s0.len() < start + 1,
                nbits == start - end + 1,
                rv as nat == bits_value(s0.take(nbits - bits_remaining)),
                (rv as nat) < pow2((nbits - bits_remaining) as nat),
                nbits - bits_remaining <= s0.len(),
                self.stream(reader@) =~= s0.skip(nbits - bits_remaining),
                self.out_pos == out0 - (nbits - bits_remaining),
                reader@ =~= reader0.skip(reader0.len() - reader@.len()),
                reader@.len() <= reader0.len(),
            decreases bits_remaining,
        {
            let ghost c = nbits - bits_remaining;
            if self.buf_pos == 0 {
                if reader.len() > 0 {
                    let (head, tail) = reader.split_at(1);
                    let byte = head[0];
                    proof {
                        lemma_bytes_bits_first(reader@);
                        assert(tail@ =~= reader@.skip(1));
                        assert(value_bits(byte as nat, 8).skip(0) =~= value_bits(byte as nat, 8));
                        assert(self.pending() =~= Seq::<bool>::empty());
                    }
                    *reader = tail;
                    self.buffer = byte;
                    self.buf_pos = 8;
                } else {
                    proof {
                        assert(self.pending() =~= Seq::<bool>::empty());
                        assert(bytes_bits(reader@) =~= Seq::<bool>::empty());
                    }
                    return Err(Error::ReadingOob);
                }
            }
            let delta = if self.buf_pos < bits_remaining { self.buf_pos } else { bits_remaining };
            let ghost pend = self.stream(reader@);
            proof {
                lemma_bytes_bits_len(reader@);
                assert(pend.len() == self.buf_pos + 8 * reader@.len());
                assert(s0.len() - c >= delta);
                assert(self.out_pos >= delta);
            }
            bits_remaining = bits_remaining - delta;
            self.buf_pos = self.buf_pos - delta;
            self.out_pos = self.out_pos - delta;
            let mask: u8 = 0xff >> (8 - delta);
            let right_pad = self.buf_pos;
            let chunk = (self.buffer >> right_pad) & mask;
            proof {
                lemma_take_chunk(self.buffer, right_pad, delta);
                let vb = value_bits(chunk as nat, delta as nat);
                assert(pend =~= vb + self.stream(reader@));
                assert(s0.skip(c as int) =~= vb + self.stream(reader@));
                assert(s0.take(c + delta) =~= s0.take(c as int) + vb) by {
                    assert forall|k: int| 0 <= k < c + delta implies s0.take(c + delta)[k] == (s0.take(c as int) + vb)[k] by {
                        if k >= c {
                            assert(s0.skip(c as int)[k - c] == s0[k]);
                        }
                    }
                }
                assert(s0.skip(c + delta) =~= self.stream(reader@)) by {
                    assert forall|k: int| 0 <= k < s0.len() - c - delta implies s0.skip(c + delta)[k] == self.stream(reader@)[k] by {
                        assert(s0.skip(c as int)[k + delta] == s0[k + c + delta]);
                    }
                }
                lemma_bits_value_append(s0.take(c as int), vb);
                lemma_bits_value_of_value_bits(chunk as nat, delta as nat);
                vstd::arithmetic::div_mod::lemma_small_mod(chunk as nat, pow2(delta as nat));
                lemma_accumulate(rv, chunk as u64, c as nat, delta);
            }
            rv = (rv << delta) | (chunk as u64);
        }
        proof {
            lemma_bits_value_bound(s0.take(nbits as int));
        }
        Ok(rv)
    }

    /// Succeeds when every bit of the Fixed item has been read.
    pub fn finish(self) -> (r: Result<(), Error>)
        ensures
            self.out_pos() == 0 ==> r is Ok,
            self.out_pos() != 0 ==> r matches Err(Error::InvalidSpec { child: InvalidSpec::NonContinousBits }),
    {
        if self.out_pos != 0 {
            Err(Error::InvalidSpec { child: InvalidSpec::NonContinousBits })
        } else {
            Ok(())
        }
    }
}

} // verus!
