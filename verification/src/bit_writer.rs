//! Writing the bit fields of a Fixed item, most significant bit first.
use vstd::prelude::*;
use crate::bitstream::{bytes_bits, lemma_nth_bit_u64, lemma_nth_bit_u8, value_bits};
use crate::error::{Error, InvalidSpec};

verus! {

/// Writes consecutive bit ranges of a Fixed item of a given length into a
/// byte vector, pushing each byte as soon as it is complete. Bits are
/// numbered from `8 * length` (the first, most significant bit) down to 1.
pub struct BitWriter {
    buffer: u8,
    buf_pos: u32,
    out_pos: u32,
}

/// Or-ing a chunk of `d` bits into the free low bits of a byte.
proof fn lemma_put_chunk(b: u8, c: u64, pad: u32, d: u32)
    requires
        1 <= d,
        pad + d <= 8,
        b & (0xffu8 >> ((8 - (pad + d)) as u32)) == 0,
        c <= (0xffu64 >> ((8 - d) as u32)),
    ensures
        ({
            let b2 = b | ((c << pad) as u8);
            &&& value_bits(b2 as nat, 8).take(8 - pad) =~= value_bits(b as nat, 8).take(8 - (pad + d))
                + value_bits(c as nat, d as nat)
            &&& pad >= 1 ==> b2 & (0xffu8 >> ((8 - pad) as u32)) == 0
        }),
{
    let c8 = c as u8;
    assert(((c << pad) as u8) == (c8 << pad)) by (bit_vector)
        requires
            1 <= d,
            pad + d <= 8,
            c <= (0xffu64 >> ((8 - d) as u32)),
            c8 == c as u8;
    let b2 = b | (c8 << pad);
    let l = value_bits(b2 as nat, 8).take(8 - pad);
    let r = value_bits(b as nat, 8).take(8 - (pad + d)) + value_bits(c as nat, d as nat);
    assert forall|j: int| 0 <= j < 8 - pad implies l[j] == r[j] by {
        let jj = j as u32;
        if j < 8 - (pad + d) {
            lemma_nth_bit_u8(b2, (7 - jj) as u8);
            lemma_nth_bit_u8(b, (7 - jj) as u8);
            assert(((b | (c8 << pad)) >> ((7 - jj) as u8)) & 1u8 == (b >> ((7 - jj) as u8)) & 1u8) by (bit_vector)
                requires
                    1 <= d,
                    pad + d <= 8,
                    jj < 8 - (pad + d),
                    c <= (0xffu64 >> ((8 - d) as u32)),
                    c8 == c as u8;
        } else {
            let k = (jj - (8 - (pad + d))) as u32;
            lemma_nth_bit_u8(b2, (pad + d - 1 - k) as u8);
            lemma_nth_bit_u8(c8, (d - 1 - k) as u8);
            assert(c as nat == c8 as nat) by (bit_vector)
                requires
                    1 <= d <= 8,
                    c <= (0xffu64 >> ((8 - d) as u32)),
                    c8 == c as u8;
            assert(((b | (c8 << pad)) >> ((pad + d - 1 - k) as u8)) & 1u8 == (c8 >> ((d - 1 - k) as u8)) & 1u8) by (bit_vector)
                requires
                    1 <= d,
                    pad + d <= 8,
                    k < d,
                    b & (0xffu8 >> ((8 - (pad + d)) as u32)) == 0,
                    c <= (0xffu64 >> ((8 - d) as u32)),
                    c8 == c as u8;
        }
    }
    if pad >= 1 {
        assert((b | (c8 << pad)) & (0xffu8 >> ((8 - pad) as u32)) == 0) by (bit_vector)
            requires
                1 <= d,
                1 <= pad,
                pad + d <= 8,
                b & (0xffu8 >> ((8 - (pad + d)) as u32)) == 0;
    }
}

proof fn lemma_shr_shr(z: u64, p: u64, q: u64)
    requires
        p + q < 64,
    ensures
        (z >> p) >> q == z >> ((p + q) as u64),
{
    let y = z >> p;
    vstd::bits::lemma_u64_shr_is_div(z, p);
    vstd::bits::lemma_u64_shr_is_div(y, q);
    vstd::bits::lemma_u64_shr_is_div(z, (p + q) as u64);
    vstd::arithmetic::power2::lemma_pow2_pos(p as nat);
    vstd::arithmetic::power2::lemma_pow2_pos(q as nat);
    vstd::arithmetic::div_mod::lemma_div_denominator(z as int, vstd::arithmetic::power2::pow2(p as nat) as int, vstd::arithmetic::power2::pow2(q as nat) as int);
    vstd::arithmetic::power2::lemma_pow2_adds(p as nat, q as nat);
}

/// The bits of `bits` from `rem + d` down grow by the next `d` bits.
proof fn lemma_next_bits(bits: u64, nbits: u32, rem: u32, d: u32)
    requires
        1 <= d <= 8,
        rem + d <= nbits <= 64,
    ensures
        value_bits((bits >> rem) as nat, (nbits - rem) as nat) =~= value_bits((bits >> ((rem + d) as u32)) as nat, (nbits - rem - d) as nat)
            + value_bits(((bits >> rem) & (0xffu64 >> ((8 - d) as u32))) as nat, d as nat),
{
    let a = (nbits - rem - d) as u32;
    let x = bits >> rem;
    let c = x & (0xffu64 >> ((8 - d) as u32));
    let l = value_bits(x as nat, (nbits - rem) as nat);
    let r = value_bits((bits >> ((rem + d) as u32)) as nat, a as nat) + value_bits(c as nat, d as nat);
    assert forall|j: int| 0 <= j < nbits - rem implies l[j] == r[j] by {
        let jj = j as u32;
        lemma_nth_bit_u64(x, (a + d - 1 - jj) as u64);
        if j < a {
            let y = bits >> ((rem + d) as u32);
            lemma_nth_bit_u64(y, (a - 1 - jj) as u64);
            lemma_shr_shr(bits, rem as u64, (a + d - 1 - jj) as u64);
            lemma_shr_shr(bits, (rem + d) as u64, (a - 1 - jj) as u64);
            assert(x == bits >> (rem as u64));
            assert(y == bits >> ((rem + d) as u64));
        } else {
            let k = (jj - a) as u32;
            lemma_nth_bit_u64(c, (d - 1 - k) as u64);
            assert((x >> ((a + d - 1 - jj) as u64)) & 1u64 == (c >> ((d - 1 - k) as u64)) & 1u64) by (bit_vector)
                requires
                    c == x & (0xffu64 >> ((8 - d) as u32)),
                    1 <= d <= 8,
                    k < d,
                    jj == a + k;
        }
    }
}

impl BitWriter {
    /// The writer's own invariant: one to eight bits of the buffer are free,
    /// and they are zero.
    pub closed spec fn inv(&self) -> bool {
        &&& 1 <= self.buf_pos <= 8
        &&& self.buffer & (0xffu8 >> ((8 - self.buf_pos) as u32)) == 0
    }

    /// Bits still to be written in the Fixed item.
    pub closed spec fn out_pos(&self) -> nat {
        self.out_pos as nat
    }

    /// Bits written but not pushed yet.
    pub closed spec fn pending(&self) -> Seq<bool> {
        value_bits(self.buffer as nat, 8).take(8 - self.buf_pos)
    }

    /// All bits written: those pushed to `data`, then the pending ones.
    pub open spec fn stream(&self, data: Seq<u8>) -> Seq<bool> {
        bytes_bits(data) + self.pending()
    }

    /// At most seven bits wait for their byte.
    pub proof fn lemma_pending_len(&self)
        requires
            self.inv(),
        ensures
            self.pending().len() < 8,
    {
    }

    /// A writer for a Fixed item of `bytes` bytes.
    pub fn new(bytes: u32) -> (r: Self)
        requires
            bytes * 8 <= u32::MAX,
        ensures
            r.inv(),
            r.out_pos() == bytes * 8,
            r.pending() == Seq::<bool>::empty(),
    {
        let r = Self { buffer: 0, buf_pos: 8, out_pos: bytes * 8 };
        assert(0u8 & (0xffu8 >> 0u32) == 0) by (bit_vector);
        assert(r.pending() =~= Seq::<bool>::empty());
        r
    }

    /// Writes the low `range.0 - range.1 + 1` bits of `bits`, as bits
    /// `range.0` down to `range.1`, which must follow the bits written so far.
    pub fn write_bits(&mut self, writer: &mut Vec<u8>, range: (u32, u32), bits: u64) -> (r: Result<(), Error>)
        requires
            old(self).inv(),
            range.0 == old(self).out_pos() ==> 1 <= range.1 <= range.0 && range.0 - range.1 < 64,
        ensures
            final(self).inv(),
            final(writer)@.take(old(writer)@.len() as int) =~= old(writer)@,
            final(writer)@.len() >= old(writer)@.len(),
            range.0 != old(self).out_pos() ==> (r matches Err(Error::InvalidSpec { child: InvalidSpec::NonContinousBits })
                && *final(self) == *old(self) && final(writer)@ == old(writer)@),
            range.0 == old(self).out_pos() ==> {
                &&& r is Ok
                &&& final(self).stream(final(writer)@) =~= old(self).stream(old(writer)@)
                    + value_bits(bits as nat, (range.0 - range.1 + 1) as nat)
                &&& final(self).out_pos() == old(self).out_pos() - (range.0 - range.1 + 1)
            },
    {
        let (start, end) = range;
        if start != self.out_pos {
            return Err(Error::InvalidSpec { child: InvalidSpec::NonContinousBits });
        }
        let nbits = start - end + 1;
        let ghost s0 = self.stream(writer@);
        let ghost w0 = writer@;
        let ghost out0 = self.out_pos;
        let mut bits_remaining = nbits;
        proof {
            assert(value_bits((bits >> nbits) as nat, 0) =~= Seq::<bool>::empty());
            assert(s0 + Seq::<bool>::empty() =~= s0);
        }
        while bits_remaining > 0
            invariant
                1 <= nbits <= 64,
                nbits == start - end + 1,
                1 <= end,
                bits_remaining <= nbits,
                1 <= self.buf_pos <= 8,
                self.buffer & (0xffu8 >> ((8 - self.buf_pos) as u32)) == 0,
                s0 == old(self).stream(w0),
                w0 == old(writer)@,
                out0 == old(self).out_pos,
                out0 == start,
                self.stream(writer@) =~= s0 + value_bits((bits >> bits_remaining) as nat, (nbits - bits_remaining) as nat),
                self.out_pos == out0 - (nbits - bits_remaining),
                writer@.take(w0.len() as int) =~= w0,
                writer@.len() >= w0.len(),
            decreases bits_remaining,
        {
            let delta = if self.buf_pos < bits_remaining { self.buf_pos } else { bits_remaining };
            let ghost old_rem = bits_remaining;
            let ghost old_buffer = self.buffer;
            let ghost old_bp = self.buf_pos;
            bits_remaining = bits_remaining - delta;
            self.buf_pos = self.buf_pos - delta;
            self.out_pos = self.out_pos - delta;
            let mask: u64 = 0xff >> (8 - delta);
            let right_pad = self.buf_pos;
            let chunk = (bits >> bits_remaining) & mask;
            proof {
                assert(chunk <= (0xffu64 >> ((8 - delta) as u32))) by (bit_vector)
                    requires chunk == (bits >> bits_remaining) & mask, mask == 0xffu64 >> ((8 - delta) as u32);
                lemma_put_chunk(old_buffer, chunk, right_pad, delta);
                lemma_next_bits(bits, nbits, bits_remaining, delta);
            }
            self.buffer = self.buffer | ((chunk << right_pad) as u8);
            proof {
                let vc = value_bits(chunk as nat, delta as nat);
                assert(self.pending() =~= value_bits(old_buffer as nat, 8).take(8 - old_bp) + vc);
                assert(s0 + value_bits((bits >> bits_remaining) as nat, (nbits - bits_remaining) as nat)
                    =~= s0 + value_bits((bits >> old_rem) as nat, (nbits - old_rem) as nat) + vc);
            }
            if self.buf_pos == 0 {
                let ghost full = self.buffer;
                let ghost prev = writer@;
                writer.push(self.buffer);
                self.buffer = 0;
                self.buf_pos = 8;
                proof {
                    assert(value_bits(full as nat, 8).take(8) =~= value_bits(full as nat, 8));
                    assert(writer@.drop_last() =~= prev);
                    assert(bytes_bits(writer@) =~= bytes_bits(prev) + value_bits(full as nat, 8));
                    assert(self.pending() =~= Seq::<bool>::empty());
                    assert(0u8 & (0xffu8 >> 0u32) == 0) by (bit_vector);
                    assert(writer@.drop_last().take(w0.len() as int) =~= w0);
                }
            }
        }
        proof {
            assert(bits >> 0u32 == bits) by (bit_vector);
        }
        Ok(())
    }

    /// Succeeds when every bit of the Fixed item has been written.
    pub fn finish(self) -> (r: Result<(), Error>)
        ensures
            self.out_pos() == 0 ==> r is Ok,
            self.out_pos() != 0 ==> r matches Err(Error::InvalidSpec { child: InvalidSpec::NonContinousBits }),
    {
        if self.out_pos != 0 {
            Err(Error::InvalidSpec { child: InvalidSpec::NonContinousBits })
        } else {
            Ok(())
        }
    }
}

} // verus!
