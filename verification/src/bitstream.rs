//! A model of byte strings as streams of bits, most significant bit first,
//! and the facts about it that the bit reader and writer rest on.
use vstd::prelude::*;
use vstd::arithmetic::power2::*;
use vstd::arithmetic::div_mod::*;
use vstd::bits::*;

verus! {

/// Bit `k` of `v`, counted from the least significant bit.
pub open spec fn nth_bit(v: nat, k: nat) -> bool {
    (v / pow2(k)) % 2 == 1
}

/// The `n` lowest bits of `v`, most significant first.
pub open spec fn value_bits(v: nat, n: nat) -> Seq<bool> {
    Seq::new(n, |j: int| nth_bit(v, (n - 1 - j) as nat))
}

/// The number whose binary digits, most significant first, are `s`.
pub open spec fn bits_value(s: Seq<bool>) -> nat
    decreases s.len(),
{
    if s.len() == 0 {
        0
    } else {
        bits_value(s.drop_last()) * 2 + (if s.last() { 1nat } else { 0nat })
    }
}

/// The bits of a byte string, each byte most significant bit first.
pub open spec fn bytes_bits(d: Seq<u8>) -> Seq<bool>
    decreases d.len(),
{
    if d.len() == 0 {
        Seq::empty()
    } else {
        bytes_bits(d.drop_last()) + value_bits(d.last() as nat, 8)
    }
}

pub proof fn lemma_nth_bit_div(x: nat, d: nat, e: nat)
    ensures
        nth_bit(x / pow2(d), e) == nth_bit(x, d + e),
{
    lemma_pow2_pos(d);
    lemma_pow2_pos(e);
    lemma_div_denominator(x as int, pow2(d) as int, pow2(e) as int);
    lemma_pow2_adds(d, e);
}

pub proof fn lemma_nth_bit_mod(x: nat, d: nat, e: nat)
    requires
        e < d,
    ensures
        nth_bit(x % pow2(d), e) == nth_bit(x, e),
{
    let pe = pow2(e);
    let pr = pow2((d - e) as nat);
    lemma_pow2_pos(e);
    lemma_pow2_pos((d - e) as nat);
    lemma_pow2_adds(e, (d - e) as nat);
    assert(pow2(d) == pe * pr);
    lemma_breakdown(x as int, pe as int, pr as int);
    let q = (x / pe) % pr;
    let r = x % pe;
    assert(x % pow2(d) == pe * q + r);
    lemma_mod_pos_bound(x as int, pe as int);
    lemma_fundamental_div_mod_converse((pe * q + r) as int, pe as int, q as int, r as int);
    assert((x % pow2(d)) / pe == q);
    lemma_pow2_unfold((d - e) as nat);
    let pr1 = pow2((d - e - 1) as nat);
    assert(pr == 2 * pr1);
    lemma_pow2_pos((d - e - 1) as nat);
    lemma_mod_mod((x / pe) as int, 2, pr1 as int);
}

/// Bits of `x` split at `d`: the high part is `x / 2^d`, the low part `x % 2^d`.
pub proof fn lemma_value_bits_split(x: nat, a: nat, d: nat)
    ensures
        value_bits(x, a + d) =~= value_bits(x / pow2(d), a) + value_bits(x % pow2(d), d),
{
    let l = value_bits(x, a + d);
    let r = value_bits(x / pow2(d), a) + value_bits(x % pow2(d), d);
    assert forall|j: int| 0 <= j < a + d implies l[j] == r[j] by {
        if j < a {
            lemma_nth_bit_div(x, d, (a - 1 - j) as nat);
        } else {
            lemma_nth_bit_mod(x, d, (a + d - 1 - j) as nat);
        }
    }
}

/// The value of `n` bits of `v` is `v` modulo `2^n`.
pub proof fn lemma_bits_value_of_value_bits(v: nat, n: nat)
    ensures
        bits_value(value_bits(v, n)) == v % pow2(n),
    decreases n,
{
    if n == 0 {
        lemma2_to64();
    } else {
        let vb = value_bits(v, n);
        lemma_pow2_unfold(n);
        lemma_pow2_pos((n - 1) as nat);
        lemma2_to64();
        assert forall|j: int| 0 <= j < n - 1 implies vb.drop_last()[j] == value_bits(v / 2, (n - 1) as nat)[j] by {
            lemma_nth_bit_div(v, 1, (n - 2 - j) as nat);
        }
        assert(vb.drop_last() =~= value_bits(v / 2, (n - 1) as nat));
        lemma_bits_value_of_value_bits(v / 2, (n - 1) as nat);
        lemma2_to64();
        assert(v / pow2(0) == v);
        assert(vb.last() == nth_bit(v, 0));
        assert(vb.last() == (v % 2 == 1));
        lemma_breakdown(v as int, 2, pow2((n - 1) as nat) as int);
    }
}

/// The value of a concatenation.
pub proof fn lemma_bits_value_append(a: Seq<bool>, b: Seq<bool>)
    ensures
        bits_value(a + b) == bits_value(a) * pow2(b.len()) + bits_value(b),
    decreases b.len(),
{
    if b.len() == 0 {
        assert(a + b =~= a);
        lemma2_to64();
    } else {
        assert((a + b).drop_last() =~= a + b.drop_last());
        lemma_bits_value_append(a, b.drop_last());
        lemma_pow2_unfold(b.len());
        let av = bits_value(a) as int;
        let p1 = pow2((b.len() - 1) as nat) as int;
        let bv = bits_value(b.drop_last()) as int;
        let l: int = if b.last() { 1 } else { 0 };
        assert((av * p1 + bv) * 2 == av * (p1 * 2) + bv * 2) by (nonlinear_arith);
        assert((a + b).last() == b.last());
        assert(pow2(b.len()) == p1 * 2);
        assert(bits_value(a + b.drop_last()) == av * p1 + bv);
        assert(bits_value(a + b) == bits_value((a + b).drop_last()) * 2 + l);
        assert(bits_value(a + b) == (av * p1 + bv) * 2 + l);
        assert(bits_value(b) == bv * 2 + l);
        assert(bits_value(a + b) == av * pow2(b.len()) + bits_value(b));
    }
}

/// The value of `n` bits is below `2^n`.
pub proof fn lemma_bits_value_bound(s: Seq<bool>)
    ensures
        bits_value(s) < pow2(s.len()),
    decreases s.len(),
{
    if s.len() == 0 {
        lemma2_to64();
    } else {
        lemma_bits_value_bound(s.drop_last());
        lemma_pow2_unfold(s.len());
    }
}

pub proof fn lemma_bytes_bits_len(d: Seq<u8>)
    ensures
        bytes_bits(d).len() == 8 * d.len(),
    decreases d.len(),
{
    if d.len() > 0 {
        lemma_bytes_bits_len(d.drop_last());
    }
}

pub proof fn lemma_bytes_bits_append(a: Seq<u8>, b: Seq<u8>)
    ensures
        bytes_bits(a + b) =~= bytes_bits(a) + bytes_bits(b),
    decreases b.len(),
{
    if b.len() == 0 {
        assert(a + b =~= a);
    } else {
        assert((a + b).drop_last() =~= a + b.drop_last());
        lemma_bytes_bits_append(a, b.drop_last());
    }
}

/// The bits of a non-empty byte string start with the bits of its first byte.
pub proof fn lemma_bytes_bits_first(d: Seq<u8>)
    requires
        d.len() > 0,
    ensures
        bytes_bits(d) =~= value_bits(d[0] as nat, 8) + bytes_bits(d.skip(1)),
{
    assert(d =~= d.take(1) + d.skip(1));
    lemma_bytes_bits_append(d.take(1), d.skip(1));
    assert(d.take(1).drop_last() =~= Seq::<u8>::empty());
    assert(d.take(1).last() == d[0]);
    assert(bytes_bits(Seq::<u8>::empty()) =~= Seq::<bool>::empty());
    assert(bytes_bits(d.take(1)) =~= value_bits(d[0] as nat, 8));
}

/// The bits of a prefix are a prefix of the bits.
pub proof fn lemma_bytes_bits_take(d: Seq<u8>, k: int)
    requires
        0 <= k <= d.len(),
    ensures
        bytes_bits(d.take(k)) =~= bytes_bits(d).take(8 * k),
        bytes_bits(d.skip(k)) =~= bytes_bits(d).skip(8 * k),
{
    assert(d =~= d.take(k) + d.skip(k));
    lemma_bytes_bits_append(d.take(k), d.skip(k));
    lemma_bytes_bits_len(d.take(k));
}

/// Bit `k` of a 64-bit word, read with a shift.
pub proof fn lemma_nth_bit_u64(x: u64, k: u64)
    requires
        k < 64,
    ensures
        nth_bit(x as nat, k as nat) == ((x >> k) & 1u64 == 1u64),
{
    lemma_u64_shr_is_div(x, k);
    let y = x >> k;
    assert(y & 1u64 == y % 2) by (bit_vector);
}

/// Bit `k` of a byte, read with a shift.
pub proof fn lemma_nth_bit_u8(x: u8, k: u8)
    requires
        k < 8,
    ensures
        nth_bit(x as nat, k as nat) == ((x >> k) & 1u8 == 1u8),
{
    lemma_u8_shr_is_div(x, k);
    let y = x >> k;
    assert(y & 1u8 == y % 2) by (bit_vector);
}

/// `2^n` for `n < 64`, as a shift.
pub proof fn lemma_pow2_shl(n: u64)
    requires
        n < 64,
    ensures
        (1u64 << n) as nat == pow2(n as nat),
{
    lemma_u64_pow2_no_overflow(n as nat);
    lemma_u64_shl_is_mul(1, n);
}

/// The bytes whose bits are `s`, eight bits each, most significant first.
pub open spec fn bits_bytes(s: Seq<bool>) -> Seq<u8> {
    Seq::new(s.len() / 8, |k: int| bits_value(s.subrange(8 * k, 8 * k + 8)) as u8)
}

/// Bits of the value of bits are the bits.
pub proof fn lemma_value_bits_of_bits_value(t: Seq<bool>)
    ensures
        value_bits(bits_value(t), t.len()) =~= t,
    decreases t.len(),
{
    if t.len() > 0 {
        let p = t.drop_last();
        lemma_value_bits_of_bits_value(p);
        let v = bits_value(t);
        let last: nat = if t.last() { 1 } else { 0 };
        assert(v == bits_value(p) * 2 + last);
        lemma2_to64();
        lemma_value_bits_split(v, p.len(), 1);
        assert(v / 2 == bits_value(p)) by {
            lemma_fundamental_div_mod_converse(v as int, 2, bits_value(p) as int, last as int);
        }
        assert(v % 2 == last) by {
            lemma_fundamental_div_mod_converse(v as int, 2, bits_value(p) as int, last as int);
        }
        assert(value_bits(v % 2, 1)[0] == nth_bit(v % 2, 0));
        assert((v % 2) / pow2(0) == v % 2);
        assert(value_bits(v % 2, 1) =~= seq![t.last()]);
        assert(t =~= p + seq![t.last()]);
    }
}

pub proof fn lemma_bits_value_byte(b: u8)
    ensures
        bits_value(value_bits(b as nat, 8)) == b as nat,
{
    lemma_bits_value_of_value_bits(b as nat, 8);
    lemma2_to64();
}

/// The bits of the bytes of `s` are `s`, for whole bytes.
pub proof fn lemma_bits_bytes(s: Seq<bool>)
    requires
        s.len() % 8 == 0,
    ensures
        bytes_bits(bits_bytes(s)) =~= s,
    decreases s.len(),
{
    if s.len() > 0 {
        let n = s.len() / 8;
        let p = s.take(s.len() - 8);
        let t = s.subrange(s.len() - 8, s.len() as int);
        lemma_bits_bytes(p);
        let bb = bits_bytes(s);
        assert(bb.drop_last() =~= bits_bytes(p)) by {
            assert forall|k: int| 0 <= k < n - 1 implies bb.drop_last()[k] == bits_bytes(p)[k] by {
                assert(s.subrange(8 * k, 8 * k + 8) =~= p.subrange(8 * k, 8 * k + 8));
            }
        }
        assert(bb.last() == bits_value(t) as u8);
        lemma_bits_value_bound(t);
        lemma2_to64();
        lemma_value_bits_of_bits_value(t);
        assert(s =~= p + t);
    }
}

/// Byte strings with the same bits are the same.
pub proof fn lemma_bytes_bits_injective(a: Seq<u8>, b: Seq<u8>)
    requires
        bytes_bits(a) == bytes_bits(b),
    ensures
        a == b,
    decreases a.len(),
{
    lemma_bytes_bits_len(a);
    lemma_bytes_bits_len(b);
    if a.len() > 0 {
        let sa = bytes_bits(a);
        assert(sa == bytes_bits(a.drop_last()) + value_bits(a.last() as nat, 8));
        assert(sa == bytes_bits(b.drop_last()) + value_bits(b.last() as nat, 8));
        lemma_bytes_bits_len(a.drop_last());
        lemma_bytes_bits_len(b.drop_last());
        assert(bytes_bits(a.drop_last()) =~= sa.take(sa.len() - 8));
        assert(bytes_bits(b.drop_last()) =~= sa.take(sa.len() - 8));
        assert(value_bits(a.last() as nat, 8) =~= sa.skip(sa.len() - 8));
        assert(value_bits(b.last() as nat, 8) =~= sa.skip(sa.len() - 8));
        lemma_bytes_bits_injective(a.drop_last(), b.drop_last());
        lemma_bits_value_byte(a.last());
        lemma_bits_value_byte(b.last());
        assert(a =~= a.drop_last().push(a.last()));
        assert(b =~= b.drop_last().push(b.last()));
    } else {
        assert(a =~= b);
    }
}

/// The `n` bits that a writer appends for `v` are read back, whatever
/// follows them, as `v` modulo `2^n`.
pub proof fn lemma_bits_roundtrip(v: nat, n: nat, rest: Seq<bool>)
    ensures
        bits_value((value_bits(v, n) + rest).take(n as int)) == v % pow2(n),
{
    assert((value_bits(v, n) + rest).take(n as int) =~= value_bits(v, n));
    lemma_bits_value_of_value_bits(v, n);
}

/// The value of `n` bits from position `p` of a bit string, the first most
/// significant, is that window of the value of the whole string: a run of
/// reads from the bytes of a block gives, read after read, the windows of
/// the block's big-endian value.
pub proof fn lemma_bits_window(s: Seq<bool>, p: nat, n: nat)
    requires
        p + n <= s.len(),
    ensures
        bits_value(s.subrange(p as int, (p + n) as int))
            == (bits_value(s) / pow2((s.len() - p - n) as nat)) % pow2(n),
{
    let a = s.take(p as int);
    let m = s.subrange(p as int, (p + n) as int);
    let c = s.skip((p + n) as int);
    assert(s =~= (a + m) + c);
    lemma_bits_value_append(a + m, c);
    lemma_bits_value_append(a, m);
    lemma_bits_value_bound(c);
    lemma_bits_value_bound(m);
    lemma_pow2_pos(c.len());
    lemma_pow2_pos(n);
    assert(c.len() == s.len() - p - n);
    vstd::arithmetic::div_mod::lemma_fundamental_div_mod_converse(
        bits_value(s) as int, pow2(c.len()) as int, bits_value(a + m) as int, bits_value(c) as int);
    vstd::arithmetic::div_mod::lemma_fundamental_div_mod_converse(
        bits_value(a + m) as int, pow2(n) as int, bits_value(a) as int, bits_value(m) as int);
}

/// What a writer puts out for a field, `x` in `n` bits between whatever
/// came before and whatever comes after, a reader takes back as `x` modulo
/// `2^n`.
pub proof fn lemma_field_bits_read_back(pre: Seq<bool>, x: nat, n: nat, post: Seq<bool>)
    ensures
        bits_value((pre + value_bits(x, n) + post).subrange(pre.len() as int, (pre.len() + n) as int)) == x % pow2(n),
{
    assert((pre + value_bits(x, n) + post).subrange(pre.len() as int, (pre.len() + n) as int) =~= value_bits(x, n));
    lemma_bits_value_of_value_bits(x, n);
}

/// The bits a writer puts out for a run of fields, each a value and its
/// number of bits, one after another.
pub open spec fn fields_bits(fields: Seq<(nat, nat)>) -> Seq<bool>
    decreases fields.len(),
{
    if fields.len() == 0 {
        Seq::empty()
    } else {
        fields_bits(fields.drop_last()) + value_bits(fields.last().0, fields.last().1)
    }
}

/// The bits of a run of fields are those of its first `k` fields, then
/// those of the others.
proof fn lemma_fields_bits_split(fields: Seq<(nat, nat)>, k: int)
    requires
        0 <= k <= fields.len(),
    ensures
        fields_bits(fields) =~= fields_bits(fields.take(k)) + fields_bits(fields.skip(k)),
    decreases fields.len(),
{
    if k == fields.len() {
        assert(fields.take(k) =~= fields);
        assert(fields.skip(k) =~= Seq::<(nat, nat)>::empty());
    } else {
        lemma_fields_bits_split(fields.drop_last(), k);
        assert(fields.drop_last().take(k) =~= fields.take(k));
        assert(fields.skip(k).drop_last() =~= fields.drop_last().skip(k));
        assert(fields.skip(k).last() == fields.last());
    }
}

/// Bits written for a run of fields and read back field by field give the
/// values written: the `i`-th field's bits, where the fields before it end,
/// are its value modulo `2^n`.
pub proof fn lemma_fields_read_back(fields: Seq<(nat, nat)>, i: int)
    requires
        0 <= i < fields.len(),
    ensures
        bits_value(fields_bits(fields).subrange(
            fields_bits(fields.take(i)).len() as int,
            (fields_bits(fields.take(i)).len() + fields[i].1) as int,
        )) == fields[i].0 % pow2(fields[i].1),
{
    lemma_fields_bits_split(fields, i + 1);
    let front = fields.take(i + 1);
    assert(front.drop_last() =~= fields.take(i));
    assert(front.last() == fields[i]);
    let pre = fields_bits(fields.take(i));
    let post = fields_bits(fields.skip(i + 1));
    assert(fields_bits(fields) =~= pre + value_bits(fields[i].0, fields[i].1) + post);
    lemma_field_bits_read_back(pre, fields[i].0, fields[i].1, post);
}

} // verus!
