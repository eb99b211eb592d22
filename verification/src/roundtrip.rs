//! What reading gives back of what writing wrote.
use vstd::prelude::*;
use vstd::arithmetic::power2::pow2;
use crate::bitstream::{bits_bytes, bits_value, bytes_bits, lemma_bits_bytes, lemma_bits_value_of_value_bits, lemma_bytes_bits_append, lemma_bytes_bits_len, value_bits};
use crate::fields::{bits_range, decode_value, field_encode, field_value, int_value, is_spare_name, is_uint};
use crate::read_asterix::{fixed_loop, items_merge, rep_loop, spec_read_field, spec_read_fixed, var_parts, var_repeat};
use crate::spec_xml::{unit_scale, Bits, Encode, Fixed, Format};
use crate::value::{lemma_obj_get_insert, obj_extend, obj_get, obj_insert, Number, ObjectV, Quantity, ValueV};
use crate::write_asterix::{scaled_raw, field_or_zero, fixed_write_loop, formats_write, last_used_part, rep_write, spec_write_field, spec_write_fixed, value_i64, var_parts_write, var_repeat_write};

verus! {

/// The number of bits of a field, zero for a field with no valid range.
pub open spec fn field_len(b: Bits) -> nat {
    match bits_range(b) {
        Ok((from, to)) => (from - to + 1) as nat,
        Err(_) => 0,
    }
}

/// A field that holds an integer, spare bits or the FX bit: a valid range
/// and the unsigned, hexadecimal or two's complement encoding. It may have
/// a unit, which makes it hold the quotient of a value by the unit's scale,
/// and a condition.
pub open spec fn plain_field(b: Bits) -> bool {
    &&& bits_range(b) is Ok
    &&& (field_encode(b) == Encode::Unsigned || field_encode(b) == Encode::Hex || field_encode(b) == Encode::Signed)
}

/// The integer that writing takes from `v` for the field `b`: the quotient
/// by the scale of its unit, if it has one, else the integer itself.
pub open spec fn field_int(v: ValueV, b: Bits) -> Option<i64> {
    match b.unit {
        Some(u) => scaled_raw(v, unit_scale(u)),
        None => value_i64(v),
    }
}

/// What reading gives for a field holding `x`: a quantity of the unit's
/// scale for a field with a unit, else the integer.
pub open spec fn read_value(b: Bits, x: i64) -> ValueV {
    match b.unit {
        Some(u) => ValueV::Quantity(Quantity { raw: x, scale: unit_scale(u) }),
        None => int_value(x),
    }
}

/// Whether `o` gives a field a value that its `n` bits can hold (zero
/// where absent): an integer from `-2^(n-1)` below `2^(n-1)` for a two's
/// complement field, else a non-negative one below `2^n`.
pub open spec fn fits_field(o: ObjectV, b: Bits) -> bool {
    b.fx == Some(1u64) || is_spare_name(b.short_name@) || match field_int(field_or_zero(o, b.short_name@), b) {
        Some(x) => if field_encode(b) == Encode::Signed {
            -pow2((field_len(b) - 1) as nat) <= x && x < pow2((field_len(b) - 1) as nat)
        } else {
            0 <= x && x < pow2(field_len(b))
        },
        None => false,
    }
}

/// A field read into a key of its own: neither spare nor the FX bit.
pub open spec fn keyed_field(b: Bits) -> bool {
    b.fx != Some(1u64) && !is_spare_name(b.short_name@)
}

/// What reading gives back for a keyed field written from `o`.
pub open spec fn written_value(o: ObjectV, b: Bits) -> ValueV {
    read_value(b, field_int(field_or_zero(o, b.short_name@), b).unwrap())
}

/// Whether writing from `o` skips the field `b` for its condition.
pub open spec fn cond_skips(b: Bits, o: ObjectV) -> bool {
    b.condition is Some && !is_uint(obj_get(o, b.condition.unwrap().key@), b.condition.unwrap().val as u64)
}

/// The conditions of a Fixed item's fields are decided alike in writing
/// and reading: keyed fields have distinct names, and the key of each
/// condition names an earlier keyed field with no condition whose value
/// read back meets the condition exactly when its value in `o` does.
#[verifier::opaque]
pub open spec fn conditions_fit(bits: Seq<Bits>, o: ObjectV) -> bool {
    &&& forall|j1: int, j2: int| 0 <= j1 < j2 < bits.len() && keyed_field(#[trigger] bits[j1]) && keyed_field(#[trigger] bits[j2])
        ==> bits[j1].short_name@ != bits[j2].short_name@
    &&& forall|j: int| 0 <= j < bits.len() && (#[trigger] bits[j]).condition is Some ==> exists|k: int| {
        &&& 0 <= k < j
        &&& keyed_field(#[trigger] bits[k])
        &&& bits[k].condition is None
        &&& bits[k].short_name@ == bits[j].condition.unwrap().key@
        &&& is_uint(Some(written_value(o, bits[k])), bits[j].condition.unwrap().val as u64)
            == is_uint(obj_get(o, bits[k].short_name@), bits[j].condition.unwrap().val as u64)
    }
}

/// The object read back from the plain fields from the `i`-th on, written
/// from `o`: each keyed field that writing does not skip for its condition,
/// with what reading gives for the integer `o` gives it.
pub open spec fn plain_read(bits: Seq<Bits>, i: nat, o: ObjectV, acc: ObjectV) -> ObjectV
    decreases bits.len() - i,
{
    if i >= bits.len() {
        acc
    } else {
        let b = bits[i as int];
        if cond_skips(b, o) || !keyed_field(b) {
            plain_read(bits, i + 1, o, acc)
        } else {
            plain_read(bits, i + 1, o, obj_insert(acc, b.short_name@, written_value(o, b)))
        }
    }
}

/// The low `len` bits of a two's complement number that fits them, sign
/// extended, give the number back.
proof fn lemma_sign_extend(x: i64, len: u32)
    requires
        1 <= len <= 64,
        -pow2((len - 1) as nat) <= x < pow2((len - 1) as nat),
    ensures
        ({
            let v = (((x as u64) as nat) % pow2(len as nat)) as u64;
            let p = (64 - len) as u32;
            (((((v as i64) << p) >> p) as u64) as i64) == x
        }),
{
    let u = x as u64;
    if len == 64 {
        vstd::arithmetic::power2::lemma2_to64();
        vstd::arithmetic::div_mod::lemma_small_mod(u as nat, pow2(64));
        assert((((((x as u64) as i64) << 0u32) >> 0u32) as u64) as i64 == x) by (bit_vector);
    } else {
        let k = (len - 1) as u64;
        crate::bitstream::lemma_pow2_shl(len as u64);
        crate::bitstream::lemma_pow2_shl(k);
        assert(((1u64 << k) as i64) as int == (1u64 << k) as int) by (bit_vector)
            requires
                k < 63;
        let b = (1u64 << k) as i64;
        assert(-b <= x < b);
        vstd::arithmetic::power2::lemma_pow2_pos(len as nat);
        assert((1u64 << (len as u64)) as nat == pow2(len as nat));
        let m: u64 = ((1u64 << (len as u64)) - 1) as u64;
        assert(m as int == pow2(len as nat) - 1);
        assert(m + 1 == (1u64 << (len as u64)));
        vstd::bits::lemma_u64_low_bits_mask_is_mod(u, len as nat);
        assert(vstd::bits::low_bits_mask(len as nat) as u64 == m);
        assert((((u as nat) % pow2(len as nat)) as u64) == u & m);
        assert((((((u & m) as i64) << ((64 - len) as u32)) >> ((64 - len) as u32)) as u64) as i64 == x) by (bit_vector)
            requires
                1 <= len < 64,
                k == len - 1,
                u == x as u64,
                m + 1 == (1u64 << (len as u64)),
                b == (1u64 << k) as i64,
                -b <= x,
                x < b;
    }
}

/// A plain field whose bits hold the low bits of `xi` reads back as `xi`.
proof fn lemma_field_read_back(b: Bits, xi: i64, length: nat, value: u64)
    requires
        plain_field(b),
        1 <= length <= 64,
        field_encode(b) == Encode::Signed ==> -pow2((length - 1) as nat) <= xi < pow2((length - 1) as nat),
        field_encode(b) != Encode::Signed ==> 0 <= xi < pow2(length),
        value == (((xi as u64) as nat) % pow2(length)) as u64,
    ensures
        field_value(decode_value(value, length as u32, field_encode(b)), b.unit, field_encode(b)) == read_value(b, xi),
{
    let enc = field_encode(b);
    if enc == Encode::Signed {
        lemma_sign_extend(xi, length as u32);
    } else {
        vstd::arithmetic::div_mod::lemma_small_mod((xi as u64) as nat, pow2(length));
        assert(value == xi as u64);
        assert(value as i64 == xi);
    }
}

/// The bits written by the loop extend those it started from.
#[verifier::spinoff_prover]
proof fn lemma_write_loop_extends(bits: Seq<Bits>, i: nat, o: ObjectV, fx: Option<bool>, total: nat, out: Seq<bool>, used: bool)
    requires
        fixed_write_loop(bits, i, o, fx, total, out, used) is Ok,
    ensures
        ({
            let of = fixed_write_loop(bits, i, o, fx, total, out, used)->Ok_0.0;
            of.len() >= out.len() && of.take(out.len() as int) == out
        }),
    decreases bits.len() - i,
{
    if i < bits.len() {
        let b = bits[i as int];
        let avail = (total - out.len()) as nat;
        let enc = field_encode(b);
        match bits_range(b) {
            Err(_) => {},
            Ok((from, to)) => {
                if from - to + 1 <= u32::MAX {
                    if b.condition is Some && !crate::fields::is_uint(crate::value::obj_get(o, b.condition.unwrap().key@), b.condition.unwrap().val as u64) {
                        lemma_write_loop_extends(bits, i + 1, o, fx, total, out, used);
                    } else if b.fx == Some(1u64) {
                        if !used && fx is Some {
                            let w = crate::write_asterix::put_bits(from, to, avail, enc, if fx.unwrap() { 1u64 } else { 0u64 })->Ok_0;
                            lemma_write_loop_extends(bits, i + 1, o, fx, total, out + w, true);
                            assert((out + w).take(out.len() as int) =~= out);
                        }
                    } else if is_spare_name(b.short_name@) {
                        let w = crate::write_asterix::put_bits(from, to, avail, enc, 0)->Ok_0;
                        lemma_write_loop_extends(bits, i + 1, o, fx, total, out + w, used);
                        assert((out + w).take(out.len() as int) =~= out);
                    } else {
                        let v = field_or_zero(o, b.short_name@);
                        if enc == Encode::Ascii {
                            let w = crate::write_asterix::ascii_bits(v, b.short_name@, from, to, avail)->Ok_0;
                            lemma_write_loop_extends(bits, i + 1, o, fx, total, out + w, used);
                            assert((out + w).take(out.len() as int) =~= out);
                        } else {
                            let x = crate::write_asterix::field_number(v, b, (from - to + 1) as u32)->Ok_0;
                            let w = crate::write_asterix::put_bits(from, to, avail, enc, x)->Ok_0;
                            lemma_write_loop_extends(bits, i + 1, o, fx, total, out + w, used);
                            assert((out + w).take(out.len() as int) =~= out);
                        }
                    }
                }
            },
        }
        let of = fixed_write_loop(bits, i, o, fx, total, out, used)->Ok_0.0;
        assert(of.len() >= out.len() && of.take(out.len() as int) == out);
    }
}

/// The keyed fields before the `i`-th that have no condition are read as
/// written into `acc`.
#[verifier::opaque]
pub open spec fn read_so_far(bits: Seq<Bits>, i: nat, o: ObjectV, acc: ObjectV) -> bool {
    forall|k: int| 0 <= k < i && keyed_field(#[trigger] bits[k]) && bits[k].condition is None
        ==> obj_get(acc, bits[k].short_name@) == Some(written_value(o, bits[k]))
}

/// Reading decides the condition of the `i`-th field as writing did.
proof fn lemma_cond_agrees(bits: Seq<Bits>, i: nat, o: ObjectV, acc: ObjectV)
    requires
        i < bits.len(),
        conditions_fit(bits, o),
        read_so_far(bits, i, o, acc),
        bits[i as int].condition is Some,
    ensures
        is_uint(obj_get(acc, bits[i as int].condition.unwrap().key@), bits[i as int].condition.unwrap().val as u64)
            == is_uint(obj_get(o, bits[i as int].condition.unwrap().key@), bits[i as int].condition.unwrap().val as u64),
{
    reveal(conditions_fit);
    reveal(read_so_far);
    let c = bits[i as int].condition.unwrap();
    assert(bits[i as int].condition is Some);
    let k = choose|k: int| {
        &&& 0 <= k < i
        &&& keyed_field(#[trigger] bits[k])
        &&& bits[k].condition is None
        &&& bits[k].short_name@ == c.key@
        &&& is_uint(Some(written_value(o, bits[k])), c.val as u64) == is_uint(obj_get(o, bits[k].short_name@), c.val as u64)
    };
    assert(obj_get(acc, bits[k].short_name@) == Some(written_value(o, bits[k])));
}

/// The value writing puts in the bits of a field it does not skip.
pub open spec fn put_value(b: Bits, o: ObjectV, fx: Option<bool>) -> u64 {
    if b.fx == Some(1u64) {
        if fx is Some && fx->Some_0 { 1 } else { 0 }
    } else if is_spare_name(b.short_name@) {
        0
    } else {
        field_int(field_or_zero(o, b.short_name@), b).unwrap() as u64
    }
}

/// The object read after the `i`-th field, which writing does not skip.
pub open spec fn read_step(bits: Seq<Bits>, i: nat, o: ObjectV, acc: ObjectV) -> ObjectV {
    if keyed_field(bits[i as int]) {
        obj_insert(acc, bits[i as int].short_name@, written_value(o, bits[i as int]))
    } else {
        acc
    }
}

/// Bits that extend `out` by `w`, read from a stream that extends them,
/// give `w` back where `out` ends.
proof fn lemma_window(of: Seq<bool>, s: Seq<bool>, out: Seq<bool>, w: Seq<bool>)
    requires
        of.len() >= (out + w).len(),
        of.take((out + w).len() as int) == out + w,
        s.len() >= of.len(),
        s.take(of.len() as int) == of,
    ensures
        out.len() + w.len() <= s.len(),
        s.subrange(out.len() as int, (out.len() + w.len()) as int) == w,
{
    assert forall|k: int| 0 <= k < w.len() implies s.subrange(out.len() as int, (out.len() + w.len()) as int)[k] == w[k] by {
        let j = out.len() + k;
        assert(j < (out + w).len() && j < of.len());
        assert(s.take(of.len() as int)[j] == s[j]);
        assert(s[j] == of[j]);
        assert(of.take((out + w).len() as int)[j] == of[j]);
        assert(of[j] == (out + w)[j]);
        assert((out + w)[j] == w[k]);
    }
    assert(s.subrange(out.len() as int, (out.len() + w.len()) as int) =~= w);
}

/// Writing one field that writing does not skip.
#[verifier::spinoff_prover]
proof fn lemma_step_write(bits: Seq<Bits>, i: nat, o: ObjectV, fx: Option<bool>, total: nat, out: Seq<bool>, used: bool)
    requires
        i < bits.len(),
        plain_field(bits[i as int]),
        fits_field(o, bits[i as int]),
        !cond_skips(bits[i as int], o),
        fixed_write_loop(bits, i, o, fx, total, out, used) is Ok,
        out.len() <= total,
    ensures
        ({
            let b = bits[i as int];
            let (from, to) = bits_range(b)->Ok_0;
            &&& 1 <= to <= from
            &&& from - to + 1 <= 64
            &&& from == total - out.len()
            &&& field_len(b) == from - to + 1
            &&& b.fx == Some(1u64) ==> !used && fx is Some
            &&& fixed_write_loop(bits, i, o, fx, total, out, used) == fixed_write_loop(bits, i + 1, o, fx, total,
                out + value_bits(put_value(b, o, fx) as nat, field_len(b)), used || b.fx == Some(1u64))
        }),
{
    let b = bits[i as int];
    let (from, to) = bits_range(b)->Ok_0;
    let length = (from - to + 1) as nat;
    let avail = (total - out.len()) as nat;
    let enc = field_encode(b);
    let x: u64 = put_value(b, o, fx);
    if b.fx != Some(1u64) && !is_spare_name(b.short_name@) {
        assert(crate::write_asterix::field_number(field_or_zero(o, b.short_name@), b, length as u32) == Ok::<u64, crate::error::ErrorV>(x));
    }
    let w = crate::write_asterix::put_bits(from, to, avail, enc, x);
    assert(w is Ok);
    assert(w == Ok::<Seq<bool>, crate::error::Fail>(value_bits(x as nat, length)));
    assert(from == avail && to != 0 && length <= 64);
    if b.fx == Some(1u64) {
        assert(!used && fx is Some);
    }
}

/// Reading one field that writing did not skip, whose bits hold what
/// writing put there.
#[verifier::spinoff_prover]
proof fn lemma_step_read(bits: Seq<Bits>, i: nat, o: ObjectV, fx: Option<bool>, used: bool, total: nat, out: Seq<bool>,
    s: Seq<bool>, acc: ObjectV, rfx: Option<bool>)
    requires
        i < bits.len(),
        plain_field(bits[i as int]),
        fits_field(o, bits[i as int]),
        conditions_fit(bits, o),
        read_so_far(bits, i, o, acc),
        !cond_skips(bits[i as int], o),
        ({
            let (from, to) = bits_range(bits[i as int])->Ok_0;
            &&& 1 <= to <= from
            &&& from - to + 1 <= 64
            &&& from == total - out.len()
            &&& field_len(bits[i as int]) == from - to + 1
        }),
        bits[i as int].fx == Some(1u64) ==> !used && fx is Some,
        out.len() + field_len(bits[i as int]) <= s.len(),
        s.subrange(out.len() as int, (out.len() + field_len(bits[i as int])) as int)
            == value_bits(put_value(bits[i as int], o, fx) as nat, field_len(bits[i as int])),
        rfx == (if used { fx } else { None }),
    ensures
        ({
            let b = bits[i as int];
            let used2 = used || b.fx == Some(1u64);
            &&& fixed_loop(bits, i, s, total, out.len(), acc, rfx)
                == fixed_loop(bits, i + 1, s, total, out.len() + field_len(b), read_step(bits, i, o, acc), if used2 { fx } else { None })
            &&& read_so_far(bits, i + 1, o, read_step(bits, i, o, acc))
        }),
{
    let b = bits[i as int];
    if b.condition is Some {
        lemma_cond_agrees(bits, i, o, acc);
    }
    reveal(conditions_fit);
    let length = field_len(b);
    let x: u64 = put_value(b, o, fx);
    lemma_bits_value_of_value_bits(x as nat, length);
    vstd::arithmetic::power2::lemma_pow2_pos(length);
    let value = bits_value(s.subrange(out.len() as int, (out.len() + length) as int)) as u64;
    assert(value == ((x as nat) % pow2(length)) as u64);
    if b.fx == Some(1u64) {
        vstd::arithmetic::power2::lemma_pow2_unfold(length);
        vstd::arithmetic::power2::lemma_pow2_pos((length - 1) as nat);
        vstd::arithmetic::div_mod::lemma_small_mod(x as nat, pow2(length));
        assert((value != 0) == fx->Some_0);
    } else if !is_spare_name(b.short_name@) {
        let xi = field_int(field_or_zero(o, b.short_name@), b).unwrap();
        assert(x == xi as u64);
        lemma_field_read_back(b, xi, length, value);
    }
    let acc2 = read_step(bits, i, o, acc);
    reveal(read_so_far);
    assert forall|k: int| 0 <= k < i + 1 && keyed_field(#[trigger] bits[k]) && bits[k].condition is None
        implies obj_get(acc2, bits[k].short_name@) == Some(written_value(o, bits[k])) by {
        if keyed_field(b) {
            lemma_obj_get_insert(acc, b.short_name@, written_value(o, b), bits[k].short_name@);
        }
    }
}

/// One field that writing does not skip, written and read.
proof fn lemma_plain_step(bits: Seq<Bits>, i: nat, o: ObjectV, fx: Option<bool>, used: bool, total: nat, out: Seq<bool>,
    s: Seq<bool>, acc: ObjectV, rfx: Option<bool>)
    requires
        i < bits.len(),
        plain_field(bits[i as int]),
        fits_field(o, bits[i as int]),
        conditions_fit(bits, o),
        read_so_far(bits, i, o, acc),
        !cond_skips(bits[i as int], o),
        fixed_write_loop(bits, i, o, fx, total, out, used) is Ok,
        out.len() <= total,
        ({
            let of = fixed_write_loop(bits, i, o, fx, total, out, used)->Ok_0.0;
            s.len() >= of.len() && s.take(of.len() as int) == of
        }),
        rfx == (if used { fx } else { None }),
        used ==> fx is Some,
    ensures
        ({
            let b = bits[i as int];
            let out2 = out + value_bits(put_value(b, o, fx) as nat, field_len(b));
            let used2 = used || b.fx == Some(1u64);
            let acc2 = read_step(bits, i, o, acc);
            &&& out2.len() <= total
            &&& !used2 || fx is Some
            &&& fixed_write_loop(bits, i, o, fx, total, out, used) == fixed_write_loop(bits, i + 1, o, fx, total, out2, used2)
            &&& fixed_loop(bits, i, s, total, out.len(), acc, rfx)
                == fixed_loop(bits, i + 1, s, total, out2.len(), acc2, if used2 { fx } else { None })
            &&& read_so_far(bits, i + 1, o, acc2)
        }),
{
    let b = bits[i as int];
    let of = fixed_write_loop(bits, i, o, fx, total, out, used)->Ok_0.0;
    lemma_step_write(bits, i, o, fx, total, out, used);
    let length = field_len(b);
    let w = value_bits(put_value(b, o, fx) as nat, length);
    let out2 = out + w;
    let used2 = used || b.fx == Some(1u64);
    lemma_write_loop_extends(bits, i + 1, o, fx, total, out2, used2);
    lemma_window(of, s, out, w);
    lemma_step_read(bits, i, o, fx, used, total, out, s, acc, rfx);
}

/// Reading plain fields in step with the writing of them; `fx` is the FX
/// bit written, `used` tells whether it was, and `rfx` is what was read of it.
#[verifier::spinoff_prover]
proof fn lemma_plain_loop(bits: Seq<Bits>, i: nat, o: ObjectV, fx: Option<bool>, used: bool, total: nat, out: Seq<bool>,
    s: Seq<bool>, acc: ObjectV, rfx: Option<bool>)
    requires
        forall|j: int| i <= j < bits.len() ==> plain_field(#[trigger] bits[j]) && fits_field(o, bits[j]),
        conditions_fit(bits, o),
        read_so_far(bits, i, o, acc),
        fixed_write_loop(bits, i, o, fx, total, out, used) is Ok,
        out.len() <= total,
        ({
            let of = fixed_write_loop(bits, i, o, fx, total, out, used)->Ok_0.0;
            s.len() >= of.len() && s.take(of.len() as int) == of
        }),
        rfx == (if used { fx } else { None }),
        used ==> fx is Some,
    ensures
        ({
            let (of, used_f) = fixed_write_loop(bits, i, o, fx, total, out, used)->Ok_0;
            &&& used_f ==> fx is Some
            &&& fixed_loop(bits, i, s, total, out.len(), acc, rfx) == Ok::<(ObjectV, Option<bool>, nat), crate::error::Fail>(
                (plain_read(bits, i, o, acc), if used_f { fx } else { None }, of.len()))
        }),
    decreases bits.len() - i,
{
    if i >= bits.len() {
    } else if cond_skips(bits[i as int], o) {
        lemma_cond_agrees(bits, i, o, acc);
        assert(read_so_far(bits, i + 1, o, acc)) by {
            reveal(read_so_far);
        }
        assert(fixed_write_loop(bits, i, o, fx, total, out, used) == fixed_write_loop(bits, i + 1, o, fx, total, out, used));
        lemma_plain_loop(bits, i + 1, o, fx, used, total, out, s, acc, rfx);
        assert(fixed_loop(bits, i, s, total, out.len(), acc, rfx) == fixed_loop(bits, i + 1, s, total, out.len(), acc, rfx));
    } else {
        let b = bits[i as int];
        lemma_plain_step(bits, i, o, fx, used, total, out, s, acc, rfx);
        let out2 = out + value_bits(put_value(b, o, fx) as nat, field_len(b));
        let used2 = used || b.fx == Some(1u64);
        lemma_plain_loop(bits, i + 1, o, fx, used2, total, out2, s, read_step(bits, i, o, acc), if used2 { fx } else { None });
    }
}

/// A Fixed item of plain integer fields, written from an object whose
/// values fit the fields, with the FX bit `fx` if it is part of a Variable,
/// is read back, whatever follows it, as the object of those values (every
/// field that is not spare or the FX bit, with its integer) and that FX bit.
#[verifier::spinoff_prover]
pub proof fn lemma_fixed_roundtrip(fixed: Fixed, o: ObjectV, fx: Option<bool>, rest: Seq<u8>)
    requires
        forall|j: int| 0 <= j < fixed.bits@.len() ==> plain_field(#[trigger] fixed.bits@[j]) && fits_field(o, fixed.bits@[j]),
        conditions_fit(fixed.bits@, o),
        spec_write_fixed(fixed, ValueV::Object(o), fx) is Ok,
    ensures
        spec_read_fixed(spec_write_fixed(fixed, ValueV::Object(o), fx)->Ok_0 + rest, fixed)
            == Ok::<(ObjectV, Option<bool>, Seq<u8>), crate::error::Fail>((plain_read(fixed.bits@, 0, o, Seq::empty()), fx, rest)),
{
    let total = (fixed.length * 8) as nat;
    let (of, used_f) = fixed_write_loop(fixed.bits@, 0, o, fx, total, Seq::empty(), false)->Ok_0;
    let bytes = bits_bytes(of);
    assert(of.len() == total);
    lemma_bits_bytes(of);
    let input = bytes + rest;
    lemma_bytes_bits_append(bytes, rest);
    let s = bytes_bits(input);
    assert(s.take(of.len() as int) =~= of);
    reveal(read_so_far);
    lemma_plain_loop(fixed.bits@, 0, o, fx, false, total, Seq::empty(), s, Seq::empty(), None);
    lemma_bytes_bits_len(bytes);
    assert(bytes.len() == fixed.length);
    assert(input.skip(fixed.length as int) =~= rest);
    assert((if used_f { fx } else { None }) == fx);
}

/// A Fixed item of plain fields written from `v`, an object they fit,
/// whose conditions writing and reading decide alike.
pub open spec fn plain_fixed(f: Fixed, v: ValueV) -> bool {
    &&& v is Object
    &&& forall|j: int| 0 <= j < f.bits@.len() ==> plain_field(#[trigger] f.bits@[j]) && fits_field(v->Object_0, f.bits@[j])
    &&& conditions_fit(f.bits@, v->Object_0)
}

/// The fields read back of a Fixed item written from `v`.
pub open spec fn fixed_back(f: Fixed, v: ValueV) -> ObjectV {
    plain_read(f.bits@, 0, v->Object_0, Seq::empty())
}

/// Whether every format is a Fixed item.
pub open spec fn all_fixed(formats: Seq<Format>) -> bool {
    forall|i: int| 0 <= i < formats.len() ==> (#[trigger] formats[i]) is Fixed
}

/// The fields read back of the parts of a Variable from the `i`-th to the
/// `last`-th, merged into `acc`.
pub open spec fn parts_back(formats: Seq<Format>, v: ValueV, last: nat, i: nat, acc: ObjectV) -> ObjectV
    decreases last + 1 - i,
{
    if i > last || i >= formats.len() {
        acc
    } else {
        parts_back(formats, v, last, i + 1, obj_extend(acc, fixed_back(formats[i as int]->Fixed_0, v)))
    }
}

/// The fields read back of the items from the `i`-th on, each written from
/// `v`, merged into `acc`.
pub open spec fn merge_back(formats: Seq<Format>, v: ValueV, i: nat, acc: ObjectV) -> ObjectV
    decreases formats.len() - i,
{
    if i >= formats.len() {
        acc
    } else {
        merge_back(formats, v, i + 1, obj_extend(acc, fixed_back(formats[i as int]->Fixed_0, v)))
    }
}

/// An item of plain fields, not a Compound, written from a value that fits
/// it: a Fixed item from an object; a Variable of one Fixed part from an array of objects; a
/// Variable of several Fixed parts from an object that gives a value to a
/// field of some part; an Explicit of Fixed items from an object that fits
/// each; a Repetitive of Fixed items from an array of objects.
#[verifier::opaque]
pub open spec fn plain_simple(f: Format, v: ValueV) -> bool {
    match f {
        Format::Fixed(fx) => plain_fixed(fx, v),
        Format::Variable(var) => if var.formats@.len() == 1 {
            &&& var.formats@[0] is Fixed
            &&& v is Array
            &&& forall|k: int| 0 <= k < v->Array_0.len() ==> plain_fixed(var.formats@[0]->Fixed_0, #[trigger] v->Array_0[k])
        } else {
            &&& all_fixed(var.formats@)
            &&& v is Object
            &&& forall|i: int| 0 <= i < var.formats@.len() ==> plain_fixed((#[trigger] var.formats@[i])->Fixed_0, v)
            &&& last_used_part(var.formats@, v->Object_0, 0, None) matches Ok(Some(_))
        },
        Format::Explicit(e) => {
            &&& all_fixed(e.formats@)
            &&& forall|i: int| 0 <= i < e.formats@.len() ==> plain_fixed((#[trigger] e.formats@[i])->Fixed_0, v)
        },
        Format::Repetitive(r) => {
            &&& all_fixed(r.formats@)
            &&& v is Array
            &&& forall|k: int, i: int| 0 <= k < v->Array_0.len() && 0 <= i < r.formats@.len()
                ==> plain_fixed((#[trigger] r.formats@[i])->Fixed_0, #[trigger] v->Array_0[k])
        },
        _ => false,
    }
}

/// What reading gives back of an item of plain fields, not a Compound,
/// written from `v`.
#[verifier::opaque]
pub open spec fn simple_back(f: Format, v: ValueV) -> ValueV {
    match f {
        Format::Fixed(fx) => ValueV::Object(fixed_back(fx, v)),
        Format::Variable(var) => if var.formats@.len() == 1 {
            let a = v->Array_0;
            ValueV::Array(Seq::new(a.len(), |k: int| ValueV::Object(fixed_back(var.formats@[0]->Fixed_0, a[k]))))
        } else {
            let m = last_used_part(var.formats@, v->Object_0, 0, None)->Ok_0->Some_0;
            ValueV::Object(parts_back(var.formats@, v, m, 0, Seq::empty()))
        },
        Format::Explicit(e) => ValueV::Object(merge_back(e.formats@, v, 0, Seq::empty())),
        Format::Repetitive(r) => {
            let a = v->Array_0;
            ValueV::Array(Seq::new(a.len(), |k: int| ValueV::Object(merge_back(r.formats@, a[k], 0, Seq::empty()))))
        },
        _ => ValueV::Null,
    }
}

/// `out` extends `acc`, and `x` is what follows `acc` in it.
pub open spec fn extends_by(out: Seq<u8>, acc: Seq<u8>) -> bool {
    out.len() >= acc.len() && out.take(acc.len() as int) == acc
}

pub proof fn lemma_extends_split(out: Seq<u8>, acc: Seq<u8>, w: Seq<u8>, rest: Seq<u8>)
    requires
        extends_by(out, acc + w),
    ensures
        extends_by(out, acc),
        out.skip(acc.len() as int) + rest =~= w + (out.skip((acc + w).len() as int) + rest),
{
    let t = out.take((acc + w).len() as int);
    assert(out.take(acc.len() as int) =~= t.take(acc.len() as int));
    assert(t.take(acc.len() as int) =~= acc);
    let y = out.skip((acc + w).len() as int);
    let o1 = out.skip(acc.len() as int);
    assert(o1 =~= w + y) by {
        assert forall|i: int| 0 <= i < o1.len() implies o1[i] == (w + y)[i] by {
            if i < w.len() {
                assert(o1[i] == out[acc.len() + i]);
                assert(out[acc.len() + i] == t[acc.len() + i]);
                assert(t[acc.len() + i] == w[i]);
            } else {
                assert(o1[i] == y[i - w.len()]);
            }
        }
    }
}

/// The repetitions of a Variable of one Fixed part are read back.
#[verifier::spinoff_prover]
#[verifier::rlimit(40)]
proof fn lemma_var_repeat(fixed: Fixed, a: Seq<ValueV>, k: nat, wacc: Seq<u8>, racc: Seq<ValueV>, rest: Seq<u8>)
    requires
        k < a.len(),
        forall|m: int| 0 <= m < a.len() ==> plain_fixed(fixed, #[trigger] a[m]),
        var_repeat_write(fixed, a, k, wacc) is Ok,
    ensures
        ({
            let out = var_repeat_write(fixed, a, k, wacc)->Ok_0;
            let backs = Seq::new(a.len(), |m: int| ValueV::Object(fixed_back(fixed, a[m])));
            &&& extends_by(out, wacc)
            &&& var_repeat(out.skip(wacc.len() as int) + rest, fixed, racc)
                == Ok::<(ValueV, Seq<u8>), crate::error::Fail>((ValueV::Array(racc + backs.skip(k as int)), rest))
        }),
    decreases a.len() - k,
{
    let out = var_repeat_write(fixed, a, k, wacc)->Ok_0;
    let backs = Seq::new(a.len(), |m: int| ValueV::Object(fixed_back(fixed, a[m])));
    let more = k < a.len() - 1;
    let w = spec_write_fixed(fixed, a[k as int], Some(more))->Ok_0;
    assert(var_repeat_write(fixed, a, k, wacc) == var_repeat_write(fixed, a, k + 1, wacc + w));
    assert(plain_fixed(fixed, a[k as int]));
    let racc2 = racc.push(ValueV::Object(fixed_back(fixed, a[k as int])));
    if more {
        lemma_var_repeat(fixed, a, k + 1, wacc + w, racc2, rest);
        lemma_extends_split(out, wacc, w, rest);
        let x = out.skip((wacc + w).len() as int) + rest;
        lemma_fixed_roundtrip(fixed, a[k as int]->Object_0, Some(more), x);
        assert(racc2 + backs.skip((k + 1) as int) =~= racc + backs.skip(k as int));
    } else {
        assert(out == wacc + w);
        assert(extends_by(out, wacc + w)) by {
            assert(out.take((wacc + w).len() as int) =~= out);
        }
        lemma_extends_split(out, wacc, w, rest);
        assert(out.skip((wacc + w).len() as int) + rest =~= rest);
        lemma_fixed_roundtrip(fixed, a[k as int]->Object_0, Some(more), rest);
        assert(racc2 =~= racc + backs.skip(k as int));
    }
}

/// The parts of a Variable from the `i`-th to the `last`-th are read back.
#[verifier::spinoff_prover]
proof fn lemma_var_parts(formats: Seq<Format>, v: ValueV, last: nat, i: nat, wacc: Seq<u8>, racc: ObjectV, rest: Seq<u8>)
    requires
        i <= last < formats.len(),
        all_fixed(formats),
        forall|j: int| 0 <= j < formats.len() ==> plain_fixed((#[trigger] formats[j])->Fixed_0, v),
        var_parts_write(formats, v, last, i, wacc) is Ok,
    ensures
        ({
            let out = var_parts_write(formats, v, last, i, wacc)->Ok_0;
            &&& extends_by(out, wacc)
            &&& var_parts(out.skip(wacc.len() as int) + rest, formats, i, racc)
                == Ok::<(ValueV, Seq<u8>), crate::error::Fail>((ValueV::Object(parts_back(formats, v, last, i, racc)), rest))
        }),
    decreases last + 1 - i,
{
    let out = var_parts_write(formats, v, last, i, wacc)->Ok_0;
    assert(formats[i as int] is Fixed);
    let fixed = formats[i as int]->Fixed_0;
    let more = i < last;
    let w = spec_write_fixed(fixed, v, Some(more))->Ok_0;
    assert(var_parts_write(formats, v, last, i, wacc) == var_parts_write(formats, v, last, i + 1, wacc + w));
    assert(plain_fixed(fixed, v));
    let racc2 = obj_extend(racc, fixed_back(fixed, v));
    if more {
        lemma_var_parts(formats, v, last, i + 1, wacc + w, racc2, rest);
        lemma_extends_split(out, wacc, w, rest);
        let x = out.skip((wacc + w).len() as int) + rest;
        lemma_fixed_roundtrip(fixed, v->Object_0, Some(more), x);
        assert(spec_read_fixed(w + x, fixed) == Ok::<(ObjectV, Option<bool>, Seq<u8>), crate::error::Fail>((fixed_back(fixed, v), Some(true), x)));
        assert(var_parts(w + x, formats, i, racc) == var_parts(x, formats, i + 1, racc2));
        assert(parts_back(formats, v, last, i, racc) == parts_back(formats, v, last, i + 1, racc2));
    } else {
        assert(out == wacc + w);
        assert(extends_by(out, wacc + w)) by {
            assert(out.take((wacc + w).len() as int) =~= out);
        }
        lemma_extends_split(out, wacc, w, rest);
        assert(out.skip((wacc + w).len() as int) + rest =~= rest);
        lemma_fixed_roundtrip(fixed, v->Object_0, Some(more), rest);
        assert(spec_read_fixed(w + rest, fixed) == Ok::<(ObjectV, Option<bool>, Seq<u8>), crate::error::Fail>((fixed_back(fixed, v), Some(false), rest)));
        assert(parts_back(formats, v, last, i + 1, racc2) == racc2);
        assert(parts_back(formats, v, last, i, racc) == racc2);
    }
}

/// The Fixed items of a repetition, each written from `v`, are read back
/// and merged.
#[verifier::spinoff_prover]
proof fn lemma_merge(formats: Seq<Format>, v: ValueV, i: nat, wacc: Seq<u8>, racc: ObjectV, rest: Seq<u8>)
    requires
        i <= formats.len(),
        all_fixed(formats),
        forall|j: int| 0 <= j < formats.len() ==> plain_fixed((#[trigger] formats[j])->Fixed_0, v),
        formats_write(formats, v, i, wacc) is Ok,
    ensures
        ({
            let out = formats_write(formats, v, i, wacc)->Ok_0;
            &&& extends_by(out, wacc)
            &&& items_merge(out.skip(wacc.len() as int) + rest, formats, i, racc)
                == Ok::<(ObjectV, Seq<u8>), crate::error::Fail>((merge_back(formats, v, i, racc), rest))
        }),
    decreases formats.len() - i,
{
    let out = formats_write(formats, v, i, wacc)->Ok_0;
    if i >= formats.len() {
        assert(out == wacc);
        assert(out.take(wacc.len() as int) =~= out);
        assert(out.skip(wacc.len() as int) + rest =~= rest);
    } else {
        assert(formats[i as int] is Fixed);
        let fixed = formats[i as int]->Fixed_0;
        let w = spec_write_fixed(fixed, v, None)->Ok_0;
        assert(spec_write_field(formats[i as int], v) == spec_write_fixed(fixed, v, None));
        assert(formats_write(formats, v, i, wacc) == formats_write(formats, v, i + 1, wacc + w));
        assert(plain_fixed(fixed, v));
        let racc2 = obj_extend(racc, fixed_back(fixed, v));
        lemma_merge(formats, v, i + 1, wacc + w, racc2, rest);
        lemma_extends_split(out, wacc, w, rest);
        let x = out.skip((wacc + w).len() as int) + rest;
        lemma_fixed_roundtrip(fixed, v->Object_0, None, x);
        assert(spec_read_field(w + x, formats[i as int])
            == Ok::<(ValueV, Seq<u8>), crate::error::Fail>((ValueV::Object(fixed_back(fixed, v)), x)));
    }
}

/// The repetitions of a Repetitive from the `k`-th on are read back.
#[verifier::spinoff_prover]
proof fn lemma_rep(formats: Seq<Format>, a: Seq<ValueV>, k: nat, wacc: Seq<u8>, racc: Seq<ValueV>, rest: Seq<u8>)
    requires
        k <= a.len(),
        all_fixed(formats),
        forall|m: int, j: int| 0 <= m < a.len() && 0 <= j < formats.len() ==> plain_fixed((#[trigger] formats[j])->Fixed_0, #[trigger] a[m]),
        rep_write(formats, a, k, wacc) is Ok,
    ensures
        ({
            let out = rep_write(formats, a, k, wacc)->Ok_0;
            let backs = Seq::new(a.len(), |m: int| ValueV::Object(merge_back(formats, a[m], 0, Seq::empty())));
            &&& extends_by(out, wacc)
            &&& rep_loop(out.skip(wacc.len() as int) + rest, formats, (a.len() - k) as nat, racc)
                == Ok::<(ValueV, Seq<u8>), crate::error::Fail>((ValueV::Array(racc + backs.skip(k as int)), rest))
        }),
    decreases a.len() - k,
{
    let out = rep_write(formats, a, k, wacc)->Ok_0;
    let backs = Seq::new(a.len(), |m: int| ValueV::Object(merge_back(formats, a[m], 0, Seq::empty())));
    if k >= a.len() {
        assert(out == wacc);
        assert(out.take(wacc.len() as int) =~= out);
        assert(out.skip(wacc.len() as int) + rest =~= rest);
        assert(racc + backs.skip(k as int) =~= racc);
    } else {
        let w = formats_write(formats, a[k as int], 0, Seq::empty())->Ok_0;
        assert(rep_write(formats, a, k, wacc) == rep_write(formats, a, k + 1, wacc + w));
        let racc2 = racc.push(ValueV::Object(merge_back(formats, a[k as int], 0, Seq::empty())));
        lemma_rep(formats, a, k + 1, wacc + w, racc2, rest);
        lemma_extends_split(out, wacc, w, rest);
        let x = out.skip((wacc + w).len() as int) + rest;
        assert forall|j: int| 0 <= j < formats.len() implies plain_fixed((#[trigger] formats[j])->Fixed_0, a[k as int]) by {
            assert(plain_fixed(formats[j]->Fixed_0, a[k as int]));
        }
        lemma_merge(formats, a[k as int], 0, Seq::empty(), Seq::empty(), x);
        assert(w.skip(0) =~= w);
        assert(racc2 + backs.skip((k + 1) as int) =~= racc + backs.skip(k as int));
    }
}

/// An item of plain fields, not a Compound, written from a value that fits
/// it is read back, whatever follows it, as `simple_back` says.
#[verifier::spinoff_prover]
pub proof fn lemma_simple_roundtrip(f: Format, v: ValueV, rest: Seq<u8>)
    requires
        plain_simple(f, v),
        spec_write_field(f, v) is Ok,
    ensures
        spec_read_field(spec_write_field(f, v)->Ok_0 + rest, f)
            == Ok::<(ValueV, Seq<u8>), crate::error::Fail>((simple_back(f, v), rest)),
{
    reveal(plain_simple);
    reveal(simple_back);
    let w = spec_write_field(f, v)->Ok_0;
    match f {
        Format::Fixed(fx) => {
            lemma_fixed_roundtrip(fx, v->Object_0, None, rest);
        },
        Format::Variable(var) => {
            if var.formats@.len() == 1 {
                let fixed = var.formats@[0]->Fixed_0;
                let a = v->Array_0;
                assert(w == var_repeat_write(fixed, a, 0, Seq::empty())->Ok_0);
                lemma_var_repeat(fixed, a, 0, Seq::empty(), Seq::empty(), rest);
                assert(w.skip(0) =~= w);
                let backs = Seq::new(a.len(), |m: int| ValueV::Object(fixed_back(fixed, a[m])));
                assert(Seq::<ValueV>::empty() + backs.skip(0) =~= backs);
            } else {
                let m = last_used_part(var.formats@, v->Object_0, 0, None)->Ok_0->Some_0;
                crate::write_asterix::lemma_last_used_part(var.formats@, v->Object_0, 0, None);
                assert(w == var_parts_write(var.formats@, v, m, 0, Seq::empty())->Ok_0);
                lemma_var_parts(var.formats@, v, m, 0, Seq::empty(), Seq::empty(), rest);
                assert(w.skip(0) =~= w);
            }
        },
        Format::Repetitive(r) => {
            let a = v->Array_0;
            let body = rep_write(r.formats@, a, 0, seq![a.len() as u8])->Ok_0;
            assert(w == body);
            lemma_rep(r.formats@, a, 0, seq![a.len() as u8], Seq::empty(), rest);
            let input = w + rest;
            assert(a.len() <= 255);
            assert(w.take(1) == seq![a.len() as u8]);
            assert(w[0] == w.take(1)[0]);
            assert(input[0] == a.len() as u8);
            assert(input[0] as nat == a.len());
            assert(input.skip(1) =~= body.skip(1) + rest);
            let backs = Seq::new(a.len(), |m: int| ValueV::Object(merge_back(r.formats@, a[m], 0, Seq::empty())));
            assert(Seq::<ValueV>::empty() + backs.skip(0) =~= backs);
        },
        Format::Explicit(e) => {
            let body = formats_write(e.formats@, v, 0, Seq::empty())->Ok_0;
            lemma_merge(e.formats@, v, 0, Seq::empty(), Seq::empty(), Seq::empty());
            assert(body.skip(0) + Seq::<u8>::empty() =~= body);
            assert(body.len() + 1 <= 255);
            assert(w == seq![(body.len() + 1) as u8] + body);
            let input = w + rest;
            assert(input[0] as int - 1 == body.len());
            assert(input.skip(1).take(body.len() as int) =~= body);
            assert(input.skip(1).skip(body.len() as int) =~= rest);
        },
        _ => {},
    }
}

/// An item of plain fields written from a value that fits it: an item of
/// plain fields that is not a Compound, or a Compound of such subitems.
pub open spec fn plain_format(f: Format, v: ValueV) -> bool {
    match f {
        Format::Compound(c) => crate::compound_law::plain_compound(c, v),
        _ => plain_simple(f, v),
    }
}

/// What reading gives back of an item of plain fields written from `v`.
pub open spec fn format_back(f: Format, v: ValueV) -> ValueV {
    match f {
        Format::Compound(c) => ValueV::Object(crate::compound_law::compound_back(c, v)),
        _ => simple_back(f, v),
    }
}

/// An item of plain fields written from a value that fits it is read back,
/// whatever follows it, as `format_back` says.
pub proof fn lemma_format_roundtrip(f: Format, v: ValueV, rest: Seq<u8>)
    requires
        plain_format(f, v),
        spec_write_field(f, v) is Ok,
    ensures
        spec_read_field(spec_write_field(f, v)->Ok_0 + rest, f)
            == Ok::<(ValueV, Seq<u8>), crate::error::Fail>((format_back(f, v), rest)),
{
    match f {
        Format::Compound(c) => crate::compound_law::lemma_compound_roundtrip(c, v, rest),
        _ => lemma_simple_roundtrip(f, v, rest),
    }
}

} // verus!
