//! What writing gives of what reading read.
use vstd::prelude::*;
use vstd::arithmetic::power2::pow2;
use vstd::utf8::encode_utf8;
use crate::bitstream::{bits_bytes, bits_value, bytes_bits, lemma_bits_bytes, lemma_bits_value_bound, lemma_bits_value_of_value_bits,
    lemma_bytes_bits_injective, lemma_bytes_bits_len, lemma_bytes_bits_take, lemma_value_bits_of_bits_value, value_bits};
use crate::fields::{bits_range, decode_value, field_encode, field_value, int_value, is_spare_name};
use crate::read_asterix::{block_value, find_data_item, fixed_loop, frn_mask, spec_read_field, lemma_first_unknown_fspec, present_loop, record_items, records_read, spec_fspec_len, spec_read_record,
    spec_read_asterix, spec_read_fixed, spec_switch_uap, PresentItem};
use crate::record_law::{frn_of, lemma_present_complete, lemma_present_increasing, lemma_present_loop, lemma_present_members,
    lemma_uap_frn_bound, numbered, present_from, present_item, uap_at, uap_frn_from, wf_uap};
use crate::roundtrip::{field_int, field_len, plain_field};
use crate::spec_xml::{Bits, Category, Encode, Explicit, Fixed, Format, Repetitive, UAPItem, Variable};
use crate::strings::parse_usize_spec;
use crate::value::{keys_distinct, lemma_get_extend, lemma_insert_distinct, lemma_obj_find_none, lemma_obj_get_insert, obj_find, obj_get, obj_insert, Number, ObjectV, ValueV};
use crate::write_asterix::{declared_category, field_or_zero, find_uap_item, fixed_write_loop, frn_among, fspec_has, fspec_loop,
    insert_pos, item_frns, lemma_find_uap_item, lemma_fspec_roundtrip, record_entries, record_write, sort_items, spec_present_entries,
    spec_write_asterix, spec_write_body, spec_write_field, spec_write_fixed, spec_write_fspec, spec_write_record, spec_write_uap, value_i64, WriteItem};

verus! {

/// A field that writing gives back as it was read: a plain field, with or
/// without a unit, with no condition, an FX bit of one bit, and, unless it is two's complement, under 64 bits (an
/// unsigned value of 64 bits may not fit the integer that writing takes).
pub open spec fn rewritable_field(b: Bits) -> bool {
    &&& plain_field(b)
    &&& b.condition is None
    &&& b.fx == Some(1u64) ==> field_len(b) == 1
    &&& field_encode(b) != Encode::Signed ==> field_len(b) < 64
}

/// A field that is read into a key of its own: neither spare nor the FX bit.
pub open spec fn named_field(b: Bits) -> bool {
    b.fx != Some(1u64) && !is_spare_name(b.short_name@)
}

/// No two named fields from the `i`-th on share a name.
pub open spec fn distinct_names(bits: Seq<Bits>, i: nat) -> bool {
    forall|j1: int, j2: int| i <= j1 < j2 < bits.len() && named_field(#[trigger] bits[j1]) && named_field(#[trigger] bits[j2])
        ==> bits[j1].short_name@ != bits[j2].short_name@
}

/// Every spare field, at its place among `total` bits of `stream`, holds
/// zero.
pub open spec fn spares_zero(bits: Seq<Bits>, stream: Seq<bool>, total: nat) -> bool {
    forall|j: int| 0 <= j < bits.len() && is_spare_name((#[trigger] bits[j]).short_name@) && bits_range(bits[j]) is Ok ==> {
        let (from, to) = bits_range(bits[j])->Ok_0;
        (to >= 1 && from <= total && total - to + 1 <= stream.len())
            ==> bits_value(stream.subrange(total - from, total - to + 1)) == 0
    }
}

/// Reading the fields from the `i`-th on keeps the value of a key that none
/// of them names, keeps an FX bit already read, and stays in the stream.
#[verifier::spinoff_prover]
proof fn lemma_read_keeps(bits: Seq<Bits>, i: nat, stream: Seq<bool>, total: nat, pos: nat, acc: ObjectV,
    rfx: Option<bool>, k: Seq<char>)
    requires
        fixed_loop(bits, i, stream, total, pos, acc, rfx) is Ok,
        pos <= stream.len(),
    ensures
        ({
            let (o, f, p) = fixed_loop(bits, i, stream, total, pos, acc, rfx)->Ok_0;
            &&& (forall|j: int| i <= j < bits.len() && named_field(#[trigger] bits[j]) ==> bits[j].short_name@ != k)
                ==> obj_get(o, k) == obj_get(acc, k)
            &&& rfx is Some ==> f == rfx
            &&& pos <= p <= stream.len()
        }),
    decreases bits.len() - i,
{
    if i < bits.len() {
        let b = bits[i as int];
        let enc = field_encode(b);
        let (from, to) = bits_range(b)->Ok_0;
        let length = (from - to + 1) as nat;
        if b.condition is Some && !crate::fields::is_uint(obj_get(acc, b.condition.unwrap().key@), b.condition.unwrap().val as u64) {
            lemma_read_keeps(bits, i + 1, stream, total, pos, acc, rfx, k);
        } else {
            let value = bits_value(stream.subrange(pos as int, (pos + length) as int)) as u64;
            if b.fx == Some(1u64) {
                lemma_read_keeps(bits, i + 1, stream, total, pos + length, acc, Some(value != 0), k);
            } else if is_spare_name(b.short_name@) {
                lemma_read_keeps(bits, i + 1, stream, total, pos + length, acc, rfx, k);
            } else {
                let v = field_value(decode_value(value, length as u32, enc), b.unit, enc);
                lemma_read_keeps(bits, i + 1, stream, total, pos + length, obj_insert(acc, b.short_name@, v), rfx, k);
                lemma_obj_get_insert(acc, b.short_name@, v, k);
                if forall|j: int| i <= j < bits.len() && named_field(#[trigger] bits[j]) ==> bits[j].short_name@ != k {
                    assert(named_field(bits[i as int]));
                }
            }
        }
    }
}

/// Bits written from a number are those of its remainder by `2^n`.
proof fn lemma_value_bits_mod(x: nat, n: nat)
    ensures
        value_bits(x % pow2(n), n) == value_bits(x, n),
{
    let t = value_bits(x, n);
    lemma_value_bits_of_bits_value(t);
    lemma_bits_value_of_value_bits(x, n);
}

/// Sign extending the low `len` bits of a number keeps them.
proof fn lemma_sign_extend_low(value: u64, len: u32)
    requires
        1 <= len <= 64,
        (value as nat) < pow2(len as nat),
    ensures
        ((((((value as i64) << ((64 - len) as u32)) >> ((64 - len) as u32)) as u64) as nat) % pow2(len as nat)) == value,
{
    let d = (((value as i64) << ((64 - len) as u32)) >> ((64 - len) as u32)) as u64;
    if len == 64 {
        assert((((value as i64) << 0u32) >> 0u32) as u64 == value) by (bit_vector);
        vstd::arithmetic::div_mod::lemma_small_mod(value as nat, pow2(len as nat));
    } else {
        crate::bitstream::lemma_pow2_shl(len as u64);
        let m: u64 = ((1u64 << (len as u64)) - 1) as u64;
        assert(value < (1u64 << (len as u64)));
        assert(m + 1 == (1u64 << (len as u64)));
        assert(d & m == value) by (bit_vector)
            requires
                1 <= len < 64,
                value < (1u64 << (len as u64)),
                m + 1 == (1u64 << (len as u64)),
                d == (((value as i64) << ((64 - len) as u32)) >> ((64 - len) as u32)) as u64;
        vstd::bits::lemma_u64_low_bits_mask_is_mod(d, len as nat);
        assert(vstd::bits::low_bits_mask(len as nat) as u64 == m);
    }
}

/// A field read from `value`, the bits of `sub`, is written back as `sub`.
proof fn lemma_field_rewrite(b: Bits, sub: Seq<bool>)
    requires
        rewritable_field(b),
        named_field(b),
        sub.len() == field_len(b),
        1 <= sub.len() <= 64,
    ensures
        ({
            let value = bits_value(sub) as u64;
            let enc = field_encode(b);
            let v = field_value(decode_value(value, sub.len() as u32, enc), b.unit, enc);
            &&& field_int(v, b) is Some
            &&& value_bits((field_int(v, b)->Some_0 as u64) as nat, sub.len()) == sub
        }),
{
    let n = sub.len();
    let value = bits_value(sub) as u64;
    let enc = field_encode(b);
    lemma_bits_value_bound(sub);
    vstd::arithmetic::power2::lemma2_to64();
    if n < 64 {
        vstd::arithmetic::power2::lemma_pow2_strictly_increases(n, 64);
    }
    assert(value as nat == bits_value(sub));
    lemma_value_bits_of_bits_value(sub);
    if enc == Encode::Signed {
        let d = decode_value(value, n as u32, enc);
        lemma_sign_extend_low(value, n as u32);
        assert(value_i64(int_value(d as i64)) == Some(d as i64));
        assert(field_int(field_value(d, b.unit, enc), b) == Some(d as i64));
        assert((d as i64) as u64 == d) by (bit_vector);
        lemma_value_bits_mod(d as nat, n);
    } else {
        assert(n < 64);
        if n < 63 {
            vstd::arithmetic::power2::lemma_pow2_strictly_increases(n, 63);
        }
        vstd::arithmetic::power2::lemma2_to64_rest();
        assert(bits_value(sub) < 0x8000_0000_0000_0000);
        assert(value <= i64::MAX);
        assert((value as i64) as u64 == value);
        assert(field_int(field_value(value, b.unit, enc), b) == Some(value as i64));
    }
}

/// Whether `wo` gives each named field from the `i`-th on the value that
/// `o` gives it.
pub open spec fn agrees_on(bits: Seq<Bits>, i: nat, wo: ObjectV, o: ObjectV) -> bool {
    forall|j: int| i <= j < bits.len() && named_field(#[trigger] bits[j]) ==> obj_get(wo, bits[j].short_name@) == obj_get(o, bits[j].short_name@)
}

/// Writing the fields from the `i`-th on, from an object that agrees with
/// the one reading them gave, and the FX bit it gave, gives back the bits
/// read.
#[verifier::spinoff_prover]
proof fn lemma_rewrite_loop(bits: Seq<Bits>, i: nat, stream: Seq<bool>, total: nat, pos: nat, acc: ObjectV, rfx: Option<bool>,
    wo: ObjectV)
    requires
        forall|j: int| i <= j < bits.len() ==> rewritable_field(#[trigger] bits[j]),
        distinct_names(bits, i),
        spares_zero(bits, stream, total),
        fixed_loop(bits, i, stream, total, pos, acc, rfx) is Ok,
        pos <= stream.len(),
        agrees_on(bits, i, wo, fixed_loop(bits, i, stream, total, pos, acc, rfx)->Ok_0.0),
    ensures
        ({
            let (o, f, p) = fixed_loop(bits, i, stream, total, pos, acc, rfx)->Ok_0;
            &&& pos <= p <= stream.len()
            &&& fixed_write_loop(bits, i, wo, f, total, stream.take(pos as int), rfx is Some)
                == Ok::<(Seq<bool>, bool), crate::error::Fail>((stream.take(p as int), f is Some))
        }),
    decreases bits.len() - i,
{
    lemma_read_keeps(bits, i, stream, total, pos, acc, rfx, Seq::empty());
    let (o, f, p) = fixed_loop(bits, i, stream, total, pos, acc, rfx)->Ok_0;
    if i < bits.len() {
        let b = bits[i as int];
        assert(rewritable_field(b));
        let enc = field_encode(b);
        let (from, to) = bits_range(b)->Ok_0;
        let length = (from - to + 1) as nat;
        let sub = stream.subrange(pos as int, (pos + length) as int);
        let value = bits_value(sub) as u64;
        let out = stream.take(pos as int);
        let out2 = stream.take((pos + length) as int);
        assert(out2 =~= out + sub);
        assert(field_len(b) == length);
        assert(from == total - pos);
        assert(to >= 1);
        assert(distinct_names(bits, i + 1));
        if b.fx == Some(1u64) {
            let rfx2 = Some(value != 0);
            assert(fixed_loop(bits, i, stream, total, pos, acc, rfx) == fixed_loop(bits, i + 1, stream, total, pos + length, acc, rfx2));
            lemma_rewrite_loop(bits, i + 1, stream, total, pos + length, acc, rfx2, wo);
            lemma_read_keeps(bits, i + 1, stream, total, pos + length, acc, rfx2, Seq::empty());
            assert(f == rfx2);
            lemma_bits_value_bound(sub);
            vstd::arithmetic::power2::lemma2_to64();
            let x: u64 = if value != 0 { 1 } else { 0 };
            assert(x == value);
            lemma_value_bits_of_bits_value(sub);
            assert(crate::write_asterix::put_bits(from, to, (total - out.len()) as nat, enc, x)
                == Ok::<Seq<bool>, crate::error::Fail>(sub));
            assert(fixed_write_loop(bits, i, wo, f, total, out, rfx is Some)
                == fixed_write_loop(bits, i + 1, wo, f, total, out + sub, true));
        } else if is_spare_name(b.short_name@) {
            assert(fixed_loop(bits, i, stream, total, pos, acc, rfx) == fixed_loop(bits, i + 1, stream, total, pos + length, acc, rfx));
            lemma_rewrite_loop(bits, i + 1, stream, total, pos + length, acc, rfx, wo);
            assert(value == 0);
            lemma_value_bits_of_bits_value(sub);
            assert(crate::write_asterix::put_bits(from, to, (total - out.len()) as nat, enc, 0)
                == Ok::<Seq<bool>, crate::error::Fail>(sub));
            assert(fixed_write_loop(bits, i, wo, f, total, out, rfx is Some)
                == fixed_write_loop(bits, i + 1, wo, f, total, out + sub, rfx is Some));
        } else {
            assert(named_field(b));
            let v = field_value(decode_value(value, length as u32, enc), b.unit, enc);
            let acc2 = obj_insert(acc, b.short_name@, v);
            assert(fixed_loop(bits, i, stream, total, pos, acc, rfx) == fixed_loop(bits, i + 1, stream, total, pos + length, acc2, rfx));
            lemma_rewrite_loop(bits, i + 1, stream, total, pos + length, acc2, rfx, wo);
            assert forall|j: int| i + 1 <= j < bits.len() && named_field(#[trigger] bits[j]) implies bits[j].short_name@ != b.short_name@ by {
                assert(named_field(bits[i as int]));
            }
            lemma_read_keeps(bits, i + 1, stream, total, pos + length, acc2, rfx, b.short_name@);
            lemma_obj_get_insert(acc, b.short_name@, v, b.short_name@);
            assert(obj_get(wo, b.short_name@) == obj_get(o, b.short_name@));
            assert(field_or_zero(wo, b.short_name@) == v);
            lemma_field_rewrite(b, sub);
            let x = field_int(v, b)->Some_0 as u64;
            assert(crate::write_asterix::field_number(v, b, length as u32) == Ok::<u64, crate::error::ErrorV>(x));
            assert(crate::write_asterix::put_bits(from, to, (total - out.len()) as nat, enc, x)
                == Ok::<Seq<bool>, crate::error::Fail>(sub));
            assert(fixed_write_loop(bits, i, wo, f, total, out, rfx is Some)
                == fixed_write_loop(bits, i + 1, wo, f, total, out + sub, rfx is Some));
        }
    }
}

/// A Fixed item of plain fields, whose spare fields hold zero, is written
/// back, from the fields and the FX bit that reading it gave, as the bytes
/// it was read from. This holds where an FX bit is a single bit, no two
/// fields share a name, and a field that is not two's complement is under
/// 64 bits.
pub proof fn lemma_fixed_rewrite(fixed: Fixed, input: Seq<u8>)
    requires
        forall|j: int| 0 <= j < fixed.bits@.len() ==> rewritable_field(#[trigger] fixed.bits@[j]),
        distinct_names(fixed.bits@, 0),
        spares_zero(fixed.bits@, bytes_bits(input), (fixed.length * 8) as nat),
        spec_read_fixed(input, fixed) is Ok,
    ensures
        fixed.length <= input.len(),
        ({
            let (o, fx, rest) = spec_read_fixed(input, fixed)->Ok_0;
            spec_write_fixed(fixed, ValueV::Object(o), fx) == Ok::<Seq<u8>, crate::error::Fail>(input.take(fixed.length as int))
        }),
{
    lemma_fixed_rewrite_from(fixed, input, spec_read_fixed(input, fixed)->Ok_0.0);
}

/// The same, written from any object that gives the named fields the values
/// that reading gave.
proof fn lemma_fixed_rewrite_from(fixed: Fixed, input: Seq<u8>, wo: ObjectV)
    requires
        forall|j: int| 0 <= j < fixed.bits@.len() ==> rewritable_field(#[trigger] fixed.bits@[j]),
        distinct_names(fixed.bits@, 0),
        spares_zero(fixed.bits@, bytes_bits(input), (fixed.length * 8) as nat),
        spec_read_fixed(input, fixed) is Ok,
        agrees_on(fixed.bits@, 0, wo, spec_read_fixed(input, fixed)->Ok_0.0),
    ensures
        fixed.length <= input.len(),
        ({
            let (o, fx, rest) = spec_read_fixed(input, fixed)->Ok_0;
            &&& rest == input.skip(fixed.length as int)
            &&& spec_write_fixed(fixed, ValueV::Object(wo), fx) == Ok::<Seq<u8>, crate::error::Fail>(input.take(fixed.length as int))
        }),
{
    let total = (fixed.length * 8) as nat;
    let stream = bytes_bits(input);
    lemma_rewrite_loop(fixed.bits@, 0, stream, total, 0, Seq::empty(), None, wo);
    let (o, f, p) = fixed_loop(fixed.bits@, 0, stream, total, 0, Seq::empty(), None)->Ok_0;
    assert(stream.take(0) =~= Seq::<bool>::empty());
    assert(p == total);
    lemma_bytes_bits_len(input);
    lemma_bytes_bits_take(input, fixed.length as int);
    let d = input.take(fixed.length as int);
    assert(stream.take(total as int) == bytes_bits(d));
    lemma_bytes_bits_len(d);
    lemma_bits_bytes(bytes_bits(d));
    lemma_bytes_bits_injective(bits_bytes(bytes_bits(d)), d);
}

/// Reading plain fields keeps the keys of the object distinct, and sets
/// every named field.
#[verifier::spinoff_prover]
proof fn lemma_read_sets(bits: Seq<Bits>, i: nat, stream: Seq<bool>, total: nat, pos: nat, acc: ObjectV, rfx: Option<bool>)
    requires
        forall|j: int| i <= j < bits.len() ==> rewritable_field(#[trigger] bits[j]),
        fixed_loop(bits, i, stream, total, pos, acc, rfx) is Ok,
        keys_distinct(acc),
    ensures
        ({
            let o = fixed_loop(bits, i, stream, total, pos, acc, rfx)->Ok_0.0;
            &&& keys_distinct(o)
            &&& forall|k: Seq<char>| obj_get(acc, k) is Some ==> #[trigger] obj_get(o, k) is Some
            &&& forall|j: int| i <= j < bits.len() && named_field(#[trigger] bits[j]) ==> obj_get(o, bits[j].short_name@) is Some
        }),
    decreases bits.len() - i,
{
    if i < bits.len() {
        let b = bits[i as int];
        assert(rewritable_field(b));
        let enc = field_encode(b);
        let (from, to) = bits_range(b)->Ok_0;
        let length = (from - to + 1) as nat;
        let value = bits_value(stream.subrange(pos as int, (pos + length) as int)) as u64;
        if b.fx == Some(1u64) {
            lemma_read_sets(bits, i + 1, stream, total, pos + length, acc, Some(value != 0));
        } else if is_spare_name(b.short_name@) {
            lemma_read_sets(bits, i + 1, stream, total, pos + length, acc, rfx);
        } else {
            let v = field_value(decode_value(value, length as u32, enc), b.unit, enc);
            let acc2 = obj_insert(acc, b.short_name@, v);
            lemma_insert_distinct(acc, b.short_name@, v);
            lemma_read_sets(bits, i + 1, stream, total, pos + length, acc2, rfx);
            assert forall|k: Seq<char>| obj_get(acc, k) is Some implies #[trigger] obj_get(acc2, k) is Some by {
                lemma_obj_get_insert(acc, b.short_name@, v, k);
            }
            lemma_obj_get_insert(acc, b.short_name@, v, b.short_name@);
        }
    }
}

/// Whether every format is a Fixed item of rewritable fields.
pub open spec fn all_rewritable(formats: Seq<Format>) -> bool {
    forall|i: int| 0 <= i < formats.len() ==> (#[trigger] formats[i]) is Fixed && rewritable_fixed(formats[i]->Fixed_0)
}

/// Whether no named field of one format shares its name with one of
/// another.
pub open spec fn names_apart(formats: Seq<Format>) -> bool {
    forall|i1: int, i2: int, j1: int, j2: int|
        0 <= i1 < formats.len() && 0 <= i2 < formats.len() && i1 != i2
        && 0 <= j1 < formats[i1]->Fixed_0.bits@.len() && 0 <= j2 < formats[i2]->Fixed_0.bits@.len()
        && named_field(#[trigger] formats[i1]->Fixed_0.bits@[j1]) && named_field(#[trigger] formats[i2]->Fixed_0.bits@[j2])
        ==> formats[i1]->Fixed_0.bits@[j1].short_name@ != formats[i2]->Fixed_0.bits@[j2].short_name@
}

/// The bytes of the Fixed items from the `i`-th on.
pub open spec fn fixed_len_from(formats: Seq<Format>, i: nat) -> nat
    decreases formats.len() - i,
{
    if i >= formats.len() {
        0
    } else {
        formats[i as int]->Fixed_0.length as nat + fixed_len_from(formats, i + 1)
    }
}

/// Whether the spare fields of the Fixed items from the `i`-th on, each
/// where the one before ends in `input`, hold zero.
pub open spec fn merge_spares_zero(input: Seq<u8>, formats: Seq<Format>, i: nat) -> bool
    decreases formats.len() - i,
{
    if i >= formats.len() {
        true
    } else {
        let f = formats[i as int]->Fixed_0;
        spares_zero(f.bits@, bytes_bits(input), (f.length * 8) as nat)
            && merge_spares_zero(input.skip(f.length as int), formats, i + 1)
    }
}

/// One step of reading merged items: a Fixed item.
proof fn lemma_merge_step(input: Seq<u8>, formats: Seq<Format>, i: nat, acc: ObjectV)
    requires
        i < formats.len(),
        formats[i as int] is Fixed,
        crate::read_asterix::items_merge(input, formats, i, acc) is Ok,
    ensures
        spec_read_fixed(input, formats[i as int]->Fixed_0) is Ok,
        spec_read_fixed(input, formats[i as int]->Fixed_0)->Ok_0.1 is None,
        ({
            let (o, fx, rest) = spec_read_fixed(input, formats[i as int]->Fixed_0)->Ok_0;
            crate::read_asterix::items_merge(input, formats, i, acc)
                == crate::read_asterix::items_merge(rest, formats, i + 1, crate::value::obj_extend(acc, o))
        }),
{
    let f = formats[i as int]->Fixed_0;
    assert(formats[i as int] == Format::Fixed(f));
    let r = crate::read_asterix::spec_read_field(input, Format::Fixed(f));
    if spec_read_fixed(input, f) is Err {
        assert(r is Err);
        assert(crate::read_asterix::items_merge(input, formats, i, acc) is Err);
    } else if spec_read_fixed(input, f)->Ok_0.1 is Some {
        assert(r is Err);
        assert(crate::read_asterix::items_merge(input, formats, i, acc) is Err);
    } else {
        let (o, fx, rest) = spec_read_fixed(input, f)->Ok_0;
        assert(r == Ok::<(ValueV, Seq<u8>), crate::error::Fail>((ValueV::Object(o), rest)));
    }
}

/// Merging the Fixed items from the `i`-th on keeps the value of a key that
/// none of their named fields has.
proof fn lemma_merge_keeps(input: Seq<u8>, formats: Seq<Format>, i: nat, acc: ObjectV, k: Seq<char>)
    requires
        all_rewritable(formats),
        crate::read_asterix::items_merge(input, formats, i, acc) is Ok,
        forall|i2: int, j: int| i <= i2 < formats.len() && 0 <= j < formats[i2]->Fixed_0.bits@.len()
            && named_field(#[trigger] formats[i2]->Fixed_0.bits@[j]) ==> formats[i2]->Fixed_0.bits@[j].short_name@ != k,
    ensures
        obj_get(crate::read_asterix::items_merge(input, formats, i, acc)->Ok_0.0, k) == obj_get(acc, k),
    decreases formats.len() - i,
{
    if i < formats.len() {
        assert(formats[i as int] is Fixed && rewritable_fixed(formats[i as int]->Fixed_0));
        let f = formats[i as int]->Fixed_0;
        lemma_merge_step(input, formats, i, acc);
        let (o, fx, rest) = spec_read_fixed(input, f)->Ok_0;
        let total = (f.length * 8) as nat;
        lemma_read_keeps(f.bits@, 0, bytes_bits(input), total, 0, Seq::empty(), None, k);
        assert(obj_get(Seq::<(Seq<char>, ValueV)>::empty(), k) is None);
        crate::value::lemma_obj_find(o, k);
        if obj_find(o, k) is Some {
            let m = obj_find(o, k)->Some_0;
            assert(o[m].0 == k);
            assert(obj_get(o, k) is Some);
        }
        lemma_get_extend(acc, o, k);
        lemma_merge_keeps(rest, formats, i + 1, crate::value::obj_extend(acc, o), k);
    }
}

/// The object merging reads agrees with the `i`-th item's own object on
/// its named fields, where no other item names them.
#[verifier::spinoff_prover]
proof fn lemma_merge_agree(input: Seq<u8>, formats: Seq<Format>, i: nat, acc: ObjectV, wo: ObjectV)
    requires
        all_rewritable(formats),
        names_apart(formats),
        i < formats.len(),
        crate::read_asterix::items_merge(input, formats, i, acc) is Ok,
        agrees_on(formats[i as int]->Fixed_0.bits@, 0, wo, crate::read_asterix::items_merge(input, formats, i, acc)->Ok_0.0),
    ensures
        spec_read_fixed(input, formats[i as int]->Fixed_0) is Ok,
        agrees_on(formats[i as int]->Fixed_0.bits@, 0, wo, spec_read_fixed(input, formats[i as int]->Fixed_0)->Ok_0.0),
{
    let m = crate::read_asterix::items_merge(input, formats, i, acc)->Ok_0.0;
    assert(formats[i as int] is Fixed && rewritable_fixed(formats[i as int]->Fixed_0));
    let f = formats[i as int]->Fixed_0;
    lemma_merge_step(input, formats, i, acc);
    let (o, fx, rest1) = spec_read_fixed(input, f)->Ok_0;
    let acc2 = crate::value::obj_extend(acc, o);
    let total = (f.length * 8) as nat;
    lemma_read_sets(f.bits@, 0, bytes_bits(input), total, 0, Seq::empty(), None);
    assert forall|j: int| 0 <= j < f.bits@.len() && named_field(#[trigger] f.bits@[j])
        implies obj_get(wo, f.bits@[j].short_name@) == obj_get(o, f.bits@[j].short_name@) by {
        let name = f.bits@[j].short_name@;
        assert forall|i2: int, j2: int| i + 1 <= i2 < formats.len() && 0 <= j2 < formats[i2]->Fixed_0.bits@.len()
            && named_field(#[trigger] formats[i2]->Fixed_0.bits@[j2]) implies formats[i2]->Fixed_0.bits@[j2].short_name@ != name by {
            assert(named_field(formats[i as int]->Fixed_0.bits@[j]));
        }
        lemma_merge_keeps(rest1, formats, i + 1, acc2, name);
        assert(obj_get(o, name) is Some);
        crate::value::lemma_obj_find(o, name);
        lemma_get_extend(acc, o, name);
    }
}

/// One step of writing items from one value: a Fixed item.
proof fn lemma_formats_write_step(formats: Seq<Format>, v: ValueV, i: nat, wacc: Seq<u8>, f: Fixed, w: Seq<u8>)
    requires
        i < formats.len(),
        formats[i as int] == Format::Fixed(f),
        spec_write_fixed(f, v, None) == Ok::<Seq<u8>, crate::error::Fail>(w),
    ensures
        crate::write_asterix::formats_write(formats, v, i, wacc) == crate::write_asterix::formats_write(formats, v, i + 1, wacc + w),
{
    assert(crate::write_asterix::spec_write_field(formats[i as int], v) == Ok::<Seq<u8>, crate::error::Fail>(w));
}

/// Writing the Fixed items from the `i`-th on, each from an object that
/// agrees on its named fields with the object that merging them gave,
/// gives back the bytes read.
#[verifier::spinoff_prover]
proof fn lemma_merge_rewrite(input: Seq<u8>, formats: Seq<Format>, i: nat, acc: ObjectV, wo: ObjectV, wacc: Seq<u8>)
    requires
        all_rewritable(formats),
        names_apart(formats),
        merge_spares_zero(input, formats, i),
        crate::read_asterix::items_merge(input, formats, i, acc) is Ok,
        forall|i2: int| i <= i2 < formats.len()
            ==> agrees_on((#[trigger] formats[i2])->Fixed_0.bits@, 0, wo, crate::read_asterix::items_merge(input, formats, i, acc)->Ok_0.0),
    ensures
        fixed_len_from(formats, i) <= input.len(),
        crate::read_asterix::items_merge(input, formats, i, acc)->Ok_0.1 == input.skip(fixed_len_from(formats, i) as int),
        crate::write_asterix::formats_write(formats, ValueV::Object(wo), i, wacc)
            == Ok::<Seq<u8>, crate::error::Fail>(wacc + input.take(fixed_len_from(formats, i) as int)),
    decreases formats.len() - i,
{
    let m = crate::read_asterix::items_merge(input, formats, i, acc)->Ok_0.0;
    if i >= formats.len() {
        assert(input.skip(0) =~= input);
        assert(wacc + input.take(0) =~= wacc);
    } else {
        assert(formats[i as int] is Fixed && rewritable_fixed(formats[i as int]->Fixed_0));
        let f = formats[i as int]->Fixed_0;
        lemma_merge_step(input, formats, i, acc);
        let (o, fx, rest1) = spec_read_fixed(input, f)->Ok_0;
        let acc2 = crate::value::obj_extend(acc, o);
        lemma_merge_agree(input, formats, i, acc, wo);
        lemma_fixed_rewrite_from(f, input, wo);
        let len = f.length as nat;
        let w = input.take(len as int);
        assert(rest1 == input.skip(len as int));
        lemma_merge_rewrite(rest1, formats, i + 1, acc2, wo, wacc + w);
        lemma_formats_write_step(formats, ValueV::Object(wo), i, wacc, f, w);
        assert(rest1.skip(fixed_len_from(formats, i + 1) as int) =~= input.skip(fixed_len_from(formats, i) as int));
        assert((wacc + w) + rest1.take(fixed_len_from(formats, i + 1) as int) =~= wacc + input.take(fixed_len_from(formats, i) as int));
    }
}

/// The bytes of `count` repetitions of the Fixed items.
pub open spec fn rep_bytes(formats: Seq<Format>, count: nat) -> nat
    decreases count,
{
    if count == 0 {
        0
    } else {
        fixed_len_from(formats, 0) + rep_bytes(formats, (count - 1) as nat)
    }
}

/// Whether the spare fields of `count` repetitions of the Fixed items, each
/// where the one before ends in `input`, hold zero.
pub open spec fn rep_spares_zero(input: Seq<u8>, formats: Seq<Format>, count: nat) -> bool
    decreases count,
{
    if count == 0 {
        true
    } else {
        merge_spares_zero(input, formats, 0) && rep_spares_zero(input.skip(fixed_len_from(formats, 0) as int), formats, (count - 1) as nat)
    }
}

/// Writing repetitions of the Fixed items from the objects that reading
/// them gave gives back the bytes read.
#[verifier::spinoff_prover]
proof fn lemma_rep_rewrite(input: Seq<u8>, formats: Seq<Format>, count: nat, racc: Seq<ValueV>, wacc: Seq<u8>)
    requires
        all_rewritable(formats),
        names_apart(formats),
        rep_spares_zero(input, formats, count),
        crate::read_asterix::rep_loop(input, formats, count, racc) is Ok,
    ensures
        ({
            let (v, rest) = crate::read_asterix::rep_loop(input, formats, count, racc)->Ok_0;
            &&& v is Array
            &&& v->Array_0.len() == racc.len() + count
            &&& forall|m: int| 0 <= m < racc.len() ==> #[trigger] v->Array_0[m] == racc[m]
            &&& rep_bytes(formats, count) <= input.len()
            &&& rest == input.skip(rep_bytes(formats, count) as int)
            &&& crate::write_asterix::rep_write(formats, v->Array_0, racc.len(), wacc)
                == Ok::<Seq<u8>, crate::error::Fail>(wacc + input.take(rep_bytes(formats, count) as int))
        }),
    decreases count,
{
    let (v, rest) = crate::read_asterix::rep_loop(input, formats, count, racc)->Ok_0;
    if count == 0 {
        assert(input.skip(0) =~= input);
        assert(wacc + input.take(0) =~= wacc);
    } else {
        let (m, rest1) = crate::read_asterix::items_merge(input, formats, 0, Seq::empty())->Ok_0;
        let racc2 = racc.push(ValueV::Object(m));
        assert(crate::read_asterix::rep_loop(input, formats, count, racc)
            == crate::read_asterix::rep_loop(rest1, formats, (count - 1) as nat, racc2));
        lemma_merge_rewrite(input, formats, 0, Seq::empty(), m, Seq::empty());
        let len = fixed_len_from(formats, 0);
        let w = input.take(len as int);
        assert(Seq::<u8>::empty() + w =~= w);
        lemma_rep_rewrite(rest1, formats, (count - 1) as nat, racc2, wacc + w);
        let a = v->Array_0;
        assert(a[racc.len() as int] == racc2[racc.len() as int]);
        assert(crate::write_asterix::rep_write(formats, a, racc.len(), wacc)
            == crate::write_asterix::rep_write(formats, a, racc.len() + 1, wacc + w));
        assert(rest1.skip(rep_bytes(formats, (count - 1) as nat) as int) =~= input.skip(rep_bytes(formats, count) as int));
        assert((wacc + w) + rest1.take(rep_bytes(formats, (count - 1) as nat) as int) =~= wacc + input.take(rep_bytes(formats, count) as int));
    }
}

/// Whether the spare fields of the repetitions of a Variable's one Fixed
/// part, each where the one before ends in `input`, hold zero.
pub open spec fn var_spares_zero(input: Seq<u8>, fixed: Fixed) -> bool
    decreases input.len(),
{
    &&& spares_zero(fixed.bits@, bytes_bits(input), (fixed.length * 8) as nat)
    &&& match spec_read_fixed(input, fixed) {
        Ok((_, Some(true), rest)) => {
            proof {
                crate::read_asterix::lemma_read_fixed_progress(input, fixed);
            }
            var_spares_zero(rest, fixed)
        },
        _ => true,
    }
}

/// Writing the repetitions of a Variable's one Fixed part from the objects
/// that reading them gave, each with its FX bit, gives back the bytes read.
#[verifier::spinoff_prover]
proof fn lemma_var_rewrite(input: Seq<u8>, fixed: Fixed, racc: Seq<ValueV>, wacc: Seq<u8>)
    requires
        rewritable_fixed(fixed),
        var_spares_zero(input, fixed),
        crate::read_asterix::var_repeat(input, fixed, racc) is Ok,
    ensures
        ({
            let (v, rest) = crate::read_asterix::var_repeat(input, fixed, racc)->Ok_0;
            &&& v is Array
            &&& v->Array_0.len() > racc.len()
            &&& forall|m: int| 0 <= m < racc.len() ==> #[trigger] v->Array_0[m] == racc[m]
            &&& rest.len() <= input.len()
            &&& rest == input.skip(input.len() - rest.len())
            &&& crate::write_asterix::var_repeat_write(fixed, v->Array_0, racc.len(), wacc)
                == Ok::<Seq<u8>, crate::error::Fail>(wacc + input.take(input.len() - rest.len()))
        }),
    decreases input.len(),
{
    let (v, rest) = crate::read_asterix::var_repeat(input, fixed, racc)->Ok_0;
    let (o, fx, rest1) = spec_read_fixed(input, fixed)->Ok_0;
    let racc2 = racc.push(ValueV::Object(o));
    lemma_fixed_rewrite_from(fixed, input, o);
    let len = fixed.length as nat;
    let w = input.take(len as int);
    assert(rest1 == input.skip(len as int));
    crate::read_asterix::lemma_read_fixed_progress(input, fixed);
    if fx == Some(true) {
        assert(crate::read_asterix::var_repeat(input, fixed, racc) == crate::read_asterix::var_repeat(rest1, fixed, racc2));
        lemma_var_rewrite(rest1, fixed, racc2, wacc + w);
        let a = v->Array_0;
        assert(a[racc.len() as int] == racc2[racc.len() as int]);
        assert(racc.len() < a.len() - 1);
        assert(crate::write_asterix::var_repeat_write(fixed, a, racc.len(), wacc)
            == crate::write_asterix::var_repeat_write(fixed, a, racc.len() + 1, wacc + w));
        assert(rest == input.skip(input.len() - rest.len())) by {
            assert(rest == rest1.skip(rest1.len() - rest.len()));
            assert(rest1.skip(rest1.len() - rest.len()) =~= input.skip(input.len() - rest.len()));
        }
        assert((wacc + w) + rest1.take(rest1.len() - rest.len()) =~= wacc + input.take(input.len() - rest.len()));
    } else {
        assert(fx == Some(false));
        assert(v == ValueV::Array(racc2) && rest == rest1);
        assert(crate::write_asterix::var_repeat_write(fixed, racc2, racc.len(), wacc)
            == crate::write_asterix::var_repeat_write(fixed, racc2, racc.len() + 1, wacc + w));
        assert(input.take(input.len() - rest.len()) =~= w);
    }
}

/// Whether a Fixed part has a named field.
pub open spec fn has_named(bits: Seq<Bits>) -> bool {
    exists|j: int| 0 <= j < bits.len() && named_field(#[trigger] bits[j])
}

/// The index of the last part of a Variable that reading from the `i`-th,
/// where `input` starts, takes: the first whose FX bit is clear.
pub open spec fn parts_last(input: Seq<u8>, formats: Seq<Format>, i: nat) -> nat
    decreases formats.len() - i,
{
    if i >= formats.len() {
        i
    } else {
        match spec_read_fixed(input, formats[i as int]->Fixed_0) {
            Ok((_, Some(true), rest)) => parts_last(rest, formats, i + 1),
            _ => i,
        }
    }
}

proof fn lemma_parts_last_ge(input: Seq<u8>, formats: Seq<Format>, i: nat)
    ensures
        parts_last(input, formats, i) >= i,
    decreases formats.len() - i,
{
    if i < formats.len() {
        match spec_read_fixed(input, formats[i as int]->Fixed_0) {
            Ok((_, Some(true), rest)) => {
                lemma_parts_last_ge(rest, formats, i + 1);
            },
            _ => {},
        }
    }
}

/// Whether the parts of a Variable that reading from the `i`-th takes, each
/// where the one before ends in `input`, are Fixed items of rewritable
/// fields whose spare fields hold zero, and the last has a named field.
pub open spec fn parts_rewritable(input: Seq<u8>, formats: Seq<Format>, i: nat) -> bool
    decreases formats.len() - i,
{
    if i >= formats.len() {
        false
    } else {
        let f = formats[i as int]->Fixed_0;
        &&& rewritable_fixed(f)
        &&& spares_zero(f.bits@, bytes_bits(input), (f.length * 8) as nat)
        &&& match spec_read_fixed(input, f) {
            Ok((_, Some(true), rest)) => parts_rewritable(rest, formats, i + 1),
            Ok((_, Some(false), _)) => has_named(f.bits@),
            _ => true,
        }
    }
}

/// Whether every format is a Fixed item.
pub open spec fn all_fixed_parts(formats: Seq<Format>) -> bool {
    forall|i: int| 0 <= i < formats.len() ==> (#[trigger] formats[i]) is Fixed
}

/// One step of reading the parts of a Variable.
proof fn lemma_parts_step(input: Seq<u8>, formats: Seq<Format>, i: nat, acc: ObjectV)
    requires
        i < formats.len(),
        formats[i as int] is Fixed,
        crate::read_asterix::var_parts(input, formats, i, acc) is Ok,
    ensures
        spec_read_fixed(input, formats[i as int]->Fixed_0) is Ok,
        spec_read_fixed(input, formats[i as int]->Fixed_0)->Ok_0.1 is Some,
        ({
            let (o, fx, rest) = spec_read_fixed(input, formats[i as int]->Fixed_0)->Ok_0;
            let acc2 = crate::value::obj_extend(acc, o);
            crate::read_asterix::var_parts(input, formats, i, acc) == if fx == Some(true) {
                crate::read_asterix::var_parts(rest, formats, i + 1, acc2)
            } else {
                Ok::<(ValueV, Seq<u8>), crate::error::Fail>((ValueV::Object(acc2), rest))
            }
        }),
{
    assert(formats[i as int] == Format::Fixed(formats[i as int]->Fixed_0));
}

/// Reading the parts of a Variable from the `i`-th on keeps the value of a
/// key that none of the parts read names, and gives an object.
#[verifier::spinoff_prover]
proof fn lemma_parts_keeps(input: Seq<u8>, formats: Seq<Format>, i: nat, acc: ObjectV, k: Seq<char>)
    requires
        all_fixed_parts(formats),
        crate::read_asterix::var_parts(input, formats, i, acc) is Ok,
        forall|i2: int, j: int| i <= i2 <= parts_last(input, formats, i) && i2 < formats.len()
            && 0 <= j < formats[i2]->Fixed_0.bits@.len()
            && named_field(#[trigger] formats[i2]->Fixed_0.bits@[j]) ==> formats[i2]->Fixed_0.bits@[j].short_name@ != k,
    ensures
        crate::read_asterix::var_parts(input, formats, i, acc)->Ok_0.0 is Object,
        obj_get(crate::read_asterix::var_parts(input, formats, i, acc)->Ok_0.0->Object_0, k) == obj_get(acc, k),
    decreases formats.len() - i,
{
    if i < formats.len() {
        let f = formats[i as int]->Fixed_0;
        lemma_parts_step(input, formats, i, acc);
        lemma_parts_last_ge(input, formats, i);
        let (o, fx, rest) = spec_read_fixed(input, f)->Ok_0;
        let total = (f.length * 8) as nat;
        assert forall|j: int| 0 <= j < f.bits@.len() && named_field(#[trigger] f.bits@[j]) implies f.bits@[j].short_name@ != k by {
            assert(named_field(formats[i as int]->Fixed_0.bits@[j]));
        }
        lemma_read_keeps(f.bits@, 0, bytes_bits(input), total, 0, Seq::empty(), None, k);
        assert(obj_get(Seq::<(Seq<char>, ValueV)>::empty(), k) is None);
        crate::value::lemma_obj_find(o, k);
        if obj_find(o, k) is Some {
            let m = obj_find(o, k)->Some_0;
            assert(o[m].0 == k);
            assert(obj_get(o, k) is Some);
        }
        lemma_get_extend(acc, o, k);
        if fx == Some(true) {
            assert(parts_last(input, formats, i) == parts_last(rest, formats, i + 1));
            lemma_parts_keeps(rest, formats, i + 1, crate::value::obj_extend(acc, o), k);
        }
    }
}

/// Reading the parts of a Variable from the `i`-th on, and writing them
/// from an object that agrees with the object read on the named fields of
/// the parts read, each with its FX bit, gives back the bytes read; the
/// object read has every named field of the parts read.
#[verifier::spinoff_prover]
#[verifier::rlimit(40)]
proof fn lemma_parts_rewrite(input: Seq<u8>, formats: Seq<Format>, i: nat, acc: ObjectV, wo: ObjectV, wacc: Seq<u8>)
    requires
        all_fixed_parts(formats),
        names_apart(formats),
        parts_rewritable(input, formats, i),
        crate::read_asterix::var_parts(input, formats, i, acc) is Ok,
        forall|i2: int| i <= i2 <= parts_last(input, formats, i) && i2 < formats.len()
            ==> agrees_on((#[trigger] formats[i2])->Fixed_0.bits@, 0, wo,
                crate::read_asterix::var_parts(input, formats, i, acc)->Ok_0.0->Object_0),
    ensures
        ({
            let (v, rest) = crate::read_asterix::var_parts(input, formats, i, acc)->Ok_0;
            let last = parts_last(input, formats, i);
            &&& v is Object
            &&& i <= last < formats.len()
            &&& has_named(formats[last as int]->Fixed_0.bits@)
            &&& forall|i2: int, j: int| i <= i2 <= last && 0 <= j < formats[i2]->Fixed_0.bits@.len()
                && named_field(#[trigger] formats[i2]->Fixed_0.bits@[j]) ==> obj_get(v->Object_0, formats[i2]->Fixed_0.bits@[j].short_name@) is Some
            &&& rest.len() <= input.len()
            &&& input == input.take(input.len() - rest.len()) + rest
            &&& crate::write_asterix::var_parts_write(formats, ValueV::Object(wo), last, i, wacc)
                == Ok::<Seq<u8>, crate::error::Fail>(wacc + input.take(input.len() - rest.len()))
        }),
    decreases formats.len() - i,
{
    let (v, rest) = crate::read_asterix::var_parts(input, formats, i, acc)->Ok_0;
    let last = parts_last(input, formats, i);
    lemma_parts_last_ge(input, formats, i);
    assert(i < formats.len());
    let f = formats[i as int]->Fixed_0;
    lemma_parts_step(input, formats, i, acc);
    let (o, fx, rest1) = spec_read_fixed(input, f)->Ok_0;
    let acc2 = crate::value::obj_extend(acc, o);
    let m = v->Object_0;
    let total = (f.length * 8) as nat;
    lemma_read_sets(f.bits@, 0, bytes_bits(input), total, 0, Seq::empty(), None);
    // the object read gives the named fields of this part their values here
    assert forall|j: int| 0 <= j < f.bits@.len() && named_field(#[trigger] f.bits@[j])
        implies obj_get(m, f.bits@[j].short_name@) == obj_get(o, f.bits@[j].short_name@) by {
        let name = f.bits@[j].short_name@;
        crate::value::lemma_obj_find(o, name);
        lemma_get_extend(acc, o, name);
        if fx == Some(true) {
            assert(parts_last(input, formats, i) == parts_last(rest1, formats, i + 1));
            assert forall|i2: int, j2: int| i + 1 <= i2 <= parts_last(rest1, formats, i + 1) && i2 < formats.len()
                && 0 <= j2 < formats[i2]->Fixed_0.bits@.len()
                && named_field(#[trigger] formats[i2]->Fixed_0.bits@[j2]) implies formats[i2]->Fixed_0.bits@[j2].short_name@ != name by {
                assert(named_field(formats[i as int]->Fixed_0.bits@[j]));
            }
            lemma_parts_keeps(rest1, formats, i + 1, acc2, name);
        }
    }
    assert(agrees_on(f.bits@, 0, wo, o)) by {
        assert(agrees_on(formats[i as int]->Fixed_0.bits@, 0, wo, m));
    }
    lemma_fixed_rewrite_from(f, input, wo);
    let len = f.length as nat;
    let w = input.take(len as int);
    assert(rest1 == input.skip(len as int));
    crate::read_asterix::lemma_read_fixed_progress(input, f);
    if fx == Some(true) {
        assert(last == parts_last(rest1, formats, i + 1));
        lemma_parts_rewrite(rest1, formats, i + 1, acc2, wo, wacc + w);
        assert(i < last);
        assert(formats[i as int] == Format::Fixed(f));
        assert(crate::write_asterix::var_parts_write(formats, ValueV::Object(wo), last, i, wacc)
            == crate::write_asterix::var_parts_write(formats, ValueV::Object(wo), last, i + 1, wacc + w));
        assert(rest1 =~= rest1.take(rest1.len() - rest.len()) + rest);
        assert(input.take(input.len() - rest.len()) =~= w + rest1.take(rest1.len() - rest.len()));
        assert(input =~= w + rest1);
        assert(input =~= input.take(input.len() - rest.len()) + rest);
        assert((wacc + w) + rest1.take(rest1.len() - rest.len()) =~= wacc + input.take(input.len() - rest.len()));
    } else {
        assert(fx == Some(false));
        assert(last == i);
        assert(formats[i as int] == Format::Fixed(f));
        assert(crate::write_asterix::var_parts_write(formats, ValueV::Object(wo), last, i, wacc)
            == crate::write_asterix::var_parts_write(formats, ValueV::Object(wo), last, i + 1, wacc + w));
        assert(input.take(input.len() - rest.len()) =~= w);
        assert(input =~= w + rest);
    }
}

/// A part has a field with a value in `o` exactly where one of its named
/// fields has one.
proof fn lemma_part_has_field(bits: Seq<Bits>, j: nat, o: ObjectV)
    ensures
        crate::write_asterix::part_has_field(bits, j, o) == exists|k: int| j <= k < bits.len()
            && named_field(#[trigger] bits[k]) && obj_get(o, bits[k].short_name@) is Some,
    decreases bits.len() - j,
{
    if j < bits.len() {
        lemma_part_has_field(bits, j + 1, o);
        if exists|k: int| j <= k < bits.len() && named_field(#[trigger] bits[k]) && obj_get(o, bits[k].short_name@) is Some {
            let k = choose|k: int| j <= k < bits.len() && named_field(#[trigger] bits[k]) && obj_get(o, bits[k].short_name@) is Some;
            if k > j {
                assert(j + 1 <= k);
            }
        }
        if crate::write_asterix::part_has_field(bits, j + 1, o) {
            let k = choose|k: int| j + 1 <= k < bits.len() && named_field(#[trigger] bits[k]) && obj_get(o, bits[k].short_name@) is Some;
            assert(j <= k);
        }
    }
}

/// The last part with a field in an object that has every named field of
/// the parts up to `last`, which has one, and none of those after.
#[verifier::spinoff_prover]
proof fn lemma_last_used(formats: Seq<Format>, m: ObjectV, idx: nat, cur: Option<nat>, last: nat)
    requires
        all_fixed_parts(formats),
        last < formats.len(),
        has_named(formats[last as int]->Fixed_0.bits@),
        forall|i2: int, j: int| 0 <= i2 <= last && 0 <= j < formats[i2]->Fixed_0.bits@.len()
            && named_field(#[trigger] formats[i2]->Fixed_0.bits@[j]) ==> obj_get(m, formats[i2]->Fixed_0.bits@[j].short_name@) is Some,
        forall|i2: int, j: int| last < i2 < formats.len() && 0 <= j < formats[i2]->Fixed_0.bits@.len()
            && named_field(#[trigger] formats[i2]->Fixed_0.bits@[j]) ==> obj_get(m, formats[i2]->Fixed_0.bits@[j].short_name@) is None,
    ensures
        idx <= last ==> crate::write_asterix::last_used_part(formats, m, idx, cur) == Ok::<Option<nat>, crate::error::Fail>(Some(last)),
        idx > last ==> crate::write_asterix::last_used_part(formats, m, idx, cur) == Ok::<Option<nat>, crate::error::Fail>(cur),
    decreases formats.len() - idx,
{
    if idx < formats.len() {
        let f = formats[idx as int]->Fixed_0;
        assert(formats[idx as int] == Format::Fixed(f));
        lemma_part_has_field(f.bits@, 0, m);
        let has = crate::write_asterix::part_has_field(f.bits@, 0, m);
        if idx <= last {
            if has_named(f.bits@) {
                let k = choose|k: int| 0 <= k < f.bits@.len() && named_field(#[trigger] f.bits@[k]);
                assert(obj_get(m, f.bits@[k].short_name@) is Some);
                assert(has);
            }
        } else {
            if has {
                let k = choose|k: int| 0 <= k < f.bits@.len() && named_field(#[trigger] f.bits@[k]) && obj_get(m, f.bits@[k].short_name@) is Some;
                assert(obj_get(m, formats[idx as int]->Fixed_0.bits@[k].short_name@) is None);
            }
        }
        lemma_last_used(formats, m, idx + 1, if has { Some(idx) } else { cur }, last);
    }
}

/// A Variable of several Fixed parts, whose parts read are rewritable, is
/// written back, from the object that reading it gave, as the bytes read.
#[verifier::spinoff_prover]
proof fn lemma_var_parts_rewrite(input: Seq<u8>, var: Variable)
    requires
        var.formats@.len() != 1,
        all_fixed_parts(var.formats@),
        names_apart(var.formats@),
        parts_rewritable(input, var.formats@, 0),
        spec_read_field(input, Format::Variable(var)) is Ok,
    ensures
        spec_write_field(Format::Variable(var), spec_read_field(input, Format::Variable(var))->Ok_0.0) is Ok,
        input == spec_write_field(Format::Variable(var), spec_read_field(input, Format::Variable(var))->Ok_0.0)->Ok_0
            + spec_read_field(input, Format::Variable(var))->Ok_0.1,
{
    let formats = var.formats@;
    let (v, rest) = crate::read_asterix::var_parts(input, formats, 0, Seq::empty())->Ok_0;
    let m = v->Object_0;
    lemma_parts_rewrite(input, formats, 0, Seq::empty(), m, Seq::empty());
    let last = parts_last(input, formats, 0);
    assert forall|i2: int, j: int| last < i2 < formats.len() && 0 <= j < formats[i2]->Fixed_0.bits@.len()
        && named_field(#[trigger] formats[i2]->Fixed_0.bits@[j]) implies obj_get(m, formats[i2]->Fixed_0.bits@[j].short_name@) is None by {
        let name = formats[i2]->Fixed_0.bits@[j].short_name@;
        assert forall|i3: int, j3: int| 0 <= i3 <= parts_last(input, formats, 0) && i3 < formats.len()
            && 0 <= j3 < formats[i3]->Fixed_0.bits@.len()
            && named_field(#[trigger] formats[i3]->Fixed_0.bits@[j3]) implies formats[i3]->Fixed_0.bits@[j3].short_name@ != name by {
            assert(named_field(formats[i2]->Fixed_0.bits@[j]));
        }
        lemma_parts_keeps(input, formats, 0, Seq::empty(), name);
        assert(obj_get(Seq::<(Seq<char>, ValueV)>::empty(), name) is None);
    }
    lemma_last_used(formats, m, 0, None, last);
    assert(Seq::<u8>::empty() + input.take(input.len() - rest.len()) =~= input.take(input.len() - rest.len()));
}

/// An item that writing gives back as read: a Fixed item of rewritable
/// fields, a Variable of one such part, or a Variable of several Fixed
/// parts, or an Explicit or a Repetitive of rewritable Fixed items, whose
/// named fields differ from part to part.
pub open spec fn rewritable_format(f: Format) -> bool {
    match f {
        Format::Fixed(x) => rewritable_fixed(x),
        Format::Variable(v) => if v.formats@.len() == 1 {
            v.formats@[0] is Fixed && rewritable_fixed(v.formats@[0]->Fixed_0)
        } else {
            all_fixed_parts(v.formats@) && names_apart(v.formats@)
        },
        Format::Explicit(e) => all_rewritable(e.formats@) && names_apart(e.formats@),
        Format::Repetitive(r) => all_rewritable(r.formats@) && names_apart(r.formats@),
        _ => false,
    }
}

/// Whether the spare fields of an item at the start of `input` hold zero.
pub open spec fn item_spares_zero(input: Seq<u8>, f: Format) -> bool {
    match f {
        Format::Fixed(x) => spares_zero(x.bits@, bytes_bits(input), (x.length * 8) as nat),
        Format::Variable(v) => if v.formats@.len() == 1 {
            var_spares_zero(input, v.formats@[0]->Fixed_0)
        } else {
            parts_rewritable(input, v.formats@, 0)
        },
        Format::Explicit(e) => input.len() > 0 && merge_spares_zero(input.skip(1).take(input[0] as int - 1), e.formats@, 0),
        Format::Repetitive(r) => input.len() > 0 && rep_spares_zero(input.skip(1), r.formats@, input[0] as nat),
        _ => true,
    }
}

/// An item of rewritable fields whose spare fields hold zero is written
/// back, from the value that reading it gave, as the bytes it was read
/// from: the bytes read are those written, then what follows the item.
#[verifier::spinoff_prover]
pub proof fn lemma_item_rewrite(f: Format, input: Seq<u8>)
    requires
        rewritable_format(f),
        item_spares_zero(input, f),
        spec_read_field(input, f) is Ok,
    ensures
        spec_write_field(f, spec_read_field(input, f)->Ok_0.0) is Ok,
        input == spec_write_field(f, spec_read_field(input, f)->Ok_0.0)->Ok_0 + spec_read_field(input, f)->Ok_0.1,
{
    match f {
        Format::Fixed(x) => lemma_fixed_item_rewrite(x, input),
        Format::Variable(var) => if var.formats@.len() != 1 {
            lemma_var_parts_rewrite(input, var);
        } else {
            lemma_var_one_rewrite(input, var);
        },
        Format::Explicit(e) => lemma_explicit_rewrite(input, e),
        Format::Repetitive(r) => lemma_rep_item_rewrite(input, r),
        _ => {},
    }
}

/// An Explicit of Fixed items is written back as read.
proof fn lemma_explicit_rewrite(input: Seq<u8>, e: Explicit)
    requires
        all_rewritable(e.formats@),
        names_apart(e.formats@),
        input.len() > 0,
        merge_spares_zero(input.skip(1).take(input[0] as int - 1), e.formats@, 0),
        spec_read_field(input, Format::Explicit(e)) is Ok,
    ensures
        spec_write_field(Format::Explicit(e), spec_read_field(input, Format::Explicit(e))->Ok_0.0) is Ok,
        input == spec_write_field(Format::Explicit(e), spec_read_field(input, Format::Explicit(e))->Ok_0.0)->Ok_0
            + spec_read_field(input, Format::Explicit(e))->Ok_0.1,
{
    let length = input[0] as int - 1;
    let body = input.skip(1).take(length);
    let (m, left) = crate::read_asterix::items_merge(body, e.formats@, 0, Seq::empty())->Ok_0;
    assert forall|i2: int| 0 <= i2 < e.formats@.len()
        implies agrees_on((#[trigger] e.formats@[i2])->Fixed_0.bits@, 0, m, m) by {}
    lemma_merge_rewrite(body, e.formats@, 0, Seq::empty(), m, Seq::empty());
    let n = fixed_len_from(e.formats@, 0);
    assert(left.len() == 0);
    assert(n == body.len());
    assert(body.take(n as int) =~= body);
    assert(Seq::<u8>::empty() + body =~= body);
    assert(input =~= seq![input[0]] + body + input.skip(1).skip(length));
}

/// A Fixed item, read alone, is written back as read.
proof fn lemma_fixed_item_rewrite(x: Fixed, input: Seq<u8>)
    requires
        rewritable_fixed(x),
        spares_zero(x.bits@, bytes_bits(input), (x.length * 8) as nat),
        spec_read_field(input, Format::Fixed(x)) is Ok,
    ensures
        spec_write_field(Format::Fixed(x), spec_read_field(input, Format::Fixed(x))->Ok_0.0) is Ok,
        input == spec_write_field(Format::Fixed(x), spec_read_field(input, Format::Fixed(x))->Ok_0.0)->Ok_0
            + spec_read_field(input, Format::Fixed(x))->Ok_0.1,
{
    let (o, fx, rest1) = spec_read_fixed(input, x)->Ok_0;
    lemma_fixed_rewrite_from(x, input, o);
    assert(input =~= input.take(x.length as int) + input.skip(x.length as int));
}

/// A Variable of one Fixed part is written back as read.
proof fn lemma_var_one_rewrite(input: Seq<u8>, var: Variable)
    requires
        var.formats@.len() == 1,
        var.formats@[0] is Fixed,
        rewritable_fixed(var.formats@[0]->Fixed_0),
        var_spares_zero(input, var.formats@[0]->Fixed_0),
        spec_read_field(input, Format::Variable(var)) is Ok,
    ensures
        spec_write_field(Format::Variable(var), spec_read_field(input, Format::Variable(var))->Ok_0.0) is Ok,
        input == spec_write_field(Format::Variable(var), spec_read_field(input, Format::Variable(var))->Ok_0.0)->Ok_0
            + spec_read_field(input, Format::Variable(var))->Ok_0.1,
{
    let (v, rest) = spec_read_field(input, Format::Variable(var))->Ok_0;
    let fixed = var.formats@[0]->Fixed_0;
    assert(var.formats@[0] == Format::Fixed(fixed));
    lemma_var_rewrite(input, fixed, Seq::empty(), Seq::empty());
    assert(Seq::<u8>::empty() + input.take(input.len() - rest.len()) =~= input.take(input.len() - rest.len()));
    assert(input =~= input.take(input.len() - rest.len()) + input.skip(input.len() - rest.len()));
}

/// A Repetitive of Fixed items is written back as read.
proof fn lemma_rep_item_rewrite(input: Seq<u8>, r: Repetitive)
    requires
        all_rewritable(r.formats@),
        names_apart(r.formats@),
        input.len() > 0,
        rep_spares_zero(input.skip(1), r.formats@, input[0] as nat),
        spec_read_field(input, Format::Repetitive(r)) is Ok,
    ensures
        spec_write_field(Format::Repetitive(r), spec_read_field(input, Format::Repetitive(r))->Ok_0.0) is Ok,
        input == spec_write_field(Format::Repetitive(r), spec_read_field(input, Format::Repetitive(r))->Ok_0.0)->Ok_0
            + spec_read_field(input, Format::Repetitive(r))->Ok_0.1,
{
    let (v, rest) = spec_read_field(input, Format::Repetitive(r))->Ok_0;
    let count = input[0] as nat;
    let body = input.skip(1);
    lemma_rep_rewrite(body, r.formats@, count, Seq::empty(), seq![count as u8]);
    let a = v->Array_0;
    assert(a.len() == count && count <= 255);
    let n = rep_bytes(r.formats@, count);
    assert(seq![count as u8] + body.take(n as int) + body.skip(n as int) =~= input);
}

/// The format of the data item of a present item, if the category has it.
pub open spec fn present_format(cat: Category, it: PresentItem) -> Option<Format> {
    if it.index < cat.data_items@.len() {
        Some(cat.data_items@[it.index as int].format.format)
    } else {
        None
    }
}

/// A Fixed item of rewritable fields, no two named alike.
pub open spec fn rewritable_fixed(f: Fixed) -> bool {
    &&& forall|j: int| 0 <= j < f.bits@.len() ==> rewritable_field(#[trigger] f.bits@[j])
    &&& distinct_names(f.bits@, 0)
}

/// What follows the present items from the `k`-th on, each read where the
/// one before ends in `data`.
pub open spec fn items_end(data: Seq<u8>, cat: Category, p: Seq<PresentItem>, k: nat) -> Seq<u8>
    decreases p.len() - k,
{
    if k >= p.len() {
        data
    } else {
        match spec_read_field(data, present_format(cat, p[k as int])->Some_0) {
            Ok((_, rest)) => items_end(rest, cat, p, k + 1),
            Err(_) => data,
        }
    }
}

/// Whether the spare fields of the present items from the `k`-th on, each
/// read where the one before ends in `data`, hold zero.
pub open spec fn items_spares_zero(data: Seq<u8>, cat: Category, p: Seq<PresentItem>, k: nat) -> bool
    decreases p.len() - k,
{
    if k >= p.len() {
        true
    } else {
        let f = present_format(cat, p[k as int])->Some_0;
        &&& item_spares_zero(data, f)
        &&& match spec_read_field(data, f) {
            Ok((_, rest)) => items_spares_zero(rest, cat, p, k + 1),
            Err(_) => true,
        }
    }
}

/// The items written for present items: their FRNs, data items, and the
/// places of their entries.
pub open spec fn present_writes(p: Seq<PresentItem>) -> Seq<WriteItem> {
    Seq::new(p.len(), |m: int| (p[m].frn, p[m].index, m as usize))
}

/// One step of reading present items.
proof fn lemma_read_step(data: Seq<u8>, cat: Category, p: Seq<PresentItem>, k: nat, acc: ObjectV, f: Format)
    requires
        k < p.len(),
        present_format(cat, p[k as int]) == Some(f),
        record_items(data, cat, p, k, acc) is Ok,
    ensures
        spec_read_field(data, f) is Ok,
        ({
            let (v, rest) = spec_read_field(data, f)->Ok_0;
            record_items(data, cat, p, k, acc) == record_items(rest, cat, p, k + 1, obj_insert(acc, p[k as int].key@, v))
        }),
{
}

/// One step of writing items.
proof fn lemma_write_step(cat: Category, o: ObjectV, ws: Seq<WriteItem>, k: nat, wacc: Seq<u8>, w: Seq<u8>)
    requires
        k < ws.len(),
        ws[k as int].1 < cat.data_items@.len(),
        ws[k as int].2 < o.len(),
        spec_write_field(cat.data_items@[ws[k as int].1 as int].format.format, o[ws[k as int].2 as int].1)
            == Ok::<Seq<u8>, crate::error::Fail>(w),
    ensures
        record_write(cat, o, ws, k, wacc) == record_write(cat, o, ws, k + 1, wacc + w),
{
}

/// Reading the present items from the `k`-th on, each of a rewritable
/// format, gives their entries in order, and writing those entries gives
/// back the bytes read, up to what follows the items.
#[verifier::spinoff_prover]
#[verifier::rlimit(50)]
proof fn lemma_items_rewrite(cat: Category, p: Seq<PresentItem>, k: nat, data: Seq<u8>, acc: ObjectV, wacc: Seq<u8>,
    e: (Seq<char>, ValueV))
    requires
        k <= p.len(),
        p.len() <= usize::MAX,
        acc.len() == k,
        forall|m: int| 0 <= m < k ==> (#[trigger] acc[m]).0 == p[m].key@
            && (present_format(cat, p[m]) matches Some(Format::Fixed(_)) ==> acc[m].1 is Object),
        forall|m1: int, m2: int| 0 <= m1 < m2 < p.len() ==> (#[trigger] p[m1]).key@ != (#[trigger] p[m2]).key@,
        forall|m: int| k <= m < p.len() ==> present_format(cat, #[trigger] p[m]) is Some
            && rewritable_format(present_format(cat, p[m])->Some_0),
        items_spares_zero(data, cat, p, k),
        record_items(data, cat, p, k, acc) is Ok,
    ensures
        ({
            let rv = record_items(data, cat, p, k, acc)->Ok_0.0;
            let end = items_end(data, cat, p, k);
            &&& record_items(data, cat, p, k, acc)->Ok_0.1 == end
            &&& rv.len() == p.len()
            &&& forall|m: int| 0 <= m < k ==> #[trigger] rv[m] == acc[m]
            &&& forall|m: int| 0 <= m < p.len() ==> (#[trigger] rv[m]).0 == p[m].key@
                && (present_format(cat, p[m]) matches Some(Format::Fixed(_)) ==> rv[m].1 is Object)
            &&& end.len() <= data.len()
            &&& data == data.take(data.len() - end.len()) + end
            &&& record_write(cat, rv.push(e), present_writes(p), k, wacc)
                == Ok::<Seq<u8>, crate::error::Fail>(wacc + data.take(data.len() - end.len()))
        }),
    decreases p.len() - k,
{
    let rv = record_items(data, cat, p, k, acc)->Ok_0.0;
    if k >= p.len() {
        assert(rv == acc);
        assert(data.take(0) =~= Seq::<u8>::empty());
        assert(data =~= Seq::<u8>::empty() + data);
        assert(wacc + Seq::<u8>::empty() =~= wacc);
    } else {
        let it = p[k as int];
        let f = present_format(cat, it)->Some_0;
        lemma_read_step(data, cat, p, k, acc, f);
        let (v, rest) = spec_read_field(data, f)->Ok_0;
        crate::value::lemma_obj_find(acc, it.key@);
        if obj_find(acc, it.key@) is Some {
            let i = obj_find(acc, it.key@)->Some_0;
            assert(acc[i].0 == p[i].key@);
        }
        let acc2 = obj_insert(acc, it.key@, v);
        assert(acc2 == acc.push((it.key@, v)));
        lemma_item_rewrite(f, data);
        let w = spec_write_field(f, v)->Ok_0;
        if f is Fixed {
            assert(v is Object);
        }
        lemma_items_rewrite(cat, p, k + 1, rest, acc2, wacc + w, e);
        assert(rv[k as int] == acc2[k as int]);
        let ws = present_writes(p);
        assert(ws[k as int] == (it.frn, it.index, k as usize));
        assert(rv.push(e)[k as int] == (it.key@, v));
        lemma_write_step(cat, rv.push(e), ws, k, wacc, w);
        let end = items_end(data, cat, p, k);
        assert(end == items_end(rest, cat, p, k + 1));
        let t = rest.take(rest.len() - end.len());
        assert(data == w + rest);
        assert(data.take(data.len() - end.len()) =~= w + t) by {
            assert(rest =~= t + end);
        }
        assert(data =~= (w + t) + end);
        assert((wacc + w) + t =~= wacc + (w + t));
    }
}

/// Sorting items already in strictly increasing FRN order keeps them.
proof fn lemma_sort_sorted(s: Seq<WriteItem>)
    requires
        forall|i: int, j: int| 0 <= i < j < s.len() ==> (#[trigger] s[i]).0 < (#[trigger] s[j]).0,
    ensures
        sort_items(s) == s,
    decreases s.len(),
{
    if s.len() > 0 {
        let d = s.drop_last();
        assert forall|i: int, j: int| 0 <= i < j < d.len() implies (#[trigger] d[i]).0 < (#[trigger] d[j]).0 by {
            assert(d[i] == s[i] && d[j] == s[j]);
        }
        lemma_sort_sorted(d);
        if d.len() > 0 {
            assert(d.last() == s[s.len() - 2]);
        }
        assert(insert_pos(d, s.last().0) == d.len());
        assert(d.insert(d.len() as int, s.last()) =~= s);
    }
}

proof fn lemma_set_bit(b: u8, k: u8)
    requires
        1 <= k <= 7,
    ensures
        (b | (1u8 << k)) & 0xfeu8 != 0,
{
    assert((b | (1u8 << k)) & 0xfeu8 != 0) by (bit_vector)
        requires
            1 <= k <= 7;
}

/// The FSPEC written for FRNs in strictly increasing order, none too
/// large, is written without fault, and its last byte announces an FRN
/// unless it is its only byte.
proof fn lemma_fspec_canonical(frns: Seq<usize>, i: nat, out: Seq<u8>, buf: u8, next: nat)
    requires
        forall|a: int, b: int| 0 <= a < b < frns.len() ==> frns[a] < frns[b],
        forall|j: int| 0 <= j < frns.len() ==> frns[j] + 14 <= usize::MAX,
        i <= frns.len(),
        7 <= next,
        forall|j: int| i <= j < frns.len() ==> frns[j] + 7 >= next,
        out.len() > 0 ==> (buf & 0xfeu8 != 0 || i < frns.len()),
    ensures
        fspec_loop(frns, i, out, buf, next) is Ok,
        ({
            let fs = fspec_loop(frns, i, out, buf, next)->Ok_0;
            fs.len() == 1 || fs.last() & 0xfeu8 != 0
        }),
    decreases frns.len() - i, (if i < frns.len() && frns[i as int] >= next { frns[i as int] + 1 - next } else { 0 }),
{
    if i < frns.len() {
        let f = frns[i as int];
        if f >= next {
            lemma_fspec_canonical(frns, i, out.push(buf | 1u8), 0, next + 7);
        } else {
            lemma_set_bit(buf, (next - f) as u8);
            assert forall|j: int| i + 1 <= j < frns.len() implies frns[j] + 7 >= next by {
                assert(frns[i as int] < frns[j]);
            }
            lemma_fspec_canonical(frns, i + 1, out, buf | (1u8 << ((next - f) as u8)), next);
        }
    }
}

/// The bit of FRN `7j + 7 - k` is bit `k` of byte `j`.
proof fn lemma_fspec_bit(a: Seq<u8>, j: nat, k: u8)
    requires
        j < a.len(),
        1 <= k <= 7,
    ensures
        fspec_has(a, (7 * j + 7 - k) as nat) == (a[j as int] & (1u8 << k) != 0),
{
    let g = (7 * j + 7 - k) as nat;
    assert(g / 7 == j && g % 7 == 7 - k);
    assert(frn_mask(g) == 1u8 << k);
}

proof fn lemma_byte_eq(x: u8, y: u8)
    requires
        x & 1u8 == y & 1u8,
        (x & (1u8 << 1u8) != 0) == (y & (1u8 << 1u8) != 0),
        (x & (1u8 << 2u8) != 0) == (y & (1u8 << 2u8) != 0),
        (x & (1u8 << 3u8) != 0) == (y & (1u8 << 3u8) != 0),
        (x & (1u8 << 4u8) != 0) == (y & (1u8 << 4u8) != 0),
        (x & (1u8 << 5u8) != 0) == (y & (1u8 << 5u8) != 0),
        (x & (1u8 << 6u8) != 0) == (y & (1u8 << 6u8) != 0),
        (x & (1u8 << 7u8) != 0) == (y & (1u8 << 7u8) != 0),
    ensures
        x == y,
{
    assert(x == y) by (bit_vector)
        requires
            x & 1u8 == y & 1u8,
            (x & (1u8 << 1u8) != 0) == (y & (1u8 << 1u8) != 0),
            (x & (1u8 << 2u8) != 0) == (y & (1u8 << 2u8) != 0),
            (x & (1u8 << 3u8) != 0) == (y & (1u8 << 3u8) != 0),
            (x & (1u8 << 4u8) != 0) == (y & (1u8 << 4u8) != 0),
            (x & (1u8 << 5u8) != 0) == (y & (1u8 << 5u8) != 0),
            (x & (1u8 << 6u8) != 0) == (y & (1u8 << 6u8) != 0),
            (x & (1u8 << 7u8) != 0) == (y & (1u8 << 7u8) != 0);
}

/// A byte with a bit other than the lowest set has one of them set.
proof fn lemma_some_bit(x: u8)
    requires
        x & 0xfeu8 != 0,
    ensures
        exists|k: u8| 1 <= k <= 7 && #[trigger] (x & (1u8 << k)) != 0,
{
    assert(x & (1u8 << 1u8) != 0 || x & (1u8 << 2u8) != 0 || x & (1u8 << 3u8) != 0 || x & (1u8 << 4u8) != 0
        || x & (1u8 << 5u8) != 0 || x & (1u8 << 6u8) != 0 || x & (1u8 << 7u8) != 0) by (bit_vector)
        requires
            x & 0xfeu8 != 0;
    if x & (1u8 << 1u8) != 0 {
        assert(x & (1u8 << 1u8) != 0);
    } else if x & (1u8 << 2u8) != 0 {
        assert(x & (1u8 << 2u8) != 0);
    } else if x & (1u8 << 3u8) != 0 {
        assert(x & (1u8 << 3u8) != 0);
    } else if x & (1u8 << 4u8) != 0 {
        assert(x & (1u8 << 4u8) != 0);
    } else if x & (1u8 << 5u8) != 0 {
        assert(x & (1u8 << 5u8) != 0);
    } else if x & (1u8 << 6u8) != 0 {
        assert(x & (1u8 << 6u8) != 0);
    } else {
        assert(x & (1u8 << 7u8) != 0);
    }
}

/// An FSPEC whose bytes but the last have the FX bit set, whose last byte
/// announces an FRN unless it is its only byte.
pub open spec fn canonical_fspec(a: Seq<u8>) -> bool {
    &&& a.len() >= 1
    &&& forall|j: int| 0 <= j < a.len() - 1 ==> #[trigger] a[j] & 1u8 == 1u8
    &&& a.last() & 1u8 == 0u8
    &&& (a.len() == 1 || a.last() & 0xfeu8 != 0)
}

/// Two canonical FSPECs that announce the same FRNs are the same.
#[verifier::spinoff_prover]
proof fn lemma_fspec_eq(a: Seq<u8>, b: Seq<u8>)
    requires
        canonical_fspec(a),
        canonical_fspec(b),
        forall|g: nat| #[trigger] fspec_has(a, g) == fspec_has(b, g),
    ensures
        a == b,
{
    assert(a.len() == b.len()) by {
        if a.len() < b.len() {
            lemma_some_bit(b.last());
            let k = choose|k: u8| 1 <= k <= 7 && #[trigger] (b.last() & (1u8 << k)) != 0;
            lemma_fspec_bit(b, (b.len() - 1) as nat, k);
            assert(!fspec_has(a, (7 * (b.len() - 1) + 7 - k) as nat));
        } else if b.len() < a.len() {
            lemma_some_bit(a.last());
            let k = choose|k: u8| 1 <= k <= 7 && #[trigger] (a.last() & (1u8 << k)) != 0;
            lemma_fspec_bit(a, (a.len() - 1) as nat, k);
            assert(!fspec_has(b, (7 * (a.len() - 1) + 7 - k) as nat));
        }
    }
    assert forall|j: int| 0 <= j < a.len() implies a[j] == b[j] by {
        lemma_fspec_bit(a, j as nat, 1);
        lemma_fspec_bit(b, j as nat, 1);
        lemma_fspec_bit(a, j as nat, 2);
        lemma_fspec_bit(b, j as nat, 2);
        lemma_fspec_bit(a, j as nat, 3);
        lemma_fspec_bit(b, j as nat, 3);
        lemma_fspec_bit(a, j as nat, 4);
        lemma_fspec_bit(b, j as nat, 4);
        lemma_fspec_bit(a, j as nat, 5);
        lemma_fspec_bit(b, j as nat, 5);
        lemma_fspec_bit(a, j as nat, 6);
        lemma_fspec_bit(b, j as nat, 6);
        lemma_fspec_bit(a, j as nat, 7);
        lemma_fspec_bit(b, j as nat, 7);
        assert(fspec_has(a, (7 * j + 7 - 1) as nat) == fspec_has(b, (7 * j + 7 - 1) as nat));
        assert(fspec_has(a, (7 * j + 7 - 2) as nat) == fspec_has(b, (7 * j + 7 - 2) as nat));
        assert(fspec_has(a, (7 * j + 7 - 3) as nat) == fspec_has(b, (7 * j + 7 - 3) as nat));
        assert(fspec_has(a, (7 * j + 7 - 4) as nat) == fspec_has(b, (7 * j + 7 - 4) as nat));
        assert(fspec_has(a, (7 * j + 7 - 5) as nat) == fspec_has(b, (7 * j + 7 - 5) as nat));
        assert(fspec_has(a, (7 * j + 7 - 6) as nat) == fspec_has(b, (7 * j + 7 - 6) as nat));
        assert(fspec_has(a, (7 * j + 7 - 7) as nat) == fspec_has(b, (7 * j + 7 - 7) as nat));
        if j < a.len() - 1 {
            assert(a[j] & 1u8 == 1u8 && b[j] & 1u8 == 1u8);
        } else {
            assert(a[j] & 1u8 == 0u8 && b[j] & 1u8 == 0u8);
        }
        lemma_byte_eq(a[j], b[j]);
    }
    assert(a =~= b);
}

/// No more items are announced than there are UAP items.
proof fn lemma_present_len(cat: Category, uap: Seq<UAPItem>, fs: Seq<u8>, i: nat)
    requires
        i <= uap.len(),
    ensures
        present_from(cat, uap, fs, i).len() <= uap.len() - i,
    decreases uap.len() - i,
{
    if i < uap.len() {
        lemma_present_len(cat, uap, fs, i + 1);
    }
}

/// The entries of a record read from an FSPEC, followed by `CAT`, give
/// the items that the FSPEC announced, in order.
#[verifier::spinoff_prover]
proof fn lemma_entries_present(cat: Category, uap: Seq<UAPItem>, fs: Seq<u8>, r: ObjectV, k: nat, acc: Seq<WriteItem>)
    requires
        wf_uap(uap),
        present_from(cat, uap, fs, 0).len() <= usize::MAX,
        r.len() == present_from(cat, uap, fs, 0).len() || r.len() == present_from(cat, uap, fs, 0).len() + 1,
        forall|m: int| 0 <= m < present_from(cat, uap, fs, 0).len()
            ==> (#[trigger] r[m]).0 == present_from(cat, uap, fs, 0)[m].key@ && r[m].0 != "CAT"@,
        r.len() == present_from(cat, uap, fs, 0).len() + 1 ==> r[r.len() - 1].0 == "CAT"@,
        forall|j: int| 0 <= j < uap.len() && numbered(#[trigger] uap[j]) && fspec_has(fs, frn_of(uap[j]))
            ==> find_data_item(cat.data_items@, uap[j].name@) is Some,
        k <= present_from(cat, uap, fs, 0).len(),
    ensures
        record_entries(cat, uap, r, k, acc) == Ok::<Seq<WriteItem>, crate::error::Fail>(
            acc + present_writes(present_from(cat, uap, fs, 0)).subrange(k as int, present_from(cat, uap, fs, 0).len() as int)),
    decreases present_from(cat, uap, fs, 0).len() - k,
{
    let p = present_from(cat, uap, fs, 0);
    let ws = present_writes(p);
    if k == p.len() {
        if r.len() > p.len() {
            assert(record_entries(cat, uap, r, k, acc) == record_entries(cat, uap, r, k + 1, acc));
        }
        assert(acc + ws.subrange(k as int, p.len() as int) =~= acc);
    } else {
        lemma_present_members(cat, uap, fs, 0, k as int);
        let j = choose|j: int| 0 <= j < uap.len() && numbered(#[trigger] uap[j]) && fspec_has(fs, frn_of(uap[j]))
            && present_from(cat, uap, fs, 0)[k as int] == present_item(cat, uap[j]);
        let key = r[k as int].0;
        assert(key == uap[j].name@);
        lemma_find_uap_item(uap, key);
        assert(find_uap_item(uap, key) == Some(j)) by {
            if find_uap_item(uap, key) is Some {
                let i = find_uap_item(uap, key)->Some_0;
                if i != j {
                    assert(uap[i].name@ != uap[j].name@);
                }
            }
        }
        let pp = parse_usize_spec(encode_utf8(uap[j].frn@))->Some_0;
        let ix = find_data_item(cat.data_items@, key)->Some_0;
        let item = ((pp - 1) as usize, ix as usize, k as usize);
        assert(item == ws[k as int]);
        assert(record_entries(cat, uap, r, k, acc) == record_entries(cat, uap, r, k + 1, acc.push(item)));
        lemma_entries_present(cat, uap, fs, r, k + 1, acc.push(item));
        assert(acc.push(item) + ws.subrange((k + 1) as int, p.len() as int) =~= acc + ws.subrange(k as int, p.len() as int));
    }
}

/// The length that a data block declares in its header.
pub open spec fn block_len(input: Seq<u8>) -> int {
    input[1] as int * 256 + input[2] as int
}

/// The record of a data block: its bytes after the header.
pub open spec fn block_record(input: Seq<u8>) -> Seq<u8> {
    input.subrange(3, block_len(input))
}

/// The FSPEC at the start of a record.
pub open spec fn fspec_of(rec: Seq<u8>) -> Seq<u8> {
    rec.take(spec_fspec_len(rec)->Some_0 as int)
}

/// The data items of a record: its bytes after the FSPEC.
pub open spec fn items_of(rec: Seq<u8>) -> Seq<u8> {
    rec.skip(spec_fspec_len(rec)->Some_0 as int)
}

/// The items that the FSPEC of a record announces, in UAP order.
pub open spec fn announced(cat: Category, u: nat, rec: Seq<u8>) -> Seq<PresentItem> {
    present_from(cat, uap_at(cat, u), fspec_of(rec), 0)
}

/// What reading a record that succeeds finds: its FSPEC and the items
/// this announces, every FRN of which is that of a UAP item.
#[verifier::spinoff_prover]
proof fn lemma_record_shape(cat: Category, u: nat, rec: Seq<u8>)
    requires
        picks_uap(cat, u, rec),
        u < cat.uaps@.len(),
        wf_uap(uap_at(cat, u)),
        spec_read_record(rec, cat) is Ok,
    ensures
        spec_fspec_len(rec) is Some,
        spec_read_record(rec, cat) == record_items(items_of(rec), cat, announced(cat, u, rec), 0, Seq::empty()),
        forall|j: int| 0 <= j < uap_at(cat, u).len() && numbered(#[trigger] uap_at(cat, u)[j]) && fspec_has(fspec_of(rec), frn_of(uap_at(cat, u)[j]))
            ==> find_data_item(cat.data_items@, uap_at(cat, u)[j].name@) is Some,
        forall|g: nat| #[trigger] fspec_has(fspec_of(rec), g) ==> uap_frn_from(uap_at(cat, u), 0, g),
{
    reveal(picks_uap);
    let uap = uap_at(cat, u);
    let n = spec_fspec_len(rec)->Some_0;
    let fs = fspec_of(rec);
    let data = items_of(rec);
    assert(spec_switch_uap(data, cat.id) == Ok::<nat, crate::error::ErrorV>(u));
    let (left, items) = present_loop(cat, uap, 0, fs, Seq::empty())->Ok_0;
    lemma_uap_frn_bound(uap);
    lemma_present_loop(cat, uap, 0, fs, Seq::empty(), fs);
    assert(items =~= announced(cat, u, rec));
    lemma_first_unknown_fspec(left);
    assert forall|g: nat| #[trigger] fspec_has(fs, g) implies uap_frn_from(uap, 0, g) by {
        if g / 7 < left.len() {
            let b = left[(g / 7) as int];
            let k = (7 - g % 7) as u8;
            assert(b & 0xfeu8 == 0);
            assert(b & (1u8 << k) == 0) by (bit_vector)
                requires
                    b & 0xfeu8 == 0,
                    1 <= k <= 7;
        }
        assert(!fspec_has(left, g));
    }
}

/// The FSPEC written for the items that a canonical FSPEC announces, every
/// FRN of which is that of a UAP item, is that FSPEC.
#[verifier::spinoff_prover]
proof fn lemma_fspec_rewrite(cat: Category, u: nat, fs: Seq<u8>)
    requires
        wf_uap(uap_at(cat, u)),
        canonical_fspec(fs),
        fs.len() <= 0xffff,
        forall|g: nat| #[trigger] fspec_has(fs, g) ==> uap_frn_from(uap_at(cat, u), 0, g),
    ensures
        spec_write_fspec(item_frns(present_writes(present_from(cat, uap_at(cat, u), fs, 0)))) == Ok::<Seq<u8>, crate::error::Fail>(fs),
{
    let uap = uap_at(cat, u);
    let p = present_from(cat, uap, fs, 0);
    let ws = present_writes(p);
    let frns = item_frns(ws);
    assert forall|m: int| 0 <= m < p.len() implies #[trigger] frns[m] == p[m].frn by {
        assert(frns[m] == ws[m].0);
    }
    lemma_uap_frn_bound(uap);
    lemma_present_increasing(cat, uap, fs, 0);
    assert forall|a: int, b: int| 0 <= a < b < frns.len() implies frns[a] < frns[b] by {
        assert(frns[a] == p[a].frn && frns[b] == p[b].frn);
    }
    assert forall|m: int| 0 <= m < frns.len() implies frns[m] + 14 <= usize::MAX by {
        lemma_present_members(cat, uap, fs, 0, m);
        let j = choose|j: int| 0 <= j < uap.len() && numbered(#[trigger] uap[j]) && fspec_has(fs, frn_of(uap[j]))
            && p[m] == present_item(cat, uap[j]);
        assert(frn_of(uap[j]) / 7 < fs.len());
        assert(frns[m] == p[m].frn);
    }
    lemma_fspec_canonical(frns, 0, Seq::empty(), 0, 7);
    lemma_fspec_roundtrip(frns, Seq::empty());
    let fw = spec_write_fspec(frns)->Ok_0;
    assert(fw + Seq::<u8>::empty() =~= fw);
    crate::read_asterix::lemma_fspec_len(fw);
    assert forall|j: int| 0 <= j < fw.len() - 1 implies #[trigger] fw[j] & 1u8 == 1u8 by {
        let x = fw[j];
        assert(x & 1u8 != 0);
        assert(x & 1u8 != 0 ==> x & 1u8 == 1u8) by (bit_vector);
    }
    assert(canonical_fspec(fw));
    assert forall|g: nat| #[trigger] fspec_has(fw, g) == fspec_has(fs, g) by {
        if frn_among(frns, frns.len(), g) {
            let m = choose|m: int| 0 <= m < frns.len() && m < frns.len() && frns[m] == g;
            lemma_present_members(cat, uap, fs, 0, m);
            let j = choose|j: int| 0 <= j < uap.len() && numbered(#[trigger] uap[j]) && fspec_has(fs, frn_of(uap[j]))
                && p[m] == present_item(cat, uap[j]);
            assert(frns[m] == p[m].frn);
        }
        if fspec_has(fs, g) {
            let j = choose|j: int| 0 <= j < uap.len() && numbered(#[trigger] uap[j]) && frn_of(uap[j]) == g;
            lemma_present_complete(cat, uap, fs, 0, j);
            let m = choose|m: int| 0 <= m < p.len() && p[m] == present_item(cat, uap[j]);
            assert(frns[m] == p[m].frn);
            assert(frn_among(frns, frns.len(), g));
        }
    }
    lemma_fspec_eq(fw, fs);
}

/// The items that an FSPEC announces have distinct keys.
proof fn lemma_announced_keys(cat: Category, u: nat, fs: Seq<u8>)
    requires
        wf_uap(uap_at(cat, u)),
    ensures
        forall|m1: int, m2: int| 0 <= m1 < m2 < present_from(cat, uap_at(cat, u), fs, 0).len()
            ==> (#[trigger] present_from(cat, uap_at(cat, u), fs, 0)[m1]).key@ != (#[trigger] present_from(cat, uap_at(cat, u), fs, 0)[m2]).key@,
{
    let uap = uap_at(cat, u);
    let p = present_from(cat, uap, fs, 0);
    lemma_uap_frn_bound(uap);
    lemma_present_increasing(cat, uap, fs, 0);
    assert forall|m1: int, m2: int| 0 <= m1 < m2 < p.len() implies (#[trigger] p[m1]).key@ != (#[trigger] p[m2]).key@ by {
        lemma_present_members(cat, uap, fs, 0, m1);
        let j1 = choose|j: int| 0 <= j < uap.len() && numbered(#[trigger] uap[j]) && fspec_has(fs, frn_of(uap[j]))
            && p[m1] == present_item(cat, uap[j]);
        lemma_present_members(cat, uap, fs, 0, m2);
        let j2 = choose|j: int| 0 <= j < uap.len() && numbered(#[trigger] uap[j]) && fspec_has(fs, frn_of(uap[j]))
            && p[m2] == present_item(cat, uap[j]);
        assert(p[m1].frn < p[m2].frn);
        assert(j1 != j2);
        assert(uap[j2].name@ != uap[j1].name@);
    }
}

/// An object with no array under `records` is written as one record.
proof fn lemma_one_record(cat: Category, r: ObjectV)
    requires
        !(obj_get(r, "records"@) matches Some(ValueV::Array(_))),
    ensures
        spec_write_body(cat, r) == spec_write_record(cat, r),
{
    reveal(spec_write_body);
}

/// Reading a record picks the UAP `u` from its items, and writing picks
/// the same for the object read.
#[verifier::opaque]
pub open spec fn picks_uap(cat: Category, u: nat, rec: Seq<u8>) -> bool {
    &&& spec_fspec_len(rec) is Some
    &&& spec_switch_uap(items_of(rec), cat.id) == Ok::<nat, crate::error::ErrorV>(u)
    &&& (spec_read_record(rec, cat) matches Ok((rv, _)) ==> spec_write_uap(cat, rv) == u)
}

/// A record that writing gives back as read: reading picks the UAP `u`
/// from its items, and writing picks the same for the object read; its
/// FSPEC has no byte past the last one that announces an item, and its
/// items, none keyed `CAT`, are of rewritable formats whose spare fields
/// hold zero.
pub open spec fn record_rewritable(cat: Category, u: nat, rec: Seq<u8>) -> bool {
    &&& picks_uap(cat, u, rec)
    &&& canonical_fspec(fspec_of(rec))
    &&& forall|m: int| 0 <= m < announced(cat, u, rec).len() ==> {
        let it = #[trigger] announced(cat, u, rec)[m];
        &&& it.key@ != "CAT"@
        &&& present_format(cat, it) is Some
        &&& rewritable_format(present_format(cat, it)->Some_0)
    }
    &&& items_spares_zero(items_of(rec), cat, announced(cat, u, rec), 0)
}

/// A record read is written back, from the object read, with or without
/// `CAT` added, as the bytes it was read from; the object's keys are the
/// announced items'.
#[verifier::spinoff_prover]
#[verifier::rlimit(40)]
proof fn lemma_record_rewrite(cat: Category, u: nat, rec: Seq<u8>, catv: ValueV)
    requires
        u < cat.uaps@.len(),
        uap_at(cat, u).len() <= usize::MAX,
        wf_uap(uap_at(cat, u)),
        rec.len() <= 0xffff,
        spec_read_record(rec, cat) is Ok,
        record_rewritable(cat, u, rec),
    ensures
        ({
            let (rv, rest) = spec_read_record(rec, cat)->Ok_0;
            let used = rec.take(rec.len() - rest.len());
            &&& rest.len() <= rec.len()
            &&& rec == used + rest
            &&& spec_write_record(cat, rv) == Ok::<Seq<u8>, crate::error::Fail>(used)
            &&& spec_write_record(cat, rv.push(("CAT"@, catv))) == Ok::<Seq<u8>, crate::error::Fail>(used)
            &&& rv.len() == announced(cat, u, rec).len()
            &&& forall|m: int| 0 <= m < rv.len() ==> (#[trigger] rv[m]).0 == announced(cat, u, rec)[m].key@
                && rv[m].0 != "CAT"@
                && (present_format(cat, announced(cat, u, rec)[m]) matches Some(Format::Fixed(_)) ==> rv[m].1 is Object)
        }),
{
    lemma_record_shape(cat, u, rec);
    assert(spec_write_uap(cat, spec_read_record(rec, cat)->Ok_0.0) == u) by {
        reveal(picks_uap);
    }
    let uap = uap_at(cat, u);
    let fs = fspec_of(rec);
    let data = items_of(rec);
    let p = announced(cat, u, rec);
    let ws = present_writes(p);
    lemma_present_len(cat, uap, fs, 0);
    lemma_announced_keys(cat, u, fs);
    lemma_items_rewrite(cat, p, 0, data, Seq::empty(), fs, ("CAT"@, catv));
    lemma_items_rewrite(cat, p, 0, data, Seq::empty(), fs, ("CAT"@, catv));
    let (rv, rest) = record_items(data, cat, p, 0, Seq::empty())->Ok_0;
    let used_items = data.take(data.len() - rest.len());
    crate::read_asterix::lemma_fspec_len(rec);
    assert(rec =~= fs + data);
    assert(rec.take(rec.len() - rest.len()) =~= fs + used_items);
    lemma_present_increasing(cat, uap, fs, 0);
    lemma_uap_frn_bound(uap);
    assert(Seq::<WriteItem>::empty() + ws.subrange(0, p.len() as int) =~= ws);
    assert forall|i: int, j: int| 0 <= i < j < ws.len() implies (#[trigger] ws[i]).0 < (#[trigger] ws[j]).0 by {
        assert(ws[i].0 == p[i].frn && ws[j].0 == p[j].frn);
    }
    lemma_sort_sorted(ws);
    lemma_fspec_rewrite(cat, u, fs);
    let r = rv.push(("CAT"@, catv));
    lemma_entries_present(cat, uap, fs, r, 0, Seq::empty());
    lemma_uap_with_cat(cat, rv, catv);
    lemma_entries_at(cat, u, r, ws);
    lemma_entries_present(cat, uap, fs, rv, 0, Seq::empty());
    lemma_entries_at(cat, u, rv, ws);
    lemma_record_write_same(cat, rv, ("CAT"@, catv), ws, 0, fs);
}

/// Writing picks the same UAP for a record with `CAT` added at its end.
proof fn lemma_uap_with_cat(cat: Category, rv: ObjectV, catv: ValueV)
    ensures
        spec_write_uap(cat, rv.push(("CAT"@, catv))) == spec_write_uap(cat, rv),
{
    reveal(spec_write_uap);
    reveal_strlit("CAT");
    reveal_strlit("010");
    let r = rv.push(("CAT"@, catv));
    assert("CAT"@[0] != "010"@[0]);
    crate::value::lemma_obj_find(rv, "010"@);
    crate::value::lemma_obj_find(r, "010"@);
    assert forall|j: int| 0 <= j < rv.len() implies r[j] == rv[j] by {}
    assert(r[rv.len() as int].0 != "010"@);
    if obj_find(rv, "010"@) is Some {
        let i = obj_find(rv, "010"@)->Some_0;
        crate::value::lemma_obj_find_first(r, "010"@, i);
    } else {
        crate::value::lemma_obj_find_none(r, "010"@);
    }
}

/// The items written for a record, where writing picks the UAP `u`, are
/// those of its entries against that UAP, sorted.
proof fn lemma_entries_at(cat: Category, u: nat, r: ObjectV, ws: Seq<WriteItem>)
    requires
        u < cat.uaps@.len(),
        spec_write_uap(cat, r) == u,
        record_entries(cat, uap_at(cat, u), r, 0, Seq::empty()) is Ok,
        sort_items(record_entries(cat, uap_at(cat, u), r, 0, Seq::empty())->Ok_0) == ws,
    ensures
        spec_present_entries(cat, r) == Ok::<Seq<WriteItem>, crate::error::Fail>(ws),
{
}

/// Writing the items from an object gives the same bytes as from it with
/// one more entry after them.
proof fn lemma_record_write_same(cat: Category, rv: ObjectV, e: (Seq<char>, ValueV), ws: Seq<WriteItem>, k: nat, acc: Seq<u8>)
    requires
        forall|m: int| 0 <= m < ws.len() ==> (#[trigger] ws[m]).2 == m,
        ws.len() == rv.len(),
    ensures
        record_write(cat, rv.push(e), ws, k, acc) == record_write(cat, rv, ws, k, acc),
    decreases ws.len() - k,
{
    if k < ws.len() {
        let (frn, index, ei) = ws[k as int];
        assert(ei == k);
        assert(rv.push(e)[ei as int] == rv[ei as int]);
        if index < cat.data_items@.len() {
            if let Ok(b) = spec_write_field(cat.data_items@[index as int].format.format, rv[ei as int].1) {
                lemma_record_write_same(cat, rv, e, ws, k + 1, acc + b);
            }
        }
    }
}

/// Whether the records of a block body from the start of `input` on, each
/// read where the one before ends, are records that writing gives back.
pub open spec fn records_rewritable(input: Seq<u8>, cat: Category, u: nat) -> bool
    decreases input.len(),
{
    if input.len() == 0 {
        true
    } else {
        &&& record_rewritable(cat, u, input)
        &&& match spec_read_record(input, cat) {
            Ok((_, rest)) => {
                proof {
                    crate::read_asterix::lemma_record_progress(input, cat);
                }
                records_rewritable(rest, cat, u)
            },
            Err(_) => true,
        }
    }
}

/// One step of reading the records of a block body.
proof fn lemma_records_read_step(input: Seq<u8>, cat: Category, acc: Seq<ValueV>)
    requires
        input.len() > 0,
        spec_read_record(input, cat) is Ok,
    ensures
        spec_read_record(input, cat)->Ok_0.1.len() < input.len(),
        records_read(input, cat, acc) == records_read(spec_read_record(input, cat)->Ok_0.1, cat,
            acc.push(ValueV::Object(spec_read_record(input, cat)->Ok_0.0))),
{
    crate::read_asterix::lemma_record_progress(input, cat);
}

/// One step of the records that writing gives back.
proof fn lemma_records_rewritable_step(input: Seq<u8>, cat: Category, u: nat)
    requires
        input.len() > 0,
        records_rewritable(input, cat, u),
        spec_read_record(input, cat) is Ok,
    ensures
        record_rewritable(cat, u, input),
        records_rewritable(spec_read_record(input, cat)->Ok_0.1, cat, u),
{
}

/// One step of writing the records of a block.
proof fn lemma_records_write_step(cat: Category, rs: Seq<ValueV>, k: nat, wacc: Seq<u8>, used: Seq<u8>)
    requires
        k < rs.len(),
        rs[k as int] is Object,
        spec_write_record(cat, rs[k as int]->Object_0) == Ok::<Seq<u8>, crate::error::Fail>(used),
    ensures
        crate::write_asterix::records_write(cat, rs, k, wacc) == crate::write_asterix::records_write(cat, rs, k + 1, wacc + used),
{
}

/// Writing the records read from a block body, after those in `acc`, gives
/// back the body.
#[verifier::spinoff_prover]
#[verifier::rlimit(100)]
proof fn lemma_records_rewrite(input: Seq<u8>, cat: Category, u: nat, acc: Seq<ValueV>, wacc: Seq<u8>)
    requires
        u < cat.uaps@.len(),
        uap_at(cat, u).len() <= usize::MAX,
        wf_uap(uap_at(cat, u)),
        input.len() <= 0xffff,
        records_rewritable(input, cat, u),
        records_read(input, cat, acc) is Ok,
    ensures
        ({
            let rs = records_read(input, cat, acc)->Ok_0;
            &&& rs.len() >= acc.len()
            &&& forall|m: int| 0 <= m < acc.len() ==> #[trigger] rs[m] == acc[m]
            &&& crate::write_asterix::records_write(cat, rs, acc.len(), wacc) == Ok::<Seq<u8>, crate::error::Fail>(wacc + input)
        }),
    decreases input.len(),
{
    let rs = records_read(input, cat, acc)->Ok_0;
    if input.len() == 0 {
        assert(wacc + input =~= wacc);
    } else {
        let (rv, rest) = spec_read_record(input, cat)->Ok_0;
        lemma_records_read_step(input, cat, acc);
        lemma_records_rewritable_step(input, cat, u);
        lemma_record_rewrite(cat, u, input, ValueV::Null);
        let used = input.take(input.len() - rest.len());
        let acc2 = acc.push(ValueV::Object(rv));
        lemma_records_rewrite(rest, cat, u, acc2, wacc + used);
        assert(rs[acc.len() as int] == acc2[acc.len() as int]);
        lemma_records_write_step(cat, rs, acc.len(), wacc, used);
        assert((wacc + used) + rest =~= wacc + input);
    }
}

/// A block body of one record is written back from the record read, with
/// `CAT` added.
#[verifier::spinoff_prover]
#[verifier::rlimit(40)]
proof fn lemma_single_rewrite(cat: Category, u: nat, body: Seq<u8>)
    requires
        u < cat.uaps@.len(),
        uap_at(cat, u).len() <= usize::MAX,
        wf_uap(uap_at(cat, u)),
        body.len() <= 0xffff,
        records_read(body, cat, Seq::empty()) is Ok,
        records_read(body, cat, Seq::empty())->Ok_0.len() == 1,
        records_rewritable(body, cat, u),
        spec_read_record(body, cat) matches Ok((_, rest)) && rest.len() == 0 ==>
            forall|m: int| 0 <= m < announced(cat, u, body).len()
                && (#[trigger] announced(cat, u, body)[m]).key@ == "records"@
                ==> present_format(cat, announced(cat, u, body)[m]) matches Some(Format::Fixed(_)),
    ensures
        records_read(body, cat, Seq::empty())->Ok_0[0] is Object,
        declared_category(block_value(records_read(body, cat, Seq::empty())->Ok_0, cat.id)) == Some(cat.id as u64),
        spec_write_body(cat, block_value(records_read(body, cat, Seq::empty())->Ok_0, cat.id)) == Ok::<Seq<u8>, crate::error::Fail>(body),
{
    let rs = records_read(body, cat, Seq::empty())->Ok_0;
    let catv = ValueV::Number(Number::PosInt(cat.id as u64), Seq::empty());
    reveal_strlit("records");
    reveal_strlit("CAT");
    assert("records"@.len() == 7 && "CAT"@.len() == 3);
    assert(body.len() > 0);
    let (rv, rest) = spec_read_record(body, cat)->Ok_0;
    lemma_records_read_step(body, cat, Seq::empty());
    assert(Seq::<ValueV>::empty().push(ValueV::Object(rv)) =~= seq![ValueV::Object(rv)]);
    lemma_record_rewrite(cat, u, body, catv);
    if rest.len() > 0 {
        lemma_records_read_step(rest, cat, seq![ValueV::Object(rv)]);
        let (rv2, rest2) = spec_read_record(rest, cat)->Ok_0;
        lemma_records_len(rest2, cat, seq![ValueV::Object(rv)].push(ValueV::Object(rv2)));
        assert(false);
    }
    assert(rs == seq![ValueV::Object(rv)]);
    let r = block_value(rs, cat.id);
    lemma_obj_find_none(rv, "CAT"@);
    assert(r == rv.push(("CAT"@, catv)));
    lemma_obj_get_insert(rv, "CAT"@, catv, "CAT"@);
    lemma_obj_get_insert(rv, "CAT"@, catv, "records"@);
    crate::value::lemma_obj_find(rv, "records"@);
    if obj_find(rv, "records"@) is Some {
        let i = obj_find(rv, "records"@)->Some_0;
        assert(rv[i].0 == announced(cat, u, body)[i].key@);
        assert(announced(cat, u, body)[i].key@ == "records"@);
        assert(present_format(cat, announced(cat, u, body)[i]) matches Some(Format::Fixed(_)));
        assert(rv[i].1 is Object);
    }
    lemma_one_record(cat, r);
    assert(body.take(body.len() - 0) =~= body);
}

/// The body of a block is written back from the value read of it.
#[verifier::spinoff_prover]
proof fn lemma_body_rewrite(cat: Category, u: nat, body: Seq<u8>)
    requires
        u < cat.uaps@.len(),
        uap_at(cat, u).len() <= usize::MAX,
        wf_uap(uap_at(cat, u)),
        body.len() <= 0xffff,
        records_read(body, cat, Seq::empty()) is Ok,
        records_rewritable(body, cat, u),
        spec_read_record(body, cat) matches Ok((_, rest)) && rest.len() == 0 ==>
            forall|m: int| 0 <= m < announced(cat, u, body).len()
                && (#[trigger] announced(cat, u, body)[m]).key@ == "records"@
                ==> present_format(cat, announced(cat, u, body)[m]) matches Some(Format::Fixed(_)),
    ensures
        declared_category(block_value(records_read(body, cat, Seq::empty())->Ok_0, cat.id)) == Some(cat.id as u64),
        spec_write_body(cat, block_value(records_read(body, cat, Seq::empty())->Ok_0, cat.id)) == Ok::<Seq<u8>, crate::error::Fail>(body),
{
    let rs = records_read(body, cat, Seq::empty())->Ok_0;
    if rs.len() == 1 {
        lemma_single_rewrite(cat, u, body);
    } else {
        let catv = ValueV::Number(Number::PosInt(cat.id as u64), Seq::empty());
        lemma_records_rewrite(body, cat, u, Seq::empty(), Seq::empty());
        assert(Seq::<u8>::empty() + body =~= body);
        reveal_strlit("records");
        reveal_strlit("CAT");
        assert("records"@.len() == 7 && "CAT"@.len() == 3);
        let r = block_value(rs, cat.id);
        assert(r == seq![("CAT"@, catv), ("records"@, ValueV::Array(rs))]);
        crate::value::lemma_obj_find_first(r, "CAT"@, 0);
        crate::value::lemma_obj_find_first(r, "records"@, 1);
        reveal(spec_write_body);
    }
}

/// A data block is written back, from what reading it gave, as the bytes
/// read: its header and its records, each FSPEC and items. This holds where
/// reading picks the UAP `u` from each record's items and writing picks the
/// same for the object read (always the first UAP, but in categories 1 and
/// 129), a UAP whose items come in FRN order, each named once; for a block
/// whose records have FSPECs with no byte past the last one that announces
/// an item, and items, none keyed `CAT`, of Fixed items, or Variables,
/// Explicits or Repetitives of Fixed parts, of plain fields, with or without
/// a unit, that writing gives back as read, with their spare fields zero
/// (and whose last part read of a Variable of several parts has a named
/// field); and where the block holds one record, none of its items other
/// than a Fixed one is keyed `records`.
#[verifier::spinoff_prover]
#[verifier::rlimit(40)]
pub proof fn lemma_block_rewrite(cat: Category, u: nat, input: Seq<u8>)
    requires
        u < cat.uaps@.len(),
        uap_at(cat, u).len() <= usize::MAX,
        wf_uap(uap_at(cat, u)),
        spec_read_asterix(input, cat).0 is Ok,
        records_rewritable(block_record(input), cat, u),
        spec_read_record(block_record(input), cat) matches Ok((_, rest)) && rest.len() == 0 ==>
            forall|m: int| 0 <= m < announced(cat, u, block_record(input)).len()
                && (#[trigger] announced(cat, u, block_record(input))[m]).key@ == "records"@
                ==> present_format(cat, announced(cat, u, block_record(input))[m]) matches Some(Format::Fixed(_)),
    ensures
        spec_write_asterix(cat, spec_read_asterix(input, cat).0->Ok_0) == Ok::<Seq<u8>, crate::error::Fail>(input.take(block_len(input))),
{
    let len = block_len(input);
    let body = block_record(input);
    assert(input.len() >= 3 && input[0] == cat.id && 3 <= len <= input.len());
    lemma_body_rewrite(cat, u, body);
    let hi = input[1] as int;
    let lo = input[2] as int;
    assert(len / 256 == hi && len % 256 == lo) by (nonlinear_arith)
        requires
            len == hi * 256 + lo,
            0 <= lo < 256,
            0 <= hi;
    assert(seq![cat.id, (len / 256) as u8, (len % 256) as u8] + body =~= input.take(len));
}

/// Reading records never drops any read before.
proof fn lemma_records_len(input: Seq<u8>, cat: Category, acc: Seq<ValueV>)
    requires
        records_read(input, cat, acc) is Ok,
    ensures
        records_read(input, cat, acc)->Ok_0.len() >= acc.len(),
    decreases input.len(),
{
    if input.len() > 0 {
        let (o, rest) = spec_read_record(input, cat)->Ok_0;
        crate::read_asterix::lemma_record_progress(input, cat);
        lemma_records_len(rest, cat, acc.push(ValueV::Object(o)));
    }
}

} // verus!
