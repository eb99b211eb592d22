//! Writing a structured value as an ASTERIX data block.
use vstd::prelude::*;
use vstd::utf8::encode_utf8;
use vstd::string::*;
use crate::ais_code::{encode_ais, spec_encode_ais};
use crate::bit_writer::BitWriter;
use crate::bitstream::{bits_bytes, bytes_bits, lemma_bits_bytes, lemma_bytes_bits_append, lemma_bytes_bits_injective, lemma_bytes_bits_len, value_bits};
use crate::error::{Error, ErrorV, Fail, InvalidSpec, InvalidSpecV};
use crate::fields::{bits_range, field_encode, field_range, is_spare, is_spare_name, is_uint, plain_number};
use crate::read_asterix::{find_data_item, frn_mask, panics, position_data_item, spec_fspec_len};
use crate::strings::{parse_usize, parse_usize_spec, str_eq};
use crate::spec_xml::{Bits, Category, UAPItem, Compound, Encode, Explicit, Fixed, Format, Repetitive, Variable, one_scale, unit_scale};
use crate::value::{lemma_entries_view_index, lemma_entries_view_len, lemma_values_view_index, lemma_values_view_len, obj_find, obj_get, values_view, Number, Object, ObjectV, Scaled, Value, ValueV};

verus! {

broadcast use vstd::std_specs::vec::group_vec_axioms;

/// The integer a value holds, as `as_i64` of serde_json reads it: a
/// non-negative integer that fits an `i64`, or a negative one.
pub open spec fn value_i64(v: ValueV) -> Option<i64> {
    match v {
        ValueV::Number(Number::PosInt(u), _) => if u <= i64::MAX { Some(u as i64) } else { None },
        ValueV::Number(Number::NegInt(i), _) => Some(i),
        _ => None,
    }
}

/// The first quotient by `scale` among `q`.
pub open spec fn find_scaled(q: Seq<Scaled>, scale: u64) -> Option<i64>
    decreases q.len(),
{
    if q.len() == 0 {
        None
    } else if q[0].scale == scale {
        Some(q[0].raw)
    } else {
        find_scaled(q.skip(1), scale)
    }
}

/// Integers of smaller magnitude are exact as an `f64`.
pub open spec fn exact_bound() -> int {
    0x20_0000_0000_0000
}

/// The raw value that a field of scale `scale` gets for `v`: `v` divided by
/// the scale and rounded. Zero, and an integer of scale 1 small enough to be
/// exact, are their own quotients; a number carries its other quotients
/// with it; a quantity read from a field of the same scale gives back its
/// raw value. A quantity of another scale would need floating point, and
/// is taken as no number.
pub open spec fn scaled_raw(v: ValueV, scale: u64) -> Option<i64> {
    match v {
        ValueV::Number(Number::PosInt(u), q) => if u == 0 {
            Some(0)
        } else if scale == one_scale() && u < exact_bound() {
            Some(u as i64)
        } else {
            find_scaled(q, scale)
        },
        ValueV::Number(Number::NegInt(i), q) => if scale == one_scale() && -exact_bound() < i {
            Some(i)
        } else {
            find_scaled(q, scale)
        },
        ValueV::Number(Number::Float(_), q) => find_scaled(q, scale),
        ValueV::Quantity(x) => if x.scale == scale { Some(x.raw) } else { None },
        _ => None,
    }
}

/// `as_i64` on a value.
fn number_i64(v: &Value) -> (r: Option<i64>)
    ensures
        r == value_i64(v@),
{
    match v {
        Value::Number(jn) => match jn.n {
            Number::PosInt(u) => if u <= 0x7fff_ffff_ffff_ffffu64 { Some(u as i64) } else { None },
            Number::NegInt(i) => Some(i),
            Number::Float(_) => None,
        },
        _ => None,
    }
}

/// The first quotient by `scale` among `q`.
fn find_scaled_exec(q: &Vec<Scaled>, scale: u64) -> (r: Option<i64>)
    ensures
        r == find_scaled(q@, scale),
{
    let mut i: usize = 0;
    assert(q@.skip(0) =~= q@);
    while i < q.len()
        invariant
            i <= q@.len(),
            find_scaled(q@, scale) == find_scaled(q@.skip(i as int), scale),
        decreases q.len() - i,
    {
        assert(q@.skip(i as int).skip(1) =~= q@.skip(i + 1));
        if q[i].scale == scale {
            return Some(q[i].raw);
        }
        i = i + 1;
    }
    None
}

/// `scaled_raw` on a value.
fn scaled_number(v: &Value, scale: u64) -> (r: Option<i64>)
    ensures
        r == scaled_raw(v@, scale),
{
    match v {
        Value::Number(jn) => match jn.n {
            Number::PosInt(u) => if u == 0 {
                Some(0)
            } else if scale == 0x3ff0_0000_0000_0000u64 && u < 0x20_0000_0000_0000u64 {
                Some(u as i64)
            } else {
                find_scaled_exec(&jn.by_scale, scale)
            },
            Number::NegInt(i) => if scale == 0x3ff0_0000_0000_0000u64 && -0x20_0000_0000_0000i64 < i {
                Some(i)
            } else {
                find_scaled_exec(&jn.by_scale, scale)
            },
            Number::Float(_) => find_scaled_exec(&jn.by_scale, scale),
        },
        Value::Quantity(x) => if x.scale == scale { Some(x.raw) } else { None },
        _ => None,
    }
}

/// The number written for a field that holds one: a six-bit character
/// string is first encoded; a field with a unit takes the value divided by
/// its scale, any other the integer it holds; both as the bits of an `i64`.
pub open spec fn field_number(v: ValueV, b: Bits, length: u32) -> Result<u64, ErrorV> {
    let w = if field_encode(b) == Encode::SixBitsChar && v is Str {
        match spec_encode_ais(v->Str_0, length / 6) {
            Ok(c) => Ok(ValueV::Number(Number::PosInt(c), Seq::empty())),
            Err(e) => Err(e),
        }
    } else {
        Ok(v)
    };
    match w {
        Err(e) => Err(e),
        Ok(w) => {
            let n = match b.unit {
                Some(u) => scaled_raw(w, unit_scale(u)),
                None => value_i64(w),
            };
            match n {
                Some(x) => Ok(x as u64),
                None => Err(ErrorV::ExpectedNumber { field: b.short_name@ }),
            }
        },
    }
}

/// Computes `field_number`.
fn number_of_field(v: &Value, bits: &Bits, length: u32) -> (r: Result<u64, Error>)
    ensures
        match field_number(v@, *bits, length) {
            Ok(x) => r == Ok::<u64, Error>(x),
            Err(e) => r matches Err(x) && x@ == e,
        },
{
    let encode = match bits.encode {
        Some(e) => e,
        None => Encode::Unsigned,
    };
    let coded: Value;
    let mut value: &Value = v;
    if encode == Encode::SixBitsChar {
        if let Value::Str(s) = v {
            let c = encode_ais(s.as_str(), length / 6)?;
            coded = plain_number(Number::PosInt(c));
            value = &coded;
        }
    }
    let n = match &bits.unit {
        Some(u) => scaled_number(value, u.scale_or_one()),
        None => number_i64(value),
    };
    match n {
        Some(x) => Ok(x as u64),
        None => Err(Error::ExpectedNumber { field: bits.short_name.clone() }),
    }
}

/// The number whose octal digits are the decimal digits of `v`, if they
/// all are octal digits.
pub open spec fn octal_of(v: nat) -> Option<nat>
    decreases v,
{
    if v == 0 {
        Some(0)
    } else if v % 10 >= 8 {
        None
    } else {
        match octal_of(v / 10) {
            Some(r) => Some(r * 8 + v % 10),
            None => None,
        }
    }
}

/// Reading decimal digits as octal ones gives no more than the number.
pub proof fn lemma_octal_of_le(v: nat)
    ensures
        octal_of(v) matches Some(r) ==> r <= v,
    decreases v,
{
    if v != 0 && v % 10 < 8 {
        lemma_octal_of_le(v / 10);
    }
}

/// An octal field holds its decimal digits as octal ones. A field of five
/// bits holds a two-digit code whose first digit is octal and second below
/// four, in three and two bits.
pub open spec fn octal_value(value: u64, length: nat) -> Option<u64> {
    if length == 5 {
        let a = value / 10;
        let b = value % 10;
        if a >= 8 || b >= 4 {
            None
        } else {
            Some((a * 4 + b) as u64)
        }
    } else {
        match octal_of(value as nat) {
            Some(r) => Some(r as u64),
            None => None,
        }
    }
}

/// Computes `octal_value`, with the number as the error where a digit is
/// out of range.
fn octal_code(value: u64, length: u32) -> (r: Result<u64, Error>)
    ensures
        match octal_value(value, length as nat) {
            Some(w) => r == Ok::<u64, Error>(w),
            None => r matches Err(Error::InvalidOcatlCode { code }) && code == value,
        },
{
    if length == 5 {
        let a = value / 10;
        let b = value % 10;
        if a >= 8 || b >= 4 {
            return Err(Error::InvalidOcatlCode { code: value });
        }
        assert((a << 2u64) | b == a * 4 + b) by (bit_vector)
            requires
                a < 8,
                b < 4;
        return Ok((a << 2u64) | b);
    }
    let mut tmp = value;
    let mut pow: u64 = 1;
    let mut rv: u64 = 0;
    let ghost mut ten: int = 1;
    let ghost mut low: int = 0;
    while tmp > 0
        invariant
            length != 5,
            value == tmp * ten + low,
            0 <= low < ten,
            1 <= pow <= ten,
            rv <= low,
            tmp > 0 ==> rv < pow,
            octal_of(value as nat) == match octal_of(tmp as nat) {
                Some(x) => Some((rv + pow * x) as nat),
                None => None::<nat>,
            },
        decreases tmp,
    {
        let chr = tmp % 10;
        if chr >= 8 {
            assert(octal_of(tmp as nat) is None);
            return Err(Error::InvalidOcatlCode { code: value });
        }
        let ghost t0 = tmp;
        let ghost p0 = pow;
        let ghost r0 = rv;
        assert(pow * chr <= ten * chr) by (nonlinear_arith)
            requires
                pow <= ten,
                chr >= 0;
        assert(t0 == (t0 / 10) * 10 + chr);
        assert(value == (t0 / 10) * (ten * 10) + (chr * ten + low)) by (nonlinear_arith)
            requires
                value == t0 * ten + low,
                t0 == (t0 / 10) * 10 + chr;
        assert(rv + pow * chr < pow * 8) by (nonlinear_arith)
            requires
                rv < pow,
                chr < 8;
        assert(rv + pow * chr <= low + chr * ten) by (nonlinear_arith)
            requires
                rv <= low,
                pow * chr <= ten * chr;
        assert(low + chr * ten <= value) by (nonlinear_arith)
            requires
                value == (t0 / 10) * (ten * 10) + (chr * ten + low),
                t0 / 10 >= 0,
                ten >= 1;
        assert(chr * ten + low < ten * 10) by (nonlinear_arith)
            requires
                0 <= chr < 8,
                0 <= low < ten;
        rv = rv + pow * chr;
        tmp = tmp / 10;
        proof {
            assert(octal_of(t0 as nat) == match octal_of(tmp as nat) {
                Some(x) => Some((x * 8 + chr) as nat),
                None => None::<nat>,
            });
            low = chr * ten + low;
            ten = ten * 10;
        }
        if tmp > 0 {
            assert(p0 * 8 < ten) by (nonlinear_arith)
                requires
                    p0 * 10 <= ten,
                    p0 >= 1;
            assert(ten <= value) by (nonlinear_arith)
                requires
                    value == tmp * ten + low,
                    tmp >= 1,
                    low >= 0;
            pow = pow * 8;
        }
        proof {
            if octal_of(tmp as nat) is Some {
                let x = octal_of(tmp as nat).unwrap();
                assert(r0 + p0 * (x * 8 + chr) == (r0 + p0 * chr) + (p0 * 8) * x) by (nonlinear_arith);
                if tmp == 0 {
                    assert(x == 0);
                    assert(pow * x == 0 && p0 * 8 * x == 0) by (nonlinear_arith)
                        requires
                            x == 0;
                }
                assert(octal_of(value as nat) == Some((rv + pow * x) as nat));
            }
        }
    }
    proof {
        lemma_octal_of_le(value as nat);
        assert(octal_of(tmp as nat) == Some(0nat));
        assert(pow * 0 == 0);
        assert(octal_of(value as nat) == Some(rv as nat));
    }
    Ok(rv)
}

/// The bits appended for `value` written into the field of bits
/// `from..=to` when `avail` bits of the Fixed item are left: an octal field
/// first turns its decimal digits into octal ones; the field must start at
/// the next free bit, hold at most 64 bits and end above bit 0.
pub open spec fn put_bits(from: u32, to: u32, avail: nat, enc: Encode, value: u64) -> Result<Seq<bool>, Fail> {
    let length = (from - to + 1) as nat;
    let w = if enc == Encode::Octal { octal_value(value, length) } else { Some(value) };
    match w {
        None => Err(Fail::Error(ErrorV::InvalidOcatlCode { code: value })),
        Some(x) => if from != avail {
            Err(Fail::Error(ErrorV::InvalidSpec { child: InvalidSpecV::NonContinousBits }))
        } else if length > 64 || to == 0 {
            Err(Fail::Panic)
        } else {
            Ok(value_bits(x as nat, length))
        },
    }
}

/// Printable ASCII characters and the space.
pub open spec fn ascii_printable(c: u8) -> bool {
    0x20 <= c <= 0x7e
}

/// The characters of an ASCII field from the `j`-th on, of `k`: the bytes
/// of the string, then spaces; `acc` holds the bits written so far.
pub open spec fn ascii_loop(bytes: Seq<u8>, s: Seq<char>, from: u32, k: nat, j: nat, avail: nat, acc: Seq<bool>)
    -> Result<Seq<bool>, Fail>
    decreases k - j,
{
    if j >= k {
        Ok(acc)
    } else {
        let chr: u8 = if j < bytes.len() { bytes[j as int] } else { 0x20u8 };
        let pos = from - 8 * j;
        if !ascii_printable(chr) {
            Err(Fail::Error(ErrorV::InvalidAsciiChar { chr: chr as char, string: s }))
        } else if pos != avail - acc.len() {
            Err(Fail::Error(ErrorV::InvalidSpec { child: InvalidSpecV::NonContinousBits }))
        } else if pos - 7 == 0 {
            Err(Fail::Panic)
        } else {
            ascii_loop(bytes, s, from, k, j + 1, avail, acc + value_bits(chr as nat, 8))
        }
    }
}

/// The bits appended for an ASCII field of bits `from..=to` holding `v`:
/// a string of at most one byte per eight bits, padded with spaces.
pub open spec fn ascii_bits(v: ValueV, name: Seq<char>, from: u32, to: u32, avail: nat) -> Result<Seq<bool>, Fail> {
    let length = (from - to + 1) as nat;
    if length % 8 != 0 {
        Err(Fail::Error(ErrorV::InvalidSpec { child: InvalidSpecV::BadAsciiLength { field: name } }))
    } else {
        match v {
            ValueV::Str(s) => if encode_utf8(s).len() > length / 8 {
                Err(Fail::Error(ErrorV::AsciiStringTooLong { string: s }))
            } else {
                ascii_loop(encode_utf8(s), s, from, length / 8, 0, avail, Seq::empty())
            },
            _ => Err(Fail::Error(ErrorV::ExpectedStringForAscii { field: name })),
        }
    }
}

/// The bits that the characters of an ASCII field from the `j`-th on add to
/// `acc` before the field is done or a character fails.
pub open spec fn ascii_written_loop(bytes: Seq<u8>, from: u32, k: nat, j: nat, avail: nat, acc: Seq<bool>) -> Seq<bool>
    decreases k - j,
{
    if j >= k {
        acc
    } else {
        let chr: u8 = if j < bytes.len() { bytes[j as int] } else { 0x20u8 };
        let pos = from - 8 * j;
        if !ascii_printable(chr) || pos != avail - acc.len() || pos - 7 == 0 {
            acc
        } else {
            ascii_written_loop(bytes, from, k, j + 1, avail, acc + value_bits(chr as nat, 8))
        }
    }
}

/// The bits that writing `v` into an ASCII field of bits `from..=to` puts
/// out, whether it succeeds or fails.
pub open spec fn ascii_written(v: ValueV, from: u32, to: u32, avail: nat) -> Seq<bool> {
    let length = (from - to + 1) as nat;
    match v {
        ValueV::Str(s) => if length % 8 != 0 || encode_utf8(s).len() > length / 8 {
            Seq::empty()
        } else {
            ascii_written_loop(encode_utf8(s), from, length / 8, 0, avail, Seq::empty())
        },
        _ => Seq::empty(),
    }
}

/// The bits the characters of an ASCII field from the `j`-th on add to
/// `acc` are each character's byte in turn, from the highest bits down: the
/// byte of the string at that place, or a space past its end.
proof fn lemma_ascii_loop_order(bytes: Seq<u8>, s: Seq<char>, from: u32, k: nat, j: nat, avail: nat, acc: Seq<bool>)
    requires
        j <= k,
        ascii_loop(bytes, s, from, k, j, avail, acc) is Ok,
    ensures
        ({
            let w = ascii_loop(bytes, s, from, k, j, avail, acc)->Ok_0;
            &&& w.len() == acc.len() + 8 * (k - j)
            &&& w.take(acc.len() as int) == acc
            &&& forall|i: int| j <= i < k ==> #[trigger] w.subrange(acc.len() + 8 * (i - j), acc.len() + 8 * (i - j) + 8)
                == value_bits((if i < bytes.len() { bytes[i] } else { 0x20u8 }) as nat, 8)
        }),
    decreases k - j,
{
    let w = ascii_loop(bytes, s, from, k, j, avail, acc)->Ok_0;
    if j >= k {
        assert(w == acc);
        assert(acc.take(acc.len() as int) =~= acc);
    } else {
        let chr: u8 = if j < bytes.len() { bytes[j as int] } else { 0x20u8 };
        let acc2 = acc + value_bits(chr as nat, 8);
        assert(w == ascii_loop(bytes, s, from, k, j + 1, avail, acc2)->Ok_0);
        lemma_ascii_loop_order(bytes, s, from, k, j + 1, avail, acc2);
        assert(w.take(acc.len() as int) =~= acc2.take(acc.len() as int));
        assert(acc2.take(acc.len() as int) =~= acc);
        assert forall|i: int| j <= i < k implies #[trigger] w.subrange(acc.len() + 8 * (i - j), acc.len() + 8 * (i - j) + 8)
            == value_bits((if i < bytes.len() { bytes[i] } else { 0x20u8 }) as nat, 8) by {
            if i == j {
                assert(w.subrange(acc.len() as int, (acc.len() + 8) as int) =~= acc2.subrange(acc.len() as int, (acc.len() + 8) as int)) by {
                    assert forall|q: int| 0 <= q < 8 implies #[trigger] w.subrange(acc.len() as int, (acc.len() + 8) as int)[q]
                        == acc2.subrange(acc.len() as int, (acc.len() + 8) as int)[q] by {
                        assert(w.take(acc2.len() as int)[acc.len() + q] == acc2[acc.len() + q]);
                    }
                }
                assert(acc2.subrange(acc.len() as int, (acc.len() + 8) as int) =~= value_bits(chr as nat, 8));
            } else {
                assert(acc2.len() + 8 * (i - (j + 1)) == acc.len() + 8 * (i - j));
            }
        }
    }
}

/// The bits written for an ASCII field of `k` characters: the `j`-th byte
/// of them is the `j`-th byte of the string, or a space past its end, the
/// first character in the highest bits.
pub proof fn lemma_ascii_bits_order(v: ValueV, name: Seq<char>, from: u32, to: u32, avail: nat)
    requires
        to <= from,
        ascii_bits(v, name, from, to, avail) is Ok,
    ensures
        ({
            let w = ascii_bits(v, name, from, to, avail)->Ok_0;
            let bytes = encode_utf8(v->Str_0);
            let k = (from - to + 1) / 8;
            &&& v is Str
            &&& bytes.len() <= k
            &&& w.len() == from - to + 1
            &&& forall|j: int| 0 <= j < k ==> #[trigger] crate::bitstream::bits_value(w.subrange(8 * j, 8 * j + 8))
                == (if j < bytes.len() { bytes[j] } else { 0x20u8 }) as nat
        }),
{
    let s = v->Str_0;
    let bytes = encode_utf8(s);
    let length = (from - to + 1) as nat;
    let k = length / 8;
    lemma_ascii_loop_order(bytes, s, from, k, 0, avail, Seq::empty());
    let w = ascii_bits(v, name, from, to, avail)->Ok_0;
    assert forall|j: int| 0 <= j < k implies #[trigger] crate::bitstream::bits_value(w.subrange(8 * j, 8 * j + 8))
        == (if j < bytes.len() { bytes[j] } else { 0x20u8 }) as nat by {
        let c: u8 = if j < bytes.len() { bytes[j] } else { 0x20u8 };
        assert(w.subrange(0 + 8 * (j - 0), 0 + 8 * (j - 0) + 8) == value_bits(c as nat, 8));
        crate::bitstream::lemma_bits_value_of_value_bits(c as nat, 8);
        vstd::arithmetic::power2::lemma2_to64();
    }
}

/// The value of a field in an object, zero where it is absent.
pub open spec fn field_or_zero(o: ObjectV, name: Seq<char>) -> ValueV {
    match obj_get(o, name) {
        Some(v) => v,
        None => ValueV::Number(Number::PosInt(0), Seq::empty()),
    }
}

/// The bit fields of a Fixed item from the `i`-th on, written from the
/// fields of `o`: `out` holds the bits written so far, of `total`; `fx` is
/// the FX bit to write, if the item is part of a Variable, and `used` tells
/// whether it was written. A field whose condition fails is skipped.
pub open spec fn fixed_write_loop(bits: Seq<Bits>, i: nat, o: ObjectV, fx: Option<bool>, total: nat, out: Seq<bool>, used: bool)
    -> Result<(Seq<bool>, bool), Fail>
    decreases bits.len() - i,
{
    if i >= bits.len() {
        Ok((out, used))
    } else {
        let b = bits[i as int];
        let enc = field_encode(b);
        let avail = (total - out.len()) as nat;
        match bits_range(b) {
            Err(e) => Err(Fail::Error(e)),
            Ok((from, to)) => if from - to + 1 > u32::MAX {
                Err(Fail::Panic)
            } else if b.condition is Some && !is_uint(obj_get(o, b.condition.unwrap().key@), b.condition.unwrap().val as u64) {
                fixed_write_loop(bits, i + 1, o, fx, total, out, used)
            } else if b.fx == Some(1u64) {
                if used {
                    Err(Fail::Error(ErrorV::InvalidSpec { child: InvalidSpecV::FxUsedTwice }))
                } else {
                    match fx {
                        None => Err(Fail::Error(ErrorV::InvalidSpec { child: InvalidSpecV::FxOutsideVariable })),
                        Some(x) => match put_bits(from, to, avail, enc, if x { 1u64 } else { 0u64 }) {
                            Err(e) => Err(e),
                            Ok(w) => fixed_write_loop(bits, i + 1, o, fx, total, out + w, true),
                        },
                    }
                }
            } else if is_spare_name(b.short_name@) {
                match put_bits(from, to, avail, enc, 0) {
                    Err(e) => Err(e),
                    Ok(w) => fixed_write_loop(bits, i + 1, o, fx, total, out + w, used),
                }
            } else {
                let v = field_or_zero(o, b.short_name@);
                if enc == Encode::Ascii {
                    match ascii_bits(v, b.short_name@, from, to, avail) {
                        Err(e) => Err(e),
                        Ok(w) => fixed_write_loop(bits, i + 1, o, fx, total, out + w, used),
                    }
                } else {
                    match field_number(v, b, (from - to + 1) as u32) {
                        Err(e) => Err(Fail::Error(e)),
                        Ok(x) => match put_bits(from, to, avail, enc, x) {
                            Err(e) => Err(e),
                            Ok(w) => fixed_write_loop(bits, i + 1, o, fx, total, out + w, used),
                        },
                    }
                }
            },
        }
    }
}

/// The bits that the fields of a Fixed item from the `i`-th on add to
/// `out` before the last field is done or one fails: what `fixed_write_loop`
/// writes, also when it fails.
pub open spec fn fixed_written(bits: Seq<Bits>, i: nat, o: ObjectV, fx: Option<bool>, total: nat, out: Seq<bool>, used: bool)
    -> Seq<bool>
    decreases bits.len() - i,
{
    if i >= bits.len() {
        out
    } else {
        let b = bits[i as int];
        let enc = field_encode(b);
        let avail = (total - out.len()) as nat;
        match bits_range(b) {
            Err(_) => out,
            Ok((from, to)) => if from - to + 1 > u32::MAX {
                out
            } else if b.condition is Some && !is_uint(obj_get(o, b.condition.unwrap().key@), b.condition.unwrap().val as u64) {
                fixed_written(bits, i + 1, o, fx, total, out, used)
            } else if b.fx == Some(1u64) {
                if used {
                    out
                } else {
                    match fx {
                        None => out,
                        Some(x) => match put_bits(from, to, avail, enc, if x { 1u64 } else { 0u64 }) {
                            Err(_) => out,
                            Ok(w) => fixed_written(bits, i + 1, o, fx, total, out + w, true),
                        },
                    }
                }
            } else if is_spare_name(b.short_name@) {
                match put_bits(from, to, avail, enc, 0) {
                    Err(_) => out,
                    Ok(w) => fixed_written(bits, i + 1, o, fx, total, out + w, used),
                }
            } else {
                let v = field_or_zero(o, b.short_name@);
                if enc == Encode::Ascii {
                    match ascii_bits(v, b.short_name@, from, to, avail) {
                        Err(_) => out + ascii_written(v, from, to, avail),
                        Ok(w) => fixed_written(bits, i + 1, o, fx, total, out + w, used),
                    }
                } else {
                    match field_number(v, b, (from - to + 1) as u32) {
                        Err(_) => out,
                        Ok(x) => match put_bits(from, to, avail, enc, x) {
                            Err(_) => out,
                            Ok(w) => fixed_written(bits, i + 1, o, fx, total, out + w, used),
                        },
                    }
                }
            },
        }
    }
}

/// The bytes of a Fixed item written from `v`, an object; `fx` is the FX
/// bit to write, if the item is part of a Variable.
pub open spec fn spec_write_fixed(fixed: Fixed, v: ValueV, fx: Option<bool>) -> Result<Seq<u8>, Fail> {
    match v {
        ValueV::Object(o) => if fixed.length * 8 > u32::MAX {
            Err(Fail::Panic)
        } else {
            let total = (fixed.length * 8) as nat;
            match fixed_write_loop(fixed.bits@, 0, o, fx, total, Seq::empty(), false) {
                Err(e) => Err(e),
                Ok((out, used)) => if out.len() != total {
                    Err(Fail::Error(ErrorV::InvalidSpec { child: InvalidSpecV::NonContinousBits }))
                } else if fx is Some && !used {
                    Err(Fail::Error(ErrorV::InvalidSpec { child: InvalidSpecV::FxNotUsed }))
                } else {
                    Ok(bits_bytes(out))
                },
            }
        },
        _ => Err(Fail::Error(ErrorV::ExpectedMap)),
    }
}

/// Writes an ASCII field.
fn write_ascii(bit_writer: &mut BitWriter, writer: &mut Vec<u8>, range: (u32, u32), name: &String, value: &Value) -> (r: Result<(), Error>)
    requires
        old(bit_writer).inv(),
        range.1 <= range.0,
        range.0 - range.1 + 1 <= u32::MAX,
        !panics(ascii_bits(value@, name@, range.0, range.1, old(bit_writer).out_pos())),
    ensures
        final(bit_writer).inv(),
        old(writer)@.is_prefix_of(final(writer)@),
        match ascii_bits(value@, name@, range.0, range.1, old(bit_writer).out_pos()) {
            Ok(w) => r is Ok && final(bit_writer).stream(final(writer)@) == old(bit_writer).stream(old(writer)@) + w
                && final(bit_writer).out_pos() + w.len() == old(bit_writer).out_pos(),
            Err(Fail::Error(e)) => r matches Err(x) && x@ == e,
            Err(Fail::Panic) => false,
        },
        r is Err ==> final(bit_writer).stream(final(writer)@)
            == old(bit_writer).stream(old(writer)@) + ascii_written(value@, range.0, range.1, old(bit_writer).out_pos()),
{
    let (from, to) = range;
    let length = from - to + 1;
    if length % 8 != 0 {
        return Err(Error::InvalidSpec { child: InvalidSpec::BadAsciiLength { field: name.clone() } });
    }
    let s = match value {
        Value::Str(s) => s,
        _ => {
            return Err(Error::ExpectedStringForAscii { field: name.clone() });
        },
    };
    let bytes = s.as_str().as_bytes();
    if bytes.len() > (length / 8) as usize {
        return Err(Error::AsciiStringTooLong { string: s.clone() });
    }
    let ghost k = (length / 8) as nat;
    let ghost avail = bit_writer.out_pos();
    let ghost s0 = bit_writer.stream(writer@);
    let ghost mut acc: Seq<bool> = Seq::empty();
    let mut ii: usize = 0;
    let mut pos = from;
    assert(s0 + acc =~= s0);
    while pos > to
        invariant
            bit_writer.inv(),
            bytes@ == encode_utf8(s@),
            bytes@.len() <= k,
            k == (from - to + 1) / 8,
            (from - to + 1) % 8 == 0,
            to <= from,
            ii <= k,
            pos == from - 8 * ii,
            pos + 1 == to + 8 * (k - ii),
            acc.len() == 8 * ii,
            old(writer)@.is_prefix_of(writer@),
            bit_writer.stream(writer@) == s0 + acc,
            bit_writer.out_pos() + acc.len() == avail,
            s0 == old(bit_writer).stream(old(writer)@),
            avail == old(bit_writer).out_pos(),
            range == (from, to),
            ascii_bits(value@, name@, from, to, avail) == ascii_loop(bytes@, s@, from, k, 0, avail, Seq::empty()),
            ascii_loop(bytes@, s@, from, k, 0, avail, Seq::empty()) == ascii_loop(bytes@, s@, from, k, ii as nat, avail, acc),
            value@ == ValueV::Str(s@),
            ascii_written(value@, from, to, avail) == ascii_written_loop(bytes@, from, k, ii as nat, avail, acc),
            !panics(ascii_loop(bytes@, s@, from, k, ii as nat, avail, acc)),
        decreases pos,
    {
        let chr: u8 = if ii < bytes.len() { bytes[ii] } else { 0x20u8 };
        if !(0x20u8 <= chr && chr <= 0x7eu8) {
            return Err(Error::InvalidAsciiChar { chr: chr as char, string: s.clone() });
        }
        let ghost w_before = writer@;
        bit_writer.write_bits(writer, (pos, pos - 7), chr as u64)?;
        proof {
            acc = acc + value_bits(chr as nat, 8);
            assert(s0 + acc == old(bit_writer).stream(old(writer)@) + acc);
        }
        ii = ii + 1;
        pos = pos - 8;
    }
    Ok(())
}

/// The bits of a byte string that extends `w0` by bits `out`, a whole
/// number of bytes, are the bytes of `out`.
proof fn lemma_written_bytes(w0: Seq<u8>, w: Seq<u8>, out: Seq<bool>)
    requires
        w0.is_prefix_of(w),
        bytes_bits(w) == bytes_bits(w0) + out,
        out.len() % 8 == 0,
    ensures
        w == w0 + bits_bytes(out),
{
    let tail = w.skip(w0.len() as int);
    assert(w =~= w0 + tail);
    lemma_bytes_bits_append(w0, tail);
    let a = bytes_bits(w0);
    assert((a + bytes_bits(tail)).skip(a.len() as int) =~= bytes_bits(tail));
    assert((a + out).skip(a.len() as int) =~= out);
    assert(bytes_bits(tail) =~= out);
    lemma_bits_bytes(out);
    lemma_bytes_bits_injective(tail, bits_bytes(out));
}

/// The whole bytes that the bits `b` fill, leaving out a last partial byte.
pub open spec fn complete_bytes(b: Seq<bool>) -> Seq<u8> {
    bits_bytes(b.take(8 * (b.len() / 8) as int))
}

/// A byte string that extends `w0` by the bits `out`, except for fewer than
/// eight bits still pending, extends it by the complete bytes of `out`.
proof fn lemma_partial_bytes(w0: Seq<u8>, w: Seq<u8>, pend: Seq<bool>, out: Seq<bool>)
    requires
        w0.is_prefix_of(w),
        bytes_bits(w) + pend == bytes_bits(w0) + out,
        pend.len() < 8,
    ensures
        w == w0 + complete_bytes(out),
{
    lemma_bytes_bits_len(w);
    lemma_bytes_bits_len(w0);
    let n = w.len() - w0.len();
    let c = out.take(8 * n);
    let a = bytes_bits(w0);
    assert((bytes_bits(w) + pend).len() == (a + out).len());
    assert(out.len() == 8 * n + pend.len());
    assert(bytes_bits(w) =~= (bytes_bits(w) + pend).take(bytes_bits(w).len() as int));
    assert((a + out).take(bytes_bits(w).len() as int) =~= a + c);
    assert(c.len() == 8 * n);
    assert((8 * n) % 8 == 0) by (nonlinear_arith)
        requires
            n >= 0;
    lemma_written_bytes(w0, w, c);
    assert(out.len() / 8 == n) by (nonlinear_arith)
        requires
            out.len() == 8 * n + pend.len(),
            pend.len() < 8,
            n >= 0;
}

/// Writes a Fixed item from the fields of `field`, with the FX bit `fx` if
/// the item is part of a Variable.
#[verifier::rlimit(60)]
fn write_fixed(writer: &mut Vec<u8>, fixed: &Fixed, field: &Value, fx: Option<bool>) -> (r: Result<(), Error>)
    requires
        !panics(spec_write_fixed(*fixed, field@, fx)),
    ensures
        old(writer)@.is_prefix_of(final(writer)@),
        match spec_write_fixed(*fixed, field@, fx) {
            Ok(bytes) => r is Ok && final(writer)@ == old(writer)@ + bytes,
            Err(Fail::Error(e)) => r matches Err(x) && x@ == e,
            Err(Fail::Panic) => false,
        },
        r is Err ==> final(writer)@ == old(writer)@ + match field@ {
            ValueV::Object(o) => complete_bytes(
                fixed_written(fixed.bits@, 0, o, fx, (fixed.length * 8) as nat, Seq::empty(), false),
            ),
            _ => Seq::empty(),
        },
{
    let object = match field {
        Value::Object(o) => o,
        _ => {
            return Err(Error::ExpectedMap);
        },
    };
    let ghost o = object@;
    let ghost w0 = writer@;
    let ghost total = (fixed.length * 8) as nat;
    let mut fx_used = false;
    let mut bit_writer = BitWriter::new(fixed.length);
    let default = plain_number(Number::PosInt(0));
    let ghost mut out: Seq<bool> = Seq::empty();
    let mut i: usize = 0;
    proof {
        assert(bytes_bits(w0) + out =~= bytes_bits(w0));
        assert(bit_writer.stream(writer@) =~= bytes_bits(w0));
        assert(out.take(0) =~= Seq::<bool>::empty());
        assert(complete_bytes(out) =~= Seq::<u8>::empty()) by {
            lemma_bits_bytes(Seq::<bool>::empty());
        }
        assert(w0 + complete_bytes(out) =~= w0);
    }
    while i < fixed.bits.len()
        invariant
            field@ == ValueV::Object(o),
            o == object@,
            w0 == old(writer)@,
            total == fixed.length * 8,
            fixed.length * 8 <= u32::MAX,
            default@ == ValueV::Number(Number::PosInt(0), Seq::empty()),
            i <= fixed.bits@.len(),
            bit_writer.inv(),
            bit_writer.stream(writer@) == bytes_bits(w0) + out,
            bit_writer.out_pos() + out.len() == total,
            w0.is_prefix_of(writer@),
            fixed_write_loop(fixed.bits@, 0, o, fx, total, Seq::empty(), false)
                == fixed_write_loop(fixed.bits@, i as nat, o, fx, total, out, fx_used),
            !panics(fixed_write_loop(fixed.bits@, i as nat, o, fx, total, out, fx_used)),
            fixed_written(fixed.bits@, 0, o, fx, total, Seq::empty(), false)
                == fixed_written(fixed.bits@, i as nat, o, fx, total, out, fx_used),
            writer@ == w0 + complete_bytes(out),
        decreases fixed.bits.len() - i,
    {
        let bits = &fixed.bits[i];
        let encode = match bits.encode {
            Some(e) => e,
            None => Encode::Unsigned,
        };
        let name = &bits.short_name;
        let (from, to) = field_range(bits)?;
        let length = from - to + 1;
        if let Some(condition) = &bits.condition {
            let matched = match object.get(condition.key.as_str()) {
                Some(Value::Number(jn)) => match jn.n {
                    Number::PosInt(x) => x == condition.val as u64,
                    _ => false,
                },
                _ => false,
            };
            if !matched {
                i = i + 1;
                continue;
            }
        }
        let value: u64 = if bits.fx == Some(1u64) {
            if fx_used {
                return Err(Error::InvalidSpec { child: InvalidSpec::FxUsedTwice });
            }
            fx_used = true;
            match fx {
                Some(b) => if b { 1 } else { 0 },
                None => {
                    return Err(Error::InvalidSpec { child: InvalidSpec::FxOutsideVariable });
                },
            }
        } else if is_spare(name) {
            0
        } else {
            let v: &Value = match object.get(name.as_str()) {
                Some(v) => v,
                None => &default,
            };
            if encode == Encode::Ascii {
                let ghost avail = (total - out.len()) as nat;
                let res = write_ascii(&mut bit_writer, writer, (from, to), name, v);
                if res.is_err() {
                    proof {
                        let w = ascii_written(v@, from, to, avail);
                        assert(bytes_bits(w0) + out + w =~= bytes_bits(w0) + (out + w));
                        bit_writer.lemma_pending_len();
                        lemma_partial_bytes(w0, writer@, bit_writer.pending(), out + w);
                    }
                    return res;
                }
                proof {
                    let w = ascii_bits(v@, name@, from, to, avail)->Ok_0;
                    assert(bytes_bits(w0) + out + w =~= bytes_bits(w0) + (out + w));
                    out = out + w;
                    bit_writer.lemma_pending_len();
                    lemma_partial_bytes(w0, writer@, bit_writer.pending(), out);
                }
                i = i + 1;
                continue;
            }
            number_of_field(v, bits, length)?
        };
        let value = if encode == Encode::Octal { octal_code(value, length)? } else { value };
        bit_writer.write_bits(writer, (from, to), value)?;
        proof {
            let w = value_bits(value as nat, length as nat);
            assert(bytes_bits(w0) + out + w =~= bytes_bits(w0) + (out + w));
            out = out + w;
            bit_writer.lemma_pending_len();
            lemma_partial_bytes(w0, writer@, bit_writer.pending(), out);
        }
        i = i + 1;
    }
    bit_writer.finish()?;
    if fx.is_some() && !fx_used {
        return Err(Error::InvalidSpec { child: InvalidSpec::FxNotUsed });
    }
    proof {
        bit_writer.lemma_pending_len();
        lemma_bytes_bits_len(writer@);
        lemma_bytes_bits_len(w0);
        assert(out.len() == total);
        assert(bytes_bits(writer@) + bit_writer.pending() == bytes_bits(w0) + out);
        assert(bit_writer.pending().len() % 8 == 0);
        assert(bit_writer.pending().len() == 0);
        assert(bytes_bits(writer@) =~= bytes_bits(w0) + out);
        lemma_written_bytes(w0, writer@, out);
    }
    Ok(())
}

/// A present item to write: its FRN (from zero), the index of its data item
/// (or Compound subitem), and the index of its entry in the object.
pub type WriteItem = (usize, usize, usize);

/// The FRNs of items.
pub open spec fn item_frns(items: Seq<WriteItem>) -> Seq<usize> {
    items.map_values(|x: WriteItem| x.0)
}

/// The FSPEC bytes written for the FRNs from the `i`-th on: `out` holds the
/// complete bytes, `buf` the byte being filled, which covers the FRNs below
/// `next` and from `next - 7`. An FRN of an earlier byte than `buf` is a
/// failed assertion.
pub open spec fn fspec_loop(frns: Seq<usize>, i: nat, out: Seq<u8>, buf: u8, next: nat) -> Result<Seq<u8>, Fail>
    decreases frns.len() - i, (if i < frns.len() && frns[i as int] >= next { frns[i as int] + 1 - next } else { 0 }),
{
    if i >= frns.len() {
        Ok(out.push(buf))
    } else {
        let f = frns[i as int];
        if f >= next {
            if next + 7 > usize::MAX {
                Err(Fail::Panic)
            } else {
                fspec_loop(frns, i, out.push(buf | 1u8), 0, next + 7)
            }
        } else if next - f > 7 {
            Err(Fail::Panic)
        } else {
            fspec_loop(frns, i + 1, out, buf | (1u8 << ((next - f) as u8)), next)
        }
    }
}

/// The FSPEC written for items, in their order: one bit per FRN, the FX bit
/// set on every byte but the last.
pub open spec fn spec_write_fspec(frns: Seq<usize>) -> Result<Seq<u8>, Fail> {
    fspec_loop(frns, 0, Seq::empty(), 0, 7)
}

/// Writes the FSPEC of items.
fn write_fspec(writer: &mut Vec<u8>, items: &Vec<WriteItem>)
    requires
        !panics(spec_write_fspec(item_frns(items@))),
    ensures
        spec_write_fspec(item_frns(items@)) matches Ok(b) && final(writer)@ == old(writer)@ + b,
{
    let ghost frns = item_frns(items@);
    let ghost w0 = writer@;
    let mut buf: u8 = 0;
    let mut next_start: usize = 7;
    let mut i: usize = 0;
    assert(w0 + Seq::<u8>::empty() =~= w0);
    let ghost mut out: Seq<u8> = Seq::empty();
    while i < items.len()
        invariant
            frns == item_frns(items@),
            frns.len() == items@.len(),
            w0 == old(writer)@,
            i <= items@.len(),
            writer@ == w0 + out,
            spec_write_fspec(frns) == fspec_loop(frns, i as nat, out, buf, next_start as nat),
            !panics(fspec_loop(frns, i as nat, out, buf, next_start as nat)),
        decreases items.len() - i,
    {
        let frn = items[i].0;
        assert(frn == frns[i as int]);
        while frn >= next_start
            invariant
                frns == item_frns(items@),
                frns.len() == items@.len(),
                w0 == old(writer)@,
                i < items@.len(),
                frn == frns[i as int],
                writer@ == w0 + out,
                spec_write_fspec(frns) == fspec_loop(frns, i as nat, out, buf, next_start as nat),
                !panics(fspec_loop(frns, i as nat, out, buf, next_start as nat)),
            decreases frn + 7 - next_start,
        {
            buf = buf | 1;
            writer.push(buf);
            proof {
                out = out.push(buf);
                assert(writer@ =~= w0 + out);
            }
            buf = 0;
            next_start = next_start + 7;
        }
        buf = buf | (1u8 << ((next_start - frn) as u8));
        i = i + 1;
    }
    writer.push(buf);
    proof {
        assert(writer@ =~= w0 + out.push(buf));
    }
}

/// Whether some field of a Fixed part, from the `j`-th on, other than an FX
/// bit or a spare field, has a value in `o`.
pub open spec fn part_has_field(bits: Seq<Bits>, j: nat, o: ObjectV) -> bool
    decreases bits.len() - j,
{
    if j >= bits.len() {
        false
    } else {
        let b = bits[j as int];
        if b.fx == Some(1u64) || is_spare_name(b.short_name@) {
            part_has_field(bits, j + 1, o)
        } else if obj_get(o, b.short_name@) is Some {
            true
        } else {
            part_has_field(bits, j + 1, o)
        }
    }
}

/// The last part of a Variable, from the `idx`-th on, with a field that has
/// a value in `o`; every part must be Fixed.
pub open spec fn last_used_part(formats: Seq<Format>, o: ObjectV, idx: nat, cur: Option<nat>) -> Result<Option<nat>, Fail>
    decreases formats.len() - idx,
{
    if idx >= formats.len() {
        Ok(cur)
    } else {
        match formats[idx as int] {
            Format::Fixed(f) => if part_has_field(f.bits@, 0, o) {
                last_used_part(formats, o, idx + 1, Some(idx))
            } else {
                last_used_part(formats, o, idx + 1, cur)
            },
            _ => Err(Fail::Error(ErrorV::InvalidSpec { child: InvalidSpecV::ExpectedFixedInVariable })),
        }
    }
}

/// The last part with a field is a part.
pub proof fn lemma_last_used_part(formats: Seq<Format>, o: ObjectV, idx: nat, cur: Option<nat>)
    requires
        cur matches Some(c) ==> c < formats.len(),
    ensures
        last_used_part(formats, o, idx, cur) matches Ok(Some(m)) ==> m < formats.len(),
    decreases formats.len() - idx,
{
    if idx < formats.len() {
        if formats[idx as int] is Fixed {
            lemma_last_used_part(formats, o, idx + 1, Some(idx));
            lemma_last_used_part(formats, o, idx + 1, cur);
        }
    }
}

/// The parts of a Variable from the `idx`-th to the `last`-th, each written
/// from `v` with its FX bit set but on the last.
pub open spec fn var_parts_write(formats: Seq<Format>, v: ValueV, last: nat, idx: nat, acc: Seq<u8>) -> Result<Seq<u8>, Fail>
    decreases last + 1 - idx,
{
    if idx > last || idx >= formats.len() {
        Ok(acc)
    } else {
        match formats[idx as int] {
            Format::Fixed(f) => match spec_write_fixed(f, v, Some(idx < last)) {
                Err(e) => Err(e),
                Ok(b) => var_parts_write(formats, v, last, idx + 1, acc + b),
            },
            _ => Err(Fail::Error(ErrorV::InvalidSpec { child: InvalidSpecV::ExpectedFixedInVariable })),
        }
    }
}

/// The repetitions of a Variable with one Fixed part from the `k`-th on,
/// each with its FX bit set but on the last.
pub open spec fn var_repeat_write(fixed: Fixed, a: Seq<ValueV>, k: nat, acc: Seq<u8>) -> Result<Seq<u8>, Fail>
    decreases a.len() - k,
{
    if k >= a.len() {
        Ok(acc)
    } else {
        match spec_write_fixed(fixed, a[k as int], Some(k < a.len() - 1)) {
            Err(e) => Err(e),
            Ok(b) => var_repeat_write(fixed, a, k + 1, acc + b),
        }
    }
}

/// The bytes of a Variable item written from `v`: with one Fixed part, an
/// array of its repetitions (not empty); with several, an object, written
/// up to its last part that has a field in it.
pub open spec fn spec_write_variable(var: Variable, v: ValueV) -> Result<Seq<u8>, Fail> {
    if var.formats@.len() == 1 {
        match v {
            ValueV::Array(a) => if a.len() == 0 {
                Err(Fail::Panic)
            } else {
                match var.formats@[0] {
                    Format::Fixed(fixed) => var_repeat_write(fixed, a, 0, Seq::empty()),
                    _ => Err(Fail::Error(ErrorV::InvalidSpec { child: InvalidSpecV::ExpectedFixedInVariable })),
                }
            },
            _ => Err(Fail::Error(ErrorV::ExpectedArray)),
        }
    } else {
        match v {
            ValueV::Object(o) => match last_used_part(var.formats@, o, 0, None) {
                Err(e) => Err(e),
                Ok(None) => Ok(Seq::empty()),
                Ok(Some(m)) => var_parts_write(var.formats@, v, m, 0, Seq::empty()),
            },
            _ => Err(Fail::Error(ErrorV::ExpectedMap)),
        }
    }
}

fn expect_fixed(format: &Format) -> (r: Result<&Fixed, Error>)
    ensures
        match *format {
            Format::Fixed(f) => r matches Ok(x) && *x == f,
            _ => r matches Err(e) && e@ == ErrorV::InvalidSpec { child: InvalidSpecV::ExpectedFixedInVariable },
        },
{
    if let Format::Fixed(fixed) = format {
        Ok(fixed)
    } else {
        Err(Error::InvalidSpec { child: InvalidSpec::ExpectedFixedInVariable })
    }
}

/// Whether a Fixed part has a field with a value in `object`.
fn has_field(fixed: &Fixed, object: &Object) -> (r: bool)
    ensures
        r == part_has_field(fixed.bits@, 0, object@),
{
    let mut j: usize = 0;
    while j < fixed.bits.len()
        invariant
            j <= fixed.bits@.len(),
            part_has_field(fixed.bits@, 0, object@) == part_has_field(fixed.bits@, j as nat, object@),
        decreases fixed.bits.len() - j,
    {
        let bits = &fixed.bits[j];
        if bits.fx == Some(1u64) || is_spare(&bits.short_name) {
            j = j + 1;
            continue;
        }
        if object.find(bits.short_name.as_str()).is_some() {
            return true;
        }
        j = j + 1;
    }
    false
}

/// Writes a Variable item.
#[verifier::spinoff_prover]
#[verifier::rlimit(40)]
fn write_variable(writer: &mut Vec<u8>, variable: &Variable, field: &Value) -> (r: Result<(), Error>)
    requires
        !panics(spec_write_variable(*variable, field@)),
    ensures
        old(writer)@.is_prefix_of(final(writer)@),
        match spec_write_variable(*variable, field@) {
            Ok(bytes) => r is Ok && final(writer)@ == old(writer)@ + bytes,
            Err(Fail::Error(e)) => r matches Err(x) && x@ == e,
            Err(Fail::Panic) => false,
        },
{
    let ghost w0 = writer@;
    if variable.formats.len() == 1 {
        let array = match field {
            Value::Array(a) => a,
            _ => {
                return Err(Error::ExpectedArray);
            },
        };
        proof {
            lemma_values_view_len(array@);
        }
        let last = array.len() - 1;
        let fixed = expect_fixed(&variable.formats[0])?;
        let ghost a = values_view(array@);
        let mut idx: usize = 0;
        assert(w0 + Seq::<u8>::empty() =~= w0);
        while idx < array.len()
            invariant
                w0 == old(writer)@,
                a == values_view(array@),
                a.len() == array@.len(),
                last + 1 == array@.len(),
                idx <= array@.len(),
                variable.formats@.len() == 1,
                variable.formats@[0] == Format::Fixed(*fixed),
                field@ == ValueV::Array(a),
                w0.is_prefix_of(writer@),
                spec_write_variable(*variable, field@) == var_repeat_write(*fixed, a, idx as nat, writer@.skip(w0.len() as int)),
                !panics(var_repeat_write(*fixed, a, idx as nat, writer@.skip(w0.len() as int))),
            decreases array.len() - idx,
        {
            proof {
                lemma_values_view_index(array@, idx as int);
                assert(w0 + Seq::<u8>::empty() =~= w0);
                assert(writer@.skip(w0.len() as int).len() >= 0);
            }
            let ghost before = writer@;
            write_fixed(writer, fixed, &array[idx], Some(idx < last))?;
            proof {
                assert(writer@.skip(w0.len() as int) =~= before.skip(w0.len() as int) + writer@.skip(before.len() as int));
                assert(writer@.skip(before.len() as int) =~= spec_write_fixed(*fixed, a[idx as int], Some(idx < last))->Ok_0);
            }
            idx = idx + 1;
        }
        proof {
            assert(writer@ =~= w0 + writer@.skip(w0.len() as int));
        }
        return Ok(());
    }
    let object = match field {
        Value::Object(o) => o,
        _ => {
            return Err(Error::ExpectedMap);
        },
    };
    let mut max_subitem: Option<usize> = None;
    let mut idx: usize = 0;
    while idx < variable.formats.len()
        invariant
            idx <= variable.formats@.len(),
            writer@ == w0,
            w0 == old(writer)@,
            field@ == ValueV::Object(object@),
            variable.formats@.len() != 1,
            spec_write_variable(*variable, field@) == match last_used_part(variable.formats@, object@, idx as nat, match max_subitem {
                Some(m) => Some(m as nat),
                None => None,
            }) {
                Err(e) => Err(e),
                Ok(None) => Ok(Seq::empty()),
                Ok(Some(m)) => var_parts_write(variable.formats@, field@, m, 0, Seq::empty()),
            },
            max_subitem matches Some(m) ==> m < idx,
        decreases variable.formats.len() - idx,
    {
        let fixed = expect_fixed(&variable.formats[idx])?;
        if has_field(fixed, object) {
            max_subitem = Some(idx);
        }
        idx = idx + 1;
    }
    let max_subitem = match max_subitem {
        Some(m) => m,
        None => {
            assert(w0 + Seq::<u8>::empty() =~= w0);
            return Ok(());
        },
    };
    let mut idx: usize = 0;
    let nformats = variable.formats.len();
    assert(writer@.skip(w0.len() as int) =~= Seq::<u8>::empty());
    while idx <= max_subitem
        invariant
            w0 == old(writer)@,
            nformats == variable.formats@.len(),
            max_subitem < variable.formats@.len(),
            idx <= max_subitem + 1,
            w0.is_prefix_of(writer@),
            spec_write_variable(*variable, field@) == var_parts_write(variable.formats@, field@, max_subitem as nat, idx as nat, writer@.skip(w0.len() as int)),
            !panics(var_parts_write(variable.formats@, field@, max_subitem as nat, idx as nat, writer@.skip(w0.len() as int))),
        decreases max_subitem + 1 - idx,
    {
        let fixed = expect_fixed(&variable.formats[idx])?;
        let ghost before = writer@;
        write_fixed(writer, fixed, field, Some(idx < max_subitem))?;
        proof {
            assert(writer@.skip(w0.len() as int) =~= before.skip(w0.len() as int) + writer@.skip(before.len() as int));
            assert(writer@.skip(before.len() as int) =~= spec_write_fixed(*fixed, field@, Some(idx < max_subitem))->Ok_0);
        }
        idx = idx + 1;
    }
    proof {
        assert(writer@ =~= w0 + writer@.skip(w0.len() as int));
    }
    Ok(())
}

/// The subitems of a Compound that `o` holds, as announced by the fields of
/// the `byte_no`-th part of its presence field, from the `j`-th field on: a
/// field names its subitem, its bit gives the FRN and its presence attribute
/// the index of the subitem.
pub open spec fn compound_present_bits(o: ObjectV, byte_no: nat, bits: Seq<Bits>, j: nat, acc: Seq<WriteItem>)
    -> Result<Seq<WriteItem>, Fail>
    decreases bits.len() - j,
{
    if j >= bits.len() {
        Ok(acc)
    } else {
        let b = bits[j as int];
        if b.fx == Some(1u64) || is_spare_name(b.short_name@) {
            compound_present_bits(o, byte_no, bits, j + 1, acc)
        } else {
            match obj_find(o, b.short_name@) {
                None => compound_present_bits(o, byte_no, bits, j + 1, acc),
                Some(e) => match b.bit {
                    None => Err(Fail::Error(ErrorV::InvalidSpec { child: InvalidSpecV::InvalidCompoundSubitem })),
                    Some(bit) => if bit > 8 || byte_no * 7 + (8 - bit) > usize::MAX {
                        Err(Fail::Panic)
                    } else {
                        match b.presence {
                            None => Err(Fail::Error(ErrorV::InvalidSpec { child: InvalidSpecV::InvalidCompoundSubitem })),
                            Some(index) => compound_present_bits(o, byte_no, bits, j + 1,
                                acc.push(((byte_no * 7 + (8 - bit)) as usize, index, e as usize))),
                        }
                    },
                },
            }
        }
    }
}

/// The subitems of a Compound that `o` holds, from the `byte_no`-th part of
/// its presence field on; every part must be Fixed.
pub open spec fn compound_present(heads: Seq<Format>, o: ObjectV, byte_no: nat, acc: Seq<WriteItem>)
    -> Result<Seq<WriteItem>, Fail>
    decreases heads.len() - byte_no,
{
    if byte_no >= heads.len() {
        Ok(acc)
    } else {
        match heads[byte_no as int] {
            Format::Fixed(fixed) => match compound_present_bits(o, byte_no, fixed.bits@, 0, acc) {
                Err(e) => Err(e),
                Ok(acc2) => compound_present(heads, o, byte_no + 1, acc2),
            },
            _ => Err(Fail::Error(ErrorV::InvalidSpec { child: InvalidSpecV::ExpectedFixedInVariable })),
        }
    }
}

/// The bytes of an item of any format written from `v`.
pub open spec fn spec_write_field(f: Format, v: ValueV) -> Result<Seq<u8>, Fail>
    decreases f, 0nat,
{
    match f {
        Format::Fixed(fixed) => spec_write_fixed(fixed, v, None),
        Format::Variable(var) => spec_write_variable(var, v),
        Format::Compound(c) => match v {
            ValueV::Object(o) => if c.formats@.len() == 0 {
                Err(Fail::Panic)
            } else {
                match c.formats@[0] {
                    Format::Variable(head) => match compound_present(head.formats@, o, 0, Seq::empty()) {
                        Err(e) => Err(e),
                        Ok(items) => match spec_write_fspec(item_frns(items)) {
                            Err(e) => Err(e),
                            Ok(fs) => compound_write(c.formats@, o, items, 0, fs),
                        },
                    },
                    _ => Err(Fail::Error(ErrorV::InvalidSpec { child: InvalidSpecV::ExpectedVariableInCompound })),
                }
            },
            _ => Err(Fail::Error(ErrorV::ExpectedMap)),
        },
        Format::Explicit(e) => match formats_write(e.formats@, v, 0, Seq::empty()) {
            Err(x) => Err(x),
            Ok(body) => if body.len() + 1 > 255 {
                Err(Fail::Error(ErrorV::TooManyBytesWritten { written: (body.len() + 1) as usize, limit: 256 }))
            } else {
                Ok(seq![(body.len() + 1) as u8] + body)
            },
        },
        Format::Repetitive(r) => match v {
            ValueV::Array(a) => if a.len() > 255 {
                Err(Fail::Error(ErrorV::TooManyRepetitiveItems { count: a.len() as usize, limit: 256 }))
            } else {
                rep_write(r.formats@, a, 0, seq![a.len() as u8])
            },
            _ => Err(Fail::Error(ErrorV::RepetitiveExpectsArray)),
        },
        Format::BDS => Err(Fail::Error(ErrorV::BdsNotImplemented)),
    }
}

/// The items from the `i`-th on, each written from the same `v`.
pub open spec fn formats_write(formats: Seq<Format>, v: ValueV, i: nat, acc: Seq<u8>) -> Result<Seq<u8>, Fail>
    decreases formats, formats.len() - i,
{
    if i >= formats.len() {
        Ok(acc)
    } else {
        match spec_write_field(formats[i as int], v) {
            Err(e) => Err(e),
            Ok(b) => formats_write(formats, v, i + 1, acc + b),
        }
    }
}

/// The repetitions from the `k`-th on, each written by all the items.
pub open spec fn rep_write(formats: Seq<Format>, a: Seq<ValueV>, k: nat, acc: Seq<u8>) -> Result<Seq<u8>, Fail>
    decreases formats, formats.len() + 1 + a.len() - k,
{
    if k >= a.len() {
        Ok(acc)
    } else {
        match formats_write(formats, a[k as int], 0, Seq::empty()) {
            Err(e) => Err(e),
            Ok(b) => rep_write(formats, a, k + 1, acc + b),
        }
    }
}

/// The announced subitems of a Compound from the `k`-th on, each written
/// from its entry of `o`.
pub open spec fn compound_write(formats: Seq<Format>, o: ObjectV, items: Seq<WriteItem>, k: nat, acc: Seq<u8>)
    -> Result<Seq<u8>, Fail>
    decreases formats, items.len() - k,
{
    if k >= items.len() {
        Ok(acc)
    } else {
        let (frn, index, e) = items[k as int];
        if index >= formats.len() {
            Err(Fail::Error(ErrorV::InvalidSpec { child: InvalidSpecV::CompoundSubitemOob }))
        } else if e >= o.len() {
            Err(Fail::Panic)
        } else {
            match spec_write_field(formats[index as int], o[e as int].1) {
                Err(x) => Err(x),
                Ok(b) => compound_write(formats, o, items, k + 1, acc + b),
            }
        }
    }
}

/// Writes a Compound item: the FSPEC of the subitems that the value holds,
/// then each of them.
fn write_compound(writer: &mut Vec<u8>, compound: &Compound, field: &Value) -> (r: Result<(), Error>)
    requires
        !panics(spec_write_field(Format::Compound(*compound), field@)),
    ensures
        old(writer)@.is_prefix_of(final(writer)@),
        match spec_write_field(Format::Compound(*compound), field@) {
            Ok(bytes) => r is Ok && final(writer)@ == old(writer)@ + bytes,
            Err(Fail::Error(e)) => r matches Err(x) && x@ == e,
            Err(Fail::Panic) => false,
        },
    decreases *compound, 1nat,
{
    let ghost w0 = writer@;
    let object = match field {
        Value::Object(o) => o,
        _ => {
            return Err(Error::ExpectedMap);
        },
    };
    let ghost o = object@;
    let head = match &compound.formats[0] {
        Format::Variable(v) => v,
        _ => {
            return Err(Error::InvalidSpec { child: InvalidSpec::ExpectedVariableInCompound });
        },
    };
    let mut present_items: Vec<WriteItem> = Vec::new();
    assert(present_items@ =~= Seq::<WriteItem>::empty());
    let mut byte_no: usize = 0;
    while byte_no < head.formats.len()
        invariant
            writer@ == w0,
            w0 == old(writer)@,
            field@ == ValueV::Object(o),
            o == object@,
            compound.formats@.len() > 0,
            compound.formats@[0] == Format::Variable(*head),
            byte_no <= head.formats@.len(),
            compound_present(head.formats@, o, 0, Seq::empty())
                == compound_present(head.formats@, o, byte_no as nat, present_items@),
            !panics(compound_present(head.formats@, o, byte_no as nat, present_items@)),
        decreases head.formats.len() - byte_no,
    {
        let fixed = expect_fixed(&head.formats[byte_no])?;
        let mut j: usize = 0;
        let ghost acc0 = present_items@;
        while j < fixed.bits.len()
            invariant
                writer@ == w0,
                w0 == old(writer)@,
                field@ == ValueV::Object(o),
                o == object@,
                compound.formats@.len() > 0,
                compound.formats@[0] == Format::Variable(*head),
                byte_no < head.formats@.len(),
                head.formats@[byte_no as int] == Format::Fixed(*fixed),
                compound_present(head.formats@, o, 0, Seq::empty())
                    == compound_present(head.formats@, o, byte_no as nat, acc0),
                !panics(compound_present(head.formats@, o, byte_no as nat, acc0)),
                j <= fixed.bits@.len(),
                compound_present_bits(o, byte_no as nat, fixed.bits@, 0, acc0)
                    == compound_present_bits(o, byte_no as nat, fixed.bits@, j as nat, present_items@),
            decreases fixed.bits.len() - j,
        {
            let bits = &fixed.bits[j];
            let key = &bits.short_name;
            if bits.fx == Some(1u64) || is_spare(key) {
                j = j + 1;
                continue;
            }
            let e = match object.find(key.as_str()) {
                Some(e) => e,
                None => {
                    j = j + 1;
                    continue;
                },
            };
            let bit = match bits.bit {
                Some(b) => b,
                None => {
                    return Err(Error::InvalidSpec { child: InvalidSpec::InvalidCompoundSubitem });
                },
            };
            let frn = byte_no * 7 + (8 - bit as usize);
            let index = match bits.presence {
                Some(ix) => ix,
                None => {
                    return Err(Error::InvalidSpec { child: InvalidSpec::InvalidCompoundSubitem });
                },
            };
            present_items.push((frn, index, e));
            j = j + 1;
        }
        byte_no = byte_no + 1;
    }
    let ghost w1 = writer@;
    write_fspec(writer, &present_items);
    let ghost mut acc: Seq<u8> = spec_write_fspec(item_frns(present_items@))->Ok_0;
    let mut k: usize = 0;
    proof {
        lemma_entries_view_len(object.entries@);
        assert(compound_present(head.formats@, o, 0, Seq::empty()) == Ok::<Seq<WriteItem>, Fail>(present_items@));
    }
    while k < present_items.len()
        invariant
            w0 == old(writer)@,
            writer@ == w0 + acc,
            field@ == ValueV::Object(o),
            o == object@,
            o.len() == object.entries@.len(),
            k <= present_items@.len(),
            spec_write_field(Format::Compound(*compound), field@)
                == compound_write(compound.formats@, o, present_items@, k as nat, acc),
            !panics(compound_write(compound.formats@, o, present_items@, k as nat, acc)),
        decreases present_items.len() - k,
    {
        let (frn, index, e) = present_items[k];
        proof {
            lemma_prefix_append(w0, acc);
        }
        if index >= compound.formats.len() {
            return Err(Error::InvalidSpec { child: InvalidSpec::CompoundSubitemOob });
        }
        proof {
            lemma_entries_view_index(object.entries@, e as int);
        }
        let ghost before = writer@;
        let res = write_field(writer, &compound.formats[index], &object.entries[e].1);
        proof {
            lemma_prefix_trans(w0, before, writer@);
        }
        res?;
        proof {
            let b = spec_write_field(compound.formats@[index as int], o[e as int].1)->Ok_0;
            acc = acc + b;
            assert(writer@ =~= w0 + acc);
        }
        k = k + 1;
    }
    proof {
        lemma_prefix_append(w0, acc);
    }
    Ok(())
}

/// A prefix of a prefix is a prefix.
proof fn lemma_prefix_trans(a: Seq<u8>, b: Seq<u8>, c: Seq<u8>)
    requires
        a.is_prefix_of(b),
        b.is_prefix_of(c),
    ensures
        a.is_prefix_of(c),
{
    assert(c.subrange(0, a.len() as int) =~= b.subrange(0, a.len() as int));
}

/// A sequence is a prefix of itself extended.
proof fn lemma_prefix_append(a: Seq<u8>, b: Seq<u8>)
    ensures
        a.is_prefix_of(a + b),
{
    assert((a + b).subrange(0, a.len() as int) =~= a);
}

/// Writes an Explicit item: a length byte, which counts itself, then the
/// items, each written from the same value.
fn write_explicit(writer: &mut Vec<u8>, explicit: &Explicit, field: &Value) -> (r: Result<(), Error>)
    requires
        !panics(spec_write_field(Format::Explicit(*explicit), field@)),
    ensures
        old(writer)@.is_prefix_of(final(writer)@),
        match spec_write_field(Format::Explicit(*explicit), field@) {
            Ok(bytes) => r is Ok && final(writer)@ == old(writer)@ + bytes,
            Err(Fail::Error(e)) => r matches Err(x) && x@ == e,
            Err(Fail::Panic) => false,
        },
    decreases *explicit, 1nat,
{
    let ghost w0 = writer@;
    let start = writer.len();
    writer.push(0);
    let ghost mut body: Seq<u8> = Seq::empty();
    let mut i: usize = 0;
    assert(writer@ =~= w0 + (seq![0u8] + body));
    while i < explicit.formats.len()
        invariant
            w0 == old(writer)@,
            start == w0.len(),
            writer@ == w0 + (seq![0u8] + body),
            i <= explicit.formats@.len(),
            formats_write(explicit.formats@, field@, 0, Seq::empty())
                == formats_write(explicit.formats@, field@, i as nat, body),
            !panics(formats_write(explicit.formats@, field@, i as nat, body)),
        decreases explicit.formats.len() - i,
    {
        let ghost before = writer@;
        let res = write_field(writer, &explicit.formats[i], field);
        proof {
            lemma_prefix_append(w0, seq![0u8] + body);
            lemma_prefix_trans(w0, before, writer@);
        }
        res?;
        proof {
            let b = spec_write_field(explicit.formats@[i as int], field@)->Ok_0;
            body = body + b;
            assert(writer@ =~= w0 + (seq![0u8] + body));
        }
        i = i + 1;
    }
    proof {
        lemma_prefix_append(w0, seq![0u8] + body);
    }
    let written = writer.len() - start;
    if written > 255 {
        return Err(Error::TooManyBytesWritten { written, limit: 256 });
    }
    writer.set(start, written as u8);
    proof {
        assert(writer@ =~= w0 + (seq![written as u8] + body));
        lemma_prefix_append(w0, seq![written as u8] + body);
    }
    Ok(())
}

/// Writes a Repetitive item: the number of repetitions in one byte, then
/// each repetition.
fn write_repetitive(writer: &mut Vec<u8>, repetitive: &Repetitive, field: &Value) -> (r: Result<(), Error>)
    requires
        !panics(spec_write_field(Format::Repetitive(*repetitive), field@)),
    ensures
        old(writer)@.is_prefix_of(final(writer)@),
        match field@ {
            ValueV::Array(a) => a.len() > 255 ==> final(writer)@ == old(writer)@,
            _ => final(writer)@ == old(writer)@,
        },
        match spec_write_field(Format::Repetitive(*repetitive), field@) {
            Ok(bytes) => r is Ok && final(writer)@ == old(writer)@ + bytes,
            Err(Fail::Error(e)) => r matches Err(x) && x@ == e,
            Err(Fail::Panic) => false,
        },
    decreases *repetitive, 1nat,
{
    let ghost w0 = writer@;
    proof {
        lemma_prefix_append(w0, Seq::empty());
        assert(w0 + Seq::<u8>::empty() =~= w0);
    }
    let items = match field {
        Value::Array(a) => a,
        _ => {
            return Err(Error::RepetitiveExpectsArray);
        },
    };
    let ghost a = values_view(items@);
    proof {
        lemma_values_view_len(items@);
    }
    if items.len() > 255 {
        return Err(Error::TooManyRepetitiveItems { count: items.len(), limit: 256 });
    }
    writer.push(items.len() as u8);
    let ghost formats = repetitive.formats@;
    let ghost mut acc: Seq<u8> = seq![a.len() as u8];
    let mut k: usize = 0;
    assert(writer@ =~= w0 + acc);
    while k < items.len()
        invariant
            w0 == old(writer)@,
            writer@ == w0 + acc,
            formats == repetitive.formats@,
            a == values_view(items@),
            a.len() == items@.len(),
            items@.len() <= 255,
            field@ == ValueV::Array(a),
            k <= items@.len(),
            spec_write_field(Format::Repetitive(*repetitive), field@) == rep_write(formats, a, k as nat, acc),
            !panics(rep_write(formats, a, k as nat, acc)),
        decreases items.len() - k,
    {
        let mut i: usize = 0;
        let ghost mut racc: Seq<u8> = Seq::empty();
        proof {
            lemma_values_view_index(items@, k as int);
            assert(writer@ =~= w0 + (acc + racc));
        }
        while i < repetitive.formats.len()
            invariant
                w0 == old(writer)@,
                writer@ == w0 + (acc + racc),
                formats == repetitive.formats@,
                a == values_view(items@),
                a.len() == items@.len(),
                items@.len() <= 255,
                field@ == ValueV::Array(a),
                k < items@.len(),
                a[k as int] == items@[k as int]@,
                spec_write_field(Format::Repetitive(*repetitive), field@) == rep_write(formats, a, k as nat, acc),
                !panics(rep_write(formats, a, k as nat, acc)),
                i <= formats.len(),
                formats_write(formats, a[k as int], 0, Seq::empty()) == formats_write(formats, a[k as int], i as nat, racc),
            decreases repetitive.formats.len() - i,
        {
            let ghost before = writer@;
            let res = write_field(writer, &repetitive.formats[i], &items[k]);
            proof {
                lemma_prefix_append(w0, acc + racc);
                lemma_prefix_trans(w0, before, writer@);
            }
            res?;
            proof {
                let b = spec_write_field(formats[i as int], a[k as int])->Ok_0;
                racc = racc + b;
                assert(writer@ =~= w0 + (acc + racc));
            }
            i = i + 1;
        }
        proof {
            acc = acc + racc;
        }
        k = k + 1;
    }
    proof {
        lemma_prefix_append(w0, acc);
    }
    Ok(())
}

/// Writes an item of any format.
fn write_field(writer: &mut Vec<u8>, format: &Format, field: &Value) -> (r: Result<(), Error>)
    requires
        !panics(spec_write_field(*format, field@)),
    ensures
        old(writer)@.is_prefix_of(final(writer)@),
        match spec_write_field(*format, field@) {
            Ok(bytes) => r is Ok && final(writer)@ == old(writer)@ + bytes,
            Err(Fail::Error(e)) => r matches Err(x) && x@ == e,
            Err(Fail::Panic) => false,
        },
    decreases *format, 0nat,
{
    match format {
        Format::Fixed(fixed) => write_fixed(writer, fixed, field, None),
        Format::Variable(variable) => write_variable(writer, variable, field),
        Format::Compound(compound) => write_compound(writer, compound, field),
        Format::Explicit(explicit) => write_explicit(writer, explicit, field),
        Format::Repetitive(rep) => write_repetitive(writer, rep, field),
        Format::BDS => {
            assert(old(writer)@.is_prefix_of(writer@)) by {
                assert(writer@.subrange(0, writer@.len() as int) =~= writer@);
            }
            Err(Error::BdsNotImplemented)
        },
    }
}

/// Index of the first UAP item named `key`, if any.
pub open spec fn find_uap_item(items: Seq<UAPItem>, key: Seq<char>) -> Option<int>
    decreases items.len(),
{
    if items.len() == 0 {
        None
    } else {
        match find_uap_item(items.drop_last(), key) {
            Some(i) => Some(i),
            None => if items.last().name@ == key { Some(items.len() - 1) } else { None },
        }
    }
}

pub proof fn lemma_find_uap_item(items: Seq<UAPItem>, key: Seq<char>)
    ensures
        find_uap_item(items, key) matches Some(i) ==> 0 <= i < items.len() && items[i].name@ == key
            && forall|j: int| 0 <= j < i ==> (#[trigger] items[j]).name@ != key,
        find_uap_item(items, key) is None ==> forall|j: int| 0 <= j < items.len() ==> (#[trigger] items[j]).name@ != key,
    decreases items.len(),
{
    if items.len() > 0 {
        lemma_find_uap_item(items.drop_last(), key);
        assert forall|j: int| 0 <= j < items.len() - 1 implies items.drop_last()[j] == items[j] by {}
    }
}

/// Finds the UAP item named `key`, as `find` does.
fn position_uap_item(items: &Vec<UAPItem>, key: &String) -> (r: Option<usize>)
    ensures
        match r {
            Some(k) => find_uap_item(items@, key@) == Some(k as int),
            None => find_uap_item(items@, key@) is None,
        },
{
    proof {
        lemma_find_uap_item(items@, key@);
    }
    let mut i: usize = 0;
    while i < items.len()
        invariant
            i <= items@.len(),
            forall|j: int| 0 <= j < i ==> (#[trigger] items@[j]).name@ != key@,
        decreases items.len() - i,
    {
        if items[i].name == *key {
            proof {
                lemma_find_uap_item(items@, key@);
                if find_uap_item(items@, key@) is Some {
                    let f = find_uap_item(items@, key@).unwrap();
                    if f < i {
                        assert(items@[f].name@ != key@);
                    } else if f > i {
                        assert(items@[i as int].name@ != key@);
                    }
                } else {
                    assert(items@[i as int].name@ != key@);
                }
            }
            return Some(i);
        }
        i = i + 1;
    }
    proof {
        lemma_find_uap_item(items@, key@);
        if find_uap_item(items@, key@) is Some {
            let f = find_uap_item(items@, key@).unwrap();
            assert(items@[f].name@ != key@);
        }
    }
    None
}

/// The UAP that a record written from `o` uses: categories 1 and 129
/// choose by the `TYP` field of item `010`.
#[verifier::opaque]
pub open spec fn spec_write_uap(cat: Category, o: ObjectV) -> nat {
    let typ: u64 = match obj_get(o, "010"@) {
        Some(ValueV::Object(p)) => match obj_get(p, "TYP"@) {
            Some(ValueV::Number(Number::PosInt(u), _)) => u,
            _ => 0,
        },
        _ => 0,
    };
    if cat.id == 1 {
        if typ == 0 { 1 } else { 0 }
    } else if cat.id == 129 {
        if typ == 1 { 1 } else { 0 }
    } else {
        0
    }
}

fn write_uap(spec: &Category, json: &Object) -> (r: usize)
    ensures
        r == spec_write_uap(*spec, json@),
{
    proof {
        reveal(spec_write_uap);
    }
    let typ: u64 = match json.get("010") {
        Some(Value::Object(p)) => match p.get("TYP") {
            Some(Value::Number(jn)) => match jn.n {
                Number::PosInt(u) => u,
                _ => 0,
            },
            _ => 0,
        },
        _ => 0,
    };
    if spec.id == 1 {
        if typ == 0 { 1 } else { 0 }
    } else if spec.id == 129 {
        if typ == 1 { 1 } else { 0 }
    } else {
        0
    }
}

/// The data items of a record from the entries of `o` from the `k`-th on:
/// every key but `CAT` must be an item of the UAP, with an FRN above zero,
/// and a data item of the category.
pub open spec fn record_entries(cat: Category, uap: Seq<UAPItem>, o: ObjectV, k: nat, acc: Seq<WriteItem>)
    -> Result<Seq<WriteItem>, Fail>
    decreases o.len() - k,
{
    if k >= o.len() {
        Ok(acc)
    } else {
        let key = o[k as int].0;
        if key == "CAT"@ {
            record_entries(cat, uap, o, k + 1, acc)
        } else {
            match find_uap_item(uap, key) {
                None => Err(Fail::Error(ErrorV::InvalidCategoryField { category: cat.id, field: key })),
                Some(j) => match parse_usize_spec(encode_utf8(uap[j].frn@)) {
                    None => Err(Fail::Error(ErrorV::InvalidSpec { child: InvalidSpecV::FrnNotANumber { field: key } })),
                    Some(p) => if p == 0 {
                        Err(Fail::Error(ErrorV::InvalidSpec { child: InvalidSpecV::FrnIsZero { field: key } }))
                    } else {
                        match find_data_item(cat.data_items@, key) {
                            None => Err(Fail::Error(ErrorV::InvalidSpec { child: InvalidSpecV::MissingDataItem { field: key } })),
                            Some(ix) => record_entries(cat, uap, o, k + 1, acc.push(((p - 1) as usize, ix as usize, k as usize))),
                        }
                    },
                },
            }
        }
    }
}

/// Where an item of FRN `f` goes among items sorted by FRN: after all those
/// of no greater FRN, counted from the end.
pub open spec fn insert_pos(s: Seq<WriteItem>, f: usize) -> nat
    decreases s.len(),
{
    if s.len() == 0 {
        0
    } else if s.last().0 <= f {
        s.len()
    } else {
        insert_pos(s.drop_last(), f)
    }
}

/// Items sorted by FRN, stably: items of equal FRN keep their order.
pub open spec fn sort_items(s: Seq<WriteItem>) -> Seq<WriteItem>
    decreases s.len(),
{
    if s.len() == 0 {
        s
    } else {
        let t = sort_items(s.drop_last());
        t.insert(insert_pos(t, s.last().0) as int, s.last())
    }
}

pub proof fn lemma_insert_pos_le(s: Seq<WriteItem>, f: usize)
    ensures
        insert_pos(s, f) <= s.len(),
    decreases s.len(),
{
    if s.len() > 0 {
        lemma_insert_pos_le(s.drop_last(), f);
    }
}

pub proof fn lemma_sort_items_len(s: Seq<WriteItem>)
    ensures
        sort_items(s).len() == s.len(),
    decreases s.len(),
{
    if s.len() > 0 {
        lemma_sort_items_len(s.drop_last());
        lemma_insert_pos_le(sort_items(s.drop_last()), s.last().0);
    }
}

/// Sorts items by FRN, stably, by insertion.
fn sort_by_frn(items: &Vec<WriteItem>) -> (r: Vec<WriteItem>)
    ensures
        r@ == sort_items(items@),
{
    let mut sorted: Vec<WriteItem> = Vec::new();
    let mut i: usize = 0;
    assert(items@.take(0) =~= Seq::<WriteItem>::empty());
    while i < items.len()
        invariant
            i <= items@.len(),
            sorted@ == sort_items(items@.take(i as int)),
        decreases items.len() - i,
    {
        let it = items[i];
        proof {
            lemma_sort_items_len(items@.take(i as int));
        }
        let mut p = sorted.len();
        assert(sorted@.take(p as int) =~= sorted@);
        loop
            invariant
                p <= sorted@.len(),
                insert_pos(sorted@, it.0) == insert_pos(sorted@.take(p as int), it.0),
            ensures
                p <= sorted@.len(),
                insert_pos(sorted@, it.0) == insert_pos(sorted@.take(p as int), it.0),
                p == 0 || sorted@[p - 1].0 <= it.0,
            decreases p,
        {
            if p == 0 {
                break;
            }
            if sorted[p - 1].0 <= it.0 {
                break;
            }
            assert(sorted@.take(p as int).drop_last() =~= sorted@.take(p - 1));
            p = p - 1;
        }
        proof {
            if p == 0 {
                assert(sorted@.take(0) =~= Seq::<WriteItem>::empty());
            } else {
                let t = sorted@.take(p as int);
                assert(t.len() == p);
                assert(t.last() == sorted@[p - 1]);
                assert(t.last().0 <= it.0);
                assert(insert_pos(t, it.0) == p);
            }
            assert(insert_pos(sorted@, it.0) == p);
            assert(items@.take(i + 1).drop_last() =~= items@.take(i as int));
            assert(items@.take(i + 1).last() == it);
        }
        sorted.insert(p, it);
        i = i + 1;
    }
    assert(items@.take(items@.len() as int) =~= items@);
    sorted
}

/// The items present in a record written from `o`, sorted by FRN.
pub open spec fn spec_present_entries(cat: Category, o: ObjectV) -> Result<Seq<WriteItem>, Fail> {
    let idx = spec_write_uap(cat, o);
    if idx >= cat.uaps@.len() {
        Err(Fail::Panic)
    } else {
        match record_entries(cat, cat.uaps@[idx as int].items@, o, 0, Seq::empty()) {
            Err(e) => Err(e),
            Ok(items) => Ok(sort_items(items)),
        }
    }
}

/// Lists the items present in a record written from `json`, sorted by FRN.
fn calculate_fspec(spec: &Category, json: &Object) -> (r: Result<Vec<WriteItem>, Error>)
    requires
        !panics(spec_present_entries(*spec, json@)),
    ensures
        match spec_present_entries(*spec, json@) {
            Ok(items) => r matches Ok(v) && v@ == items,
            Err(Fail::Error(e)) => r matches Err(x) && x@ == e,
            Err(Fail::Panic) => false,
        },
{
    let idx = write_uap(spec, json);
    assert(idx < spec.uaps@.len());
    let uap = &spec.uaps[idx];
    let ghost o = json@;
    let mut present_items: Vec<WriteItem> = Vec::new();
    let n = json.entries.len();
    proof {
        lemma_entries_view_len(json.entries@);
    }
    let mut k: usize = 0;
    assert(present_items@ =~= Seq::<WriteItem>::empty());
    while k < n
        invariant
            o == json@,
            n == o.len(),
            n == json.entries@.len(),
            k <= n,
            idx == spec_write_uap(*spec, o),
            idx < spec.uaps@.len(),
            *uap == spec.uaps@[idx as int],
            record_entries(*spec, uap.items@, o, 0, Seq::empty()) == record_entries(*spec, uap.items@, o, k as nat, present_items@),
        decreases n - k,
    {
        proof {
            lemma_entries_view_index(json.entries@, k as int);
        }
        let key = &json.entries[k].0;
        if str_eq(key.as_str(), "CAT") {
            k = k + 1;
            continue;
        }
        let j = match position_uap_item(&uap.items, key) {
            Some(j) => j,
            None => {
                return Err(Error::InvalidCategoryField { category: spec.id, field: key.clone() });
            },
        };
        proof {
            lemma_find_uap_item(uap.items@, key@);
        }
        let frn_str = uap.items[j].frn.as_str();
        assert(frn_str.spec_bytes() == encode_utf8(uap.items@[j as int].frn@));
        let parsed = match parse_usize(frn_str) {
            Some(p) => p,
            None => {
                return Err(Error::InvalidSpec { child: InvalidSpec::FrnNotANumber { field: key.clone() } });
            },
        };
        if parsed == 0 {
            return Err(Error::InvalidSpec { child: InvalidSpec::FrnIsZero { field: key.clone() } });
        }
        let index = match position_data_item(&spec.data_items, key) {
            Some(ix) => ix,
            None => {
                return Err(Error::InvalidSpec { child: InvalidSpec::MissingDataItem { field: key.clone() } });
            },
        };
        present_items.push((parsed - 1, index, k));
        k = k + 1;
    }
    let sorted = sort_by_frn(&present_items);
    Ok(sorted)
}

/// The data items of a record from the `k`-th on, each written from its
/// entry of `o`.
pub open spec fn record_write(cat: Category, o: ObjectV, items: Seq<WriteItem>, k: nat, acc: Seq<u8>) -> Result<Seq<u8>, Fail>
    decreases items.len() - k,
{
    if k >= items.len() {
        Ok(acc)
    } else {
        let (frn, index, e) = items[k as int];
        if index >= cat.data_items@.len() || e >= o.len() {
            Err(Fail::Panic)
        } else {
            match spec_write_field(cat.data_items@[index as int].format.format, o[e as int].1) {
                Err(x) => Err(x),
                Ok(b) => record_write(cat, o, items, k + 1, acc + b),
            }
        }
    }
}

/// A record written from `o`: the FSPEC of its items in FRN order, then
/// the items.
pub open spec fn spec_write_record(cat: Category, o: ObjectV) -> Result<Seq<u8>, Fail> {
    match spec_present_entries(cat, o) {
        Err(e) => Err(e),
        Ok(items) => match spec_write_fspec(item_frns(items)) {
            Err(e) => Err(e),
            Ok(fs) => record_write(cat, o, items, 0, fs),
        },
    }
}

/// Writes a record.
fn write_record(writer: &mut Vec<u8>, spec: &Category, json: &Object) -> (r: Result<(), Error>)
    requires
        !panics(spec_write_record(*spec, json@)),
    ensures
        old(writer)@.is_prefix_of(final(writer)@),
        match spec_write_record(*spec, json@) {
            Ok(bytes) => r is Ok && final(writer)@ == old(writer)@ + bytes,
            Err(Fail::Error(e)) => r matches Err(x) && x@ == e,
            Err(Fail::Panic) => false,
        },
{
    let ghost w0 = writer@;
    proof {
        lemma_prefix_append(w0, Seq::empty());
        assert(w0 + Seq::<u8>::empty() =~= w0);
    }
    let present_items = calculate_fspec(spec, json)?;
    write_fspec(writer, &present_items);
    let ghost mut acc: Seq<u8> = spec_write_fspec(item_frns(present_items@))->Ok_0;
    let ghost o = json@;
    proof {
        lemma_entries_view_len(json.entries@);
    }
    let mut k: usize = 0;
    while k < present_items.len()
        invariant
            w0 == old(writer)@,
            writer@ == w0 + acc,
            o == json@,
            o.len() == json.entries@.len(),
            k <= present_items@.len(),
            spec_write_record(*spec, o) == record_write(*spec, o, present_items@, k as nat, acc),
            !panics(record_write(*spec, o, present_items@, k as nat, acc)),
        decreases present_items.len() - k,
    {
        let (frn, index, e) = present_items[k];
        proof {
            lemma_entries_view_index(json.entries@, e as int);
            lemma_prefix_append(w0, acc);
        }
        let data_item = &spec.data_items[index];
        let ghost before = writer@;
        let res = write_field(writer, &data_item.format.format, &json.entries[e].1);
        proof {
            lemma_prefix_trans(w0, before, writer@);
        }
        res?;
        proof {
            let b = spec_write_field(spec.data_items@[index as int].format.format, o[e as int].1)->Ok_0;
            acc = acc + b;
            assert(writer@ =~= w0 + acc);
        }
        k = k + 1;
    }
    proof {
        lemma_prefix_append(w0, acc);
    }
    Ok(())
}

/// The records of a data block from the `k`-th on; each must be an object.
pub open spec fn records_write(cat: Category, records: Seq<ValueV>, k: nat, acc: Seq<u8>) -> Result<Seq<u8>, Fail>
    decreases records.len() - k,
{
    if k >= records.len() {
        Ok(acc)
    } else {
        match records[k as int] {
            ValueV::Object(o) => match spec_write_record(cat, o) {
                Err(e) => Err(e),
                Ok(b) => records_write(cat, records, k + 1, acc + b),
            },
            _ => Err(Fail::Error(ErrorV::ExpectedMap)),
        }
    }
}

/// The bytes of the records from the `k`-th on, each written alone.
pub open spec fn records_in_turn(cat: Category, records: Seq<ValueV>, k: nat) -> Seq<u8>
    decreases records.len() - k,
{
    if k >= records.len() {
        Seq::empty()
    } else {
        spec_write_record(cat, records[k as int]->Object_0)->Ok_0 + records_in_turn(cat, records, k + 1)
    }
}

/// The records of a list are written each in turn: each is an object that
/// is written alone, and the bytes are theirs one after another.
pub proof fn lemma_records_in_turn(cat: Category, records: Seq<ValueV>, k: nat, acc: Seq<u8>)
    requires
        records_write(cat, records, k, acc) is Ok,
    ensures
        forall|j: int| k <= j < records.len() ==> #[trigger] records[j] is Object
            && spec_write_record(cat, records[j]->Object_0) is Ok,
        records_write(cat, records, k, acc) == Ok::<Seq<u8>, Fail>(acc + records_in_turn(cat, records, k)),
    decreases records.len() - k,
{
    if k < records.len() {
        let b = spec_write_record(cat, records[k as int]->Object_0)->Ok_0;
        lemma_records_in_turn(cat, records, k + 1, acc + b);
        assert(acc + b + records_in_turn(cat, records, k + 1) =~= acc + records_in_turn(cat, records, k));
    } else {
        assert(acc + records_in_turn(cat, records, k) =~= acc);
    }
}

/// The records of a block written from an object with a list of records
/// are the records written each alone, one after another.
pub proof fn lemma_body_in_turn(cat: Category, o: ObjectV, records: Seq<ValueV>)
    requires
        obj_get(o, "records"@) == Some(ValueV::Array(records)),
        spec_write_body(cat, o) is Ok,
    ensures
        spec_write_body(cat, o) == Ok::<Seq<u8>, Fail>(records_in_turn(cat, records, 0)),
{
    reveal(spec_write_body);
    lemma_records_in_turn(cat, records, 0, Seq::empty());
    assert(Seq::<u8>::empty() + records_in_turn(cat, records, 0) =~= records_in_turn(cat, records, 0));
}

/// The category a value declares in `CAT`, as `as_u64` reads it.
pub open spec fn declared_category(o: ObjectV) -> Option<u64> {
    match obj_get(o, "CAT"@) {
        Some(ValueV::Number(Number::PosInt(u), _)) => Some(u),
        _ => None,
    }
}

/// The records of a data block written from `o`: those of an array
/// `records`, or else `o` itself as the one record.
#[verifier::opaque]
pub open spec fn spec_write_body(cat: Category, o: ObjectV) -> Result<Seq<u8>, Fail> {
    match obj_get(o, "records"@) {
        Some(ValueV::Array(records)) => records_write(cat, records, 0, Seq::empty()),
        _ => spec_write_record(cat, o),
    }
}

/// The data block written from `o` for category `cat`: `o` declares the
/// category in `CAT`; its records are those of an array `records`, or else
/// `o` itself is the one record. The block starts with the category and a
/// 16-bit big-endian length that counts the three header bytes.
pub open spec fn spec_write_asterix(cat: Category, o: ObjectV) -> Result<Seq<u8>, Fail> {
    let got = declared_category(o);
    if got != Some(cat.id as u64) {
        Err(Fail::Error(ErrorV::MismatchedCategory { category: cat.id, got }))
    } else {
        match spec_write_body(cat, o) {
            Err(e) => Err(e),
            Ok(b) => if b.len() + 3 > 0xffff {
                Err(Fail::Error(ErrorV::TooManyBytesWritten { written: (b.len() + 3) as usize, limit: 65536 }))
            } else {
                Ok(seq![cat.id, ((b.len() + 3) / 256) as u8, ((b.len() + 3) % 256) as u8] + b)
            },
        }
    }
}

/// Writes the records of an array, each an object.
fn write_records(writer: &mut Vec<u8>, spec: &Category, records: &Vec<Value>) -> (r: Result<(), Error>)
    requires
        !panics(records_write(*spec, values_view(records@), 0, Seq::empty())),
    ensures
        old(writer)@.is_prefix_of(final(writer)@),
        match records_write(*spec, values_view(records@), 0, Seq::empty()) {
            Ok(bytes) => r is Ok && final(writer)@ == old(writer)@ + bytes,
            Err(Fail::Error(e)) => r matches Err(x) && x@ == e,
            Err(Fail::Panic) => false,
        },
{
    let ghost w0 = writer@;
    let ghost rs = values_view(records@);
    proof {
        lemma_values_view_len(records@);
        assert(w0 + Seq::<u8>::empty() =~= w0);
    }
    let ghost mut acc: Seq<u8> = Seq::empty();
    let mut k: usize = 0;
    while k < records.len()
        invariant
            w0 == old(writer)@,
            writer@ == w0 + acc,
            rs == values_view(records@),
            rs.len() == records@.len(),
            records_write(*spec, rs, 0, Seq::empty()) == records_write(*spec, rs, k as nat, acc),
            !panics(records_write(*spec, rs, k as nat, acc)),
            k <= records@.len(),
        decreases records.len() - k,
    {
        proof {
            lemma_values_view_index(records@, k as int);
            lemma_prefix_append(w0, acc);
        }
        let record = match &records[k] {
            Value::Object(r) => r,
            _ => {
                return Err(Error::ExpectedMap);
            },
        };
        let ghost before = writer@;
        let res = write_record(writer, spec, record);
        proof {
            lemma_prefix_trans(w0, before, writer@);
        }
        res?;
        proof {
            let b = spec_write_record(*spec, record@)->Ok_0;
            acc = acc + b;
            assert(writer@ =~= w0 + acc);
        }
        k = k + 1;
    }
    proof {
        lemma_prefix_append(w0, acc);
    }
    Ok(())
}

/// Writes the records of a data block.
fn write_body(writer: &mut Vec<u8>, spec: &Category, json: &Object) -> (r: Result<(), Error>)
    requires
        !panics(spec_write_body(*spec, json@)),
    ensures
        old(writer)@.is_prefix_of(final(writer)@),
        match spec_write_body(*spec, json@) {
            Ok(bytes) => r is Ok && final(writer)@ == old(writer)@ + bytes,
            Err(Fail::Error(e)) => r matches Err(x) && x@ == e,
            Err(Fail::Panic) => false,
        },
{
    proof {
        reveal(spec_write_body);
    }
    match json.get("records") {
        Some(Value::Array(records)) => write_records(writer, spec, records),
        _ => write_record(writer, spec, json),
    }
}

/// Writes a data block of category `spec` from `json` at the end of
/// `writer`. On an error the writer is left as it was if `json` does not
/// declare the category, and else holds the header with a zero length and
/// what was written of the records (all of them if they were too long).
pub fn write_asterix(writer: &mut Vec<u8>, spec: &Category, json: &Object) -> (r: Result<(), Error>)
    requires
        !panics(spec_write_asterix(*spec, json@)),
    ensures
        old(writer)@.is_prefix_of(final(writer)@),
        match spec_write_asterix(*spec, json@) {
            Ok(bytes) => r is Ok && final(writer)@ == old(writer)@ + bytes,
            Err(Fail::Error(e)) => r matches Err(x) && x@ == e,
            Err(Fail::Panic) => false,
        },
        r is Err && declared_category(json@) != Some(spec.id as u64) ==> final(writer)@ == old(writer)@,
        r is Err && declared_category(json@) == Some(spec.id as u64) ==> {
            &&& (old(writer)@ + seq![spec.id, 0u8, 0u8]).is_prefix_of(final(writer)@)
            &&& spec_write_body(*spec, json@) matches Ok(b) ==> final(writer)@ == old(writer)@ + seq![spec.id, 0u8, 0u8] + b
        },
{
    let ghost w0 = writer@;
    proof {
        lemma_prefix_append(w0, Seq::empty());
        assert(w0 + Seq::<u8>::empty() =~= w0);
    }
    let start = writer.len();
    let spec_category: Option<u64> = match json.get("CAT") {
        Some(Value::Number(jn)) => match jn.n {
            Number::PosInt(u) => Some(u),
            _ => None,
        },
        _ => None,
    };
    let matches_category = match spec_category {
        Some(c) => c == spec.id as u64,
        None => false,
    };
    if !matches_category {
        return Err(Error::MismatchedCategory { category: spec.id, got: spec_category });
    }
    writer.push(spec.id);
    writer.push(0);
    writer.push(0);
    let ghost head = writer@;
    assert(head =~= w0 + seq![spec.id, 0u8, 0u8]);
    proof {
        lemma_prefix_append(w0, seq![spec.id, 0u8, 0u8]);
    }
    let res = write_body(writer, spec, json);
    proof {
        lemma_prefix_trans(w0, head, writer@);
    }
    res?;
    let ghost acc = spec_write_body(*spec, json@)->Ok_0;
    let written = writer.len() - start;
    if written > 0xffff {
        return Err(Error::TooManyBytesWritten { written, limit: 65536 });
    }
    writer.set(start + 1, (written / 256) as u8);
    writer.set(start + 2, (written % 256) as u8);
    proof {
        let hdr = seq![spec.id, ((acc.len() + 3) / 256) as u8, ((acc.len() + 3) % 256) as u8];
        assert(writer@ =~= w0 + (hdr + acc));
        lemma_prefix_append(w0, hdr + acc);
    }
    Ok(())
}

/// Whether an FSPEC announces FRN `f` (counted from zero).
pub open spec fn fspec_has(fs: Seq<u8>, f: nat) -> bool {
    f / 7 < fs.len() && fs[(f / 7) as int] & frn_mask(f) != 0
}

/// Whether `f` is among the first `n` FRNs.
pub open spec fn frn_among(frns: Seq<usize>, n: nat, f: nat) -> bool {
    exists|j: int| 0 <= j < n && j < frns.len() && frns[j] == f
}

/// What holds of the FSPEC being written, after the first `i` FRNs.
pub open spec fn fspec_inv(frns: Seq<usize>, i: nat, out: Seq<u8>, buf: u8, next: nat) -> bool {
    &&& i <= frns.len()
    &&& next == 7 * (out.len() + 1)
    &&& forall|j: int| 0 <= j < out.len() ==> #[trigger] out[j] & 1u8 == 1u8
    &&& buf & 1u8 == 0u8
    &&& forall|j: int| 0 <= j < i ==> #[trigger] frns[j] < next
    &&& forall|f: nat| f < next ==> (#[trigger] fspec_has(out.push(buf), f) <==> frn_among(frns, i, f))
}

proof fn lemma_mask_bits(b: u8, k: u8, j: u8)
    requires
        1 <= k <= 7,
        1 <= j <= 7,
    ensures
        ((b | 1u8) & (1u8 << j) != 0) == (b & (1u8 << j) != 0),
        (b | 1u8) & 1u8 == 1u8,
        ((b | (1u8 << k)) & (1u8 << j) != 0) == (b & (1u8 << j) != 0 || j == k),
        (b | (1u8 << k)) & 1u8 == b & 1u8,
        (0u8 & (1u8 << j)) == 0,
        0u8 & 1u8 == 0u8,
{
    assert(((b | 1u8) & (1u8 << j) != 0) == (b & (1u8 << j) != 0)) by (bit_vector)
        requires 1 <= j <= 7;
    assert((b | 1u8) & 1u8 == 1u8) by (bit_vector);
    assert(((b | (1u8 << k)) & (1u8 << j) != 0) == (b & (1u8 << j) != 0 || j == k)) by (bit_vector)
        requires 1 <= k <= 7, 1 <= j <= 7;
    assert((b | (1u8 << k)) & 1u8 == b & 1u8) by (bit_vector)
        requires 1 <= k <= 7;
    assert((0u8 & (1u8 << j)) == 0) by (bit_vector);
    assert(0u8 & 1u8 == 0u8) by (bit_vector);
}

/// The FSPEC written from a state that keeps `fspec_inv` announces exactly
/// the FRNs, and has its FX bit set on every byte but the last.
proof fn lemma_fspec_loop(frns: Seq<usize>, i: nat, out: Seq<u8>, buf: u8, next: nat)
    requires
        fspec_inv(frns, i, out, buf, next),
        fspec_loop(frns, i, out, buf, next) is Ok,
    ensures
        ({
            let fs = fspec_loop(frns, i, out, buf, next)->Ok_0;
            &&& fs.len() >= 1
            &&& forall|j: int| 0 <= j < fs.len() - 1 ==> #[trigger] fs[j] & 1u8 == 1u8
            &&& fs.last() & 1u8 == 0u8
            &&& forall|f: nat| #[trigger] fspec_has(fs, f) <==> frn_among(frns, frns.len(), f)
        }),
    decreases frns.len() - i, (if i < frns.len() && frns[i as int] >= next { frns[i as int] + 1 - next } else { 0 }),
{
    if i >= frns.len() {
        let fs = out.push(buf);
        assert forall|f: nat| #[trigger] fspec_has(fs, f) <==> frn_among(frns, frns.len(), f) by {
            if f >= next {
                assert(f / 7 >= out.len() + 1);
                if frn_among(frns, frns.len(), f) {
                    let j = choose|j: int| 0 <= j < frns.len() && j < frns.len() && frns[j] == f;
                    assert(frns[j] < next);
                }
            }
        }
        assert forall|j: int| 0 <= j < fs.len() - 1 implies #[trigger] fs[j] & 1u8 == 1u8 by {
            assert(fs[j] == out[j]);
        }
    } else {
        let f0 = frns[i as int];
        if f0 >= next {
            let out2 = out.push(buf | 1u8);
            let next2 = next + 7;
            assert forall|j: int| 0 <= j < out2.len() implies #[trigger] out2[j] & 1u8 == 1u8 by {
                if j < out.len() {
                    assert(out2[j] == out[j]);
                } else {
                    lemma_mask_bits(buf, 1, 1);
                }
            }
            assert forall|f: nat| f < next2 implies (#[trigger] fspec_has(out2.push(0u8), f) <==> frn_among(frns, i, f)) by {
                let k = (7 - f % 7) as u8;
                lemma_mask_bits(buf, 1, k);
                if f < next {
                    assert(fspec_has(out.push(buf), f) <==> frn_among(frns, i, f));
                    if f / 7 < out.len() {
                        assert(out2.push(0u8)[(f / 7) as int] == out.push(buf)[(f / 7) as int]);
                    } else {
                        assert(f / 7 == out.len());
                        assert(out2.push(0u8)[(f / 7) as int] == buf | 1u8);
                        assert(out.push(buf)[(f / 7) as int] == buf);
                    }
                } else {
                    assert(f / 7 == out.len() + 1);
                    assert(out2.push(0u8)[(f / 7) as int] == 0u8);
                    if frn_among(frns, i, f) {
                        let j = choose|j: int| 0 <= j < i && j < frns.len() && frns[j] == f;
                        assert(frns[j] < next);
                    }
                }
            }
            lemma_mask_bits(0, 1, 1);
            lemma_fspec_loop(frns, i, out2, 0, next2);
        } else {
            let k = (next - f0) as u8;
            let buf2 = buf | (1u8 << k);
            assert(f0 / 7 == out.len());
            assert(frn_mask(f0 as nat) == 1u8 << k);
            lemma_mask_bits(buf, k, 1);
            assert forall|f: nat| f < next implies (#[trigger] fspec_has(out.push(buf2), f) <==> frn_among(frns, i + 1, f)) by {
                let kf = (7 - f % 7) as u8;
                lemma_mask_bits(buf, k, kf);
                assert(fspec_has(out.push(buf), f) <==> frn_among(frns, i, f));
                if f / 7 < out.len() {
                    assert(out.push(buf2)[(f / 7) as int] == out.push(buf)[(f / 7) as int]);
                    assert(f != f0);
                } else {
                    assert(f / 7 == out.len());
                    assert(out.push(buf2)[(f / 7) as int] == buf2);
                    assert(out.push(buf)[(f / 7) as int] == buf);
                    assert((kf == k) == (f == f0));
                }
                if frn_among(frns, i + 1, f) && !frn_among(frns, i, f) {
                    let j = choose|j: int| 0 <= j < i + 1 && j < frns.len() && frns[j] == f;
                    assert(j == i);
                }
                if f == f0 {
                    assert(frns[i as int] == f);
                }
            }
            lemma_fspec_loop(frns, i + 1, out, buf2, next);
        }
    }
}

/// The FSPEC at the start of `d`, whose bytes before the last have their
/// FX bit set, is read whole.
proof fn lemma_fspec_len_of(fs: Seq<u8>, rest: Seq<u8>)
    requires
        fs.len() >= 1,
        forall|j: int| 0 <= j < fs.len() - 1 ==> #[trigger] fs[j] & 1u8 == 1u8,
        fs.last() & 1u8 == 0u8,
    ensures
        spec_fspec_len(fs + rest) == Some(fs.len()),
    decreases fs.len(),
{
    let d = fs + rest;
    if fs.len() == 1 {
        assert(d[0] == fs.last());
    } else {
        assert(d[0] == fs[0]);
        assert(d[0] & 1u8 != 0u8);
        let t = fs.skip(1);
        assert forall|j: int| 0 <= j < t.len() - 1 implies #[trigger] t[j] & 1u8 == 1u8 by {
            assert(t[j] == fs[j + 1]);
        }
        assert(d.skip(1) =~= t + rest);
        lemma_fspec_len_of(t, rest);
    }
}

/// An FSPEC written for FRNs given in order of their bytes is read back
/// whole, whatever follows it, and announces exactly those FRNs.
pub proof fn lemma_fspec_roundtrip(frns: Seq<usize>, rest: Seq<u8>)
    requires
        spec_write_fspec(frns) is Ok,
    ensures
        spec_fspec_len(spec_write_fspec(frns)->Ok_0 + rest) == Some(spec_write_fspec(frns)->Ok_0.len()),
        forall|f: nat| #[trigger] fspec_has(spec_write_fspec(frns)->Ok_0, f) <==> frn_among(frns, frns.len(), f),
{
    let e = Seq::<u8>::empty();
    assert forall|f: nat| f < 7 implies (#[trigger] fspec_has(e.push(0u8), f) <==> frn_among(frns, 0, f)) by {
        let k = (7 - f % 7) as u8;
        lemma_mask_bits(0, 1, k);
    }
    lemma_mask_bits(0, 1, 1);
    lemma_fspec_loop(frns, 0, e, 0, 7);
    lemma_fspec_len_of(spec_write_fspec(frns)->Ok_0, rest);
}

} // verus!
