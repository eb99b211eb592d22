//! What reading and writing share about the bit fields of a Fixed item.
use vstd::prelude::*;
use crate::error::{Error, ErrorV, InvalidSpec, InvalidSpecV};
use crate::spec_xml::{Bits, BitsUnit, Encode, unit_scale};
use crate::strings::str_eq;
use crate::value::{JsonNumber, Number, Quantity, Value, ValueV};

verus! {

/// The bits `(from, to)` of a field: a single `bit`, or `from` and `to` in
/// either order; any other combination is an error.
pub open spec fn bits_range(b: Bits) -> Result<(u32, u32), ErrorV> {
    match (b.bit, b.from, b.to) {
        (Some(x), None, None) => Ok((x, x)),
        (None, Some(f), Some(t)) => Ok((if f >= t { f } else { t }, if f <= t { f } else { t })),
        _ => Err(ErrorV::InvalidSpec { child: InvalidSpecV::BadBitCombination { bit: b.bit, from: b.from, to: b.to } }),
    }
}

/// The bits of a field.
pub fn field_range(bits: &Bits) -> (r: Result<(u32, u32), Error>)
    ensures
        match bits_range(*bits) {
            Ok(p) => r == Ok::<(u32, u32), Error>(p),
            Err(e) => r matches Err(x) && x@ == e,
        },
{
    match (bits.bit, bits.from, bits.to) {
        (Some(bit), None, None) => Ok((bit, bit)),
        (None, Some(from), Some(to)) => Ok((if from >= to { from } else { to }, if from <= to { from } else { to })),
        (bit, from, to) => Err(Error::InvalidSpec { child: InvalidSpec::BadBitCombination { bit, from, to } }),
    }
}

/// Fields named `spare` or `sb` hold no value.
pub open spec fn is_spare_name(name: Seq<char>) -> bool {
    name == "spare"@ || name == "sb"@
}

pub fn is_spare(name: &String) -> (r: bool)
    ensures
        r == is_spare_name(name@),
{
    str_eq(name.as_str(), "spare") || str_eq(name.as_str(), "sb")
}

/// Whether a value is the non-negative integer `x`, as a condition asks.
pub open spec fn is_uint(v: Option<ValueV>, x: u64) -> bool {
    match v {
        Some(ValueV::Number(Number::PosInt(y), _)) => y == x,
        _ => false,
    }
}

/// The encoding of a field: unsigned where none is stated.
pub open spec fn field_encode(b: Bits) -> Encode {
    match b.encode {
        Some(e) => e,
        None => Encode::Unsigned,
    }
}

/// The number a field's raw bits stand for: `msbsign` fields have a sign bit
/// and a magnitude, `signed` fields are two's complement; both give the
/// bits of an `i64`.
pub open spec fn decode_value(value: u64, length: u32, enc: Encode) -> u64 {
    match enc {
        Encode::MsbSign => {
            let mask = 1u64 << ((length - 1) as u64);
            if value & mask != 0 {
                (-(((value & !mask) as i64) as int)) as u64
            } else {
                value
            }
        },
        Encode::Signed => {
            let padding = (64 - length) as u32;
            (((value as i64) << padding) >> padding) as u64
        },
        _ => value,
    }
}

/// Applies `decode_value`.
pub fn decode_field(value: u64, length: u32, enc: Encode) -> (r: u64)
    requires
        1 <= length <= 64,
        length < 64 ==> value < (1u64 << length),
    ensures
        r == decode_value(value, length, enc),
{
    let mut value = value;
    match enc {
        Encode::MsbSign => {
            let mask: u64 = 1u64 << ((length - 1) as u64);
            if value & mask != 0 {
                let signed = (value & !mask) as i64;
                assert(signed >= 0) by (bit_vector)
                    requires
                        signed == (value & !mask) as i64,
                        mask == 1u64 << ((length - 1) as u64),
                        1 <= length <= 64,
                        length < 64 ==> value < (1u64 << length);
                value = (-signed) as u64;
            }
        },
        Encode::Signed => {
            let padding = 64 - length;
            let signed = ((value as i64) << padding) >> padding;
            value = signed as u64;
        },
        _ => {},
    }
    value
}

/// A sign-magnitude field of `n` bits holding `value` reads as the number
/// of its lower `n - 1` bits, negative where its top bit is set: the bits
/// `1m` read as `-m`, and `0m` as `m`.
pub proof fn lemma_msb_sign_read(value: u64, n: u32)
    requires
        1 <= n <= 64,
        (value as nat) < vstd::arithmetic::power2::pow2(n as nat),
    ensures
        ({
            let half = vstd::arithmetic::power2::pow2((n - 1) as nat);
            let read = field_value(decode_value(value, n, Encode::MsbSign), None, Encode::MsbSign);
            &&& value as nat >= half ==> read == int_value((half as int - value as int) as i64)
                && (decode_value(value, n, Encode::MsbSign) as i64) as int == half as int - value as int
            &&& value as nat >= half ==> value as int - half as int == value as int % (half as int)
            &&& (value as nat) < half ==> read == int_value(value as i64)
        }),
{
    let k = (n - 1) as u64;
    let half = vstd::arithmetic::power2::pow2((n - 1) as nat);
    crate::bitstream::lemma_pow2_shl(k);
    vstd::arithmetic::power2::lemma_pow2_unfold(n as nat);
    let mask: u64 = 1u64 << k;
    assert(mask as nat == half);
    assert(mask <= 0x8000_0000_0000_0000u64) by (bit_vector)
        requires
            k < 64,
            mask == 1u64 << k;
    assert((1u64 << ((n - 1) as u64)) == mask);
    if value as nat >= half {
        assert(value - mask < mask);
        assert(value & mask != 0 && value & !mask == value - mask) by (bit_vector)
            requires
                k < 64,
                mask == 1u64 << k,
                mask <= value,
                value - mask < mask;
        let x: u64 = (value - mask) as u64;
        assert(x <= 0x7fff_ffff_ffff_ffffu64);
        let zi: i64 = (-(x as i64)) as i64;
        assert(((zi as u64) as i64) == zi) by (bit_vector);
        assert(decode_value(value, n, Encode::MsbSign) == zi as u64);
        vstd::arithmetic::div_mod::lemma_fundamental_div_mod_converse(value as int, half as int, 1, value as int - half as int);
    } else {
        assert(value & mask == 0) by (bit_vector)
            requires
                k < 64,
                mask == 1u64 << k,
                value < mask;
        assert(decode_value(value, n, Encode::MsbSign) == value);
    }
}

/// A JSON integer, as serde_json makes one of an `i64`.
pub open spec fn int_value(i: i64) -> ValueV {
    if i < 0 {
        ValueV::Number(Number::NegInt(i), Seq::empty())
    } else {
        ValueV::Number(Number::PosInt(i as u64), Seq::empty())
    }
}

/// The value read for a field from its decoded bits: a quantity for a field
/// with a unit, an integer for a signed field, else an unsigned integer.
pub open spec fn field_value(value: u64, unit: Option<BitsUnit>, enc: Encode) -> ValueV {
    match unit {
        Some(u) => ValueV::Quantity(Quantity { raw: value as i64, scale: unit_scale(u) }),
        None => if enc == Encode::MsbSign || enc == Encode::Signed {
            int_value(value as i64)
        } else {
            ValueV::Number(Number::PosInt(value), Seq::empty())
        },
    }
}

/// A number with no quotients.
pub fn plain_number(n: Number) -> (r: Value)
    ensures
        r@ == ValueV::Number(n, Seq::empty()),
{
    let v = Value::Number(JsonNumber { n, by_scale: Vec::new() });
    assert(v@ == ValueV::Number(n, Seq::empty()));
    v
}

/// Builds `field_value`.
pub fn make_field_value(value: u64, unit: &Option<BitsUnit>, enc: Encode) -> (r: Value)
    ensures
        r@ == field_value(value, *unit, enc),
{
    match unit {
        Some(u) => Value::Quantity(Quantity { raw: value as i64, scale: u.scale_or_one() }),
        None => {
            if enc == Encode::MsbSign || enc == Encode::Signed {
                let i = value as i64;
                if i < 0 {
                    plain_number(Number::NegInt(i))
                } else {
                    plain_number(Number::PosInt(i as u64))
                }
            } else {
                plain_number(Number::PosInt(value))
            }
        },
    }
}

} // verus!
