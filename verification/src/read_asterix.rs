//! Reading an ASTERIX data block into a structured value.
use vstd::prelude::*;
use vstd::utf8::encode_utf8;
use crate::error::{Error, ErrorV, Fail, InvalidSpec, InvalidSpecV};
use crate::spec_xml::{Bits, Category, Compound, DataItem, Encode, Explicit, Fixed, Format, Repetitive, UAPItem, Variable};
use crate::bit_reader::BitReader;
use crate::bitstream::{bits_value, bytes_bits, lemma_bytes_bits_len, lemma_bytes_bits_take};
use crate::fields::{bits_range, decode_field, decode_value, field_encode, field_range, field_value, is_spare, is_uint, make_field_value};
use crate::value::{lemma_obj_get_insert, lemma_values_view_push, obj_extend, obj_get, obj_insert, values_view, Number, Object, ObjectV, Value, ValueV};
use crate::strings::{parse_usize, parse_usize_spec, str_eq};
use vstd::string::*;

verus! {

/// A data item announced by an FSPEC: its FRN (from zero), its key and the
/// index of its data item or subitem.
pub struct PresentItem {
    /// The field reference number, from zero.
    pub frn: usize,
    /// The key of the item in the value.
    pub key: String,
    /// Index of the data item (or of the Compound subitem).
    pub index: usize,
}

/// The first byte of `reader`, which it then leaves out.
fn plonk(reader: &mut &[u8]) -> (r: Result<u8, Error>)
    ensures
        old(reader)@.len() > 0 ==> r == Ok::<u8, Error>(old(reader)@[0]) && final(reader)@ == old(reader)@.skip(1),
        old(reader)@.len() == 0 ==> (r matches Err(Error::ReadingOob) && final(reader)@ == old(reader)@),
{
    if reader.len() > 0 {
        let (head, tail) = reader.split_at(1);
        let byte = head[0];
        *reader = tail;
        Ok(byte)
    } else {
        Err(Error::ReadingOob)
    }
}

/// A big-endian 16-bit number from the first two bytes of `reader`.
fn plonk_u16(reader: &mut &[u8]) -> (r: Result<u16, Error>)
    ensures
        old(reader)@.len() >= 2 ==> r == Ok::<u16, Error>((old(reader)@[0] as u16 * 256 + old(reader)@[1] as u16) as u16)
            && final(reader)@ == old(reader)@.skip(2),
        old(reader)@.len() == 1 ==> (r matches Err(Error::ReadingOob) && final(reader)@ == old(reader)@.skip(1)),
        old(reader)@.len() == 0 ==> (r matches Err(Error::ReadingOob) && final(reader)@ == old(reader)@),
{
    let hi = plonk(reader)?;
    let lo = plonk(reader)?;
    assert(old(reader)@.skip(1).skip(1) =~= old(reader)@.skip(2));
    let v = ((hi as u16) << 8u16) | (lo as u16);
    assert(((hi as u16) << 8u16) | (lo as u16) == (hi as u16 * 256 + lo as u16) as u16) by (bit_vector);
    Ok(v)
}

/// Length of the FSPEC at the start of `d`: up to the first byte whose FX
/// bit (the lowest) is clear.
pub open spec fn spec_fspec_len(d: Seq<u8>) -> Option<nat>
    decreases d.len(),
{
    if d.len() == 0 {
        None
    } else if d[0] & 1 == 0 {
        Some(1)
    } else {
        match spec_fspec_len(d.skip(1)) {
            Some(n) => Some(n + 1),
            None => None,
        }
    }
}

pub proof fn lemma_fspec_len(d: Seq<u8>)
    ensures
        spec_fspec_len(d) matches Some(n) ==> 1 <= n <= d.len() && d[n - 1] & 1 == 0
            && forall|i: int| 0 <= i < n - 1 ==> #[trigger] d[i] & 1 != 0,
        spec_fspec_len(d) is None ==> forall|i: int| 0 <= i < d.len() ==> #[trigger] d[i] & 1 != 0,
    decreases d.len(),
{
    if d.len() > 0 && d[0] & 1 != 0 {
        lemma_fspec_len(d.skip(1));
        assert forall|i: int| 1 <= i < d.len() implies d[i] == d.skip(1)[i - 1] by {}
    }
}

/// Reads an FSPEC: the bytes up to the first one whose FX bit is clear.
fn read_fspec<'b>(reader: &mut &'b [u8]) -> (r: Result<&'b [u8], Error>)
    ensures
        match spec_fspec_len(old(reader)@) {
            Some(n) => r matches Ok(f) && f@ == old(reader)@.take(n as int) && final(reader)@ == old(reader)@.skip(n as int),
            None => r matches Err(Error::ReadingOob) && final(reader)@ == old(reader)@,
        },
{
    let ghost d = reader@;
    proof {
        lemma_fspec_len(d);
    }
    let mut fspec_len: usize = 0;
    loop
        invariant
            d == reader@,
            d == old(reader)@,
            fspec_len <= d.len(),
            forall|i: int| 0 <= i < fspec_len ==> #[trigger] d[i] & 1 != 0,
        decreases d.len() - fspec_len,
    {
        if fspec_len >= reader.len() {
            proof {
                lemma_fspec_len(d);
                if spec_fspec_len(d) is Some {
                    let n = spec_fspec_len(d).unwrap();
                    assert(d[n - 1] & 1 != 0);
                }
            }
            assert(spec_fspec_len(d) is None);
            return Err(Error::ReadingOob);
        }
        let byte = reader[fspec_len];
        fspec_len = fspec_len + 1;
        if byte & 1 == 0 {
            proof {
                lemma_fspec_len(d);
                if spec_fspec_len(d) is Some {
                    let n = spec_fspec_len(d).unwrap();
                    if n < fspec_len {
                        assert(d[n - 1] & 1 != 0);
                    } else if n > fspec_len {
                        assert(d[fspec_len - 1] & 1 != 0);
                    }
                } else {
                    assert(d[fspec_len - 1] & 1 != 0);
                }
            }
            assert(spec_fspec_len(d) == Some(fspec_len as nat));
            let (fspec, tail) = reader.split_at(fspec_len);
            assert(fspec@ == d.take(fspec_len as int));
            assert(tail@ == d.skip(fspec_len as int));
            *reader = tail;
            return Ok(fspec);
        }
    }
}

/// The UAP of a record of category `id` whose data (after the FSPEC) is
/// `data`: categories 1 and 129 choose by the top bit of the first byte.
pub open spec fn spec_switch_uap(data: Seq<u8>, id: u8) -> Result<nat, ErrorV> {
    if id == 1 {
        if data.len() == 0 {
            Err(ErrorV::ReadingOob)
        } else if (data[0] >> 7u8) == 0 {
            Ok(1)
        } else {
            Ok(0)
        }
    } else if id == 129 {
        if data.len() == 0 {
            Err(ErrorV::ReadingOob)
        } else if (data[0] >> 7u8) == 1 {
            Ok(1)
        } else {
            Ok(0)
        }
    } else {
        Ok(0)
    }
}

fn switch_uap(data: &[u8], spec: &Category) -> (r: Result<usize, Error>)
    ensures
        match spec_switch_uap(data@, spec.id) {
            Ok(i) => r == Ok::<usize, Error>(i as usize),
            Err(e) => r matches Err(x) && x@ == e,
        },
{
    let rv: usize = if spec.id == 1 {
        if data.len() == 0 {
            return Err(Error::ReadingOob);
        }
        let head = data[0];
        if (head >> 7u8) == 0 { 1 } else { 0 }
    } else if spec.id == 129 {
        if data.len() == 0 {
            return Err(Error::ReadingOob);
        }
        let head = data[0];
        if (head >> 7u8) == 1 { 1 } else { 0 }
    } else {
        0
    };
    Ok(rv)
}

/// Index of the data item with id `key`, if any.
pub open spec fn find_data_item(items: Seq<DataItem>, key: Seq<char>) -> Option<int>
    decreases items.len(),
{
    if items.len() == 0 {
        None
    } else {
        match find_data_item(items.drop_last(), key) {
            Some(i) => Some(i),
            None => if items.last().id@ == key { Some(items.len() - 1) } else { None },
        }
    }
}

pub proof fn lemma_find_data_item(items: Seq<DataItem>, key: Seq<char>)
    ensures
        find_data_item(items, key) matches Some(i) ==> 0 <= i < items.len() && items[i].id@ == key
            && forall|j: int| 0 <= j < i ==> (#[trigger] items[j]).id@ != key,
        find_data_item(items, key) is None ==> forall|j: int| 0 <= j < items.len() ==> (#[trigger] items[j]).id@ != key,
    decreases items.len(),
{
    if items.len() > 0 {
        lemma_find_data_item(items.drop_last(), key);
        assert forall|j: int| 0 <= j < items.len() - 1 implies items.drop_last()[j] == items[j] by {}
    }
}

/// Finds the data item with id `key`, as `position` does.
pub(crate) fn position_data_item(items: &Vec<DataItem>, key: &String) -> (r: Option<usize>)
    ensures
        match r {
            Some(k) => find_data_item(items@, key@) == Some(k as int),
            None => find_data_item(items@, key@) is None,
        },
{
    proof {
        lemma_find_data_item(items@, key@);
    }
    let mut i: usize = 0;
    while i < items.len()
        invariant
            i <= items@.len(),
            forall|j: int| 0 <= j < i ==> (#[trigger] items@[j]).id@ != key@,
        decreases items.len() - i,
    {
        if items[i].id == *key {
            proof {
                lemma_find_data_item(items@, key@);
                if find_data_item(items@, key@) is Some {
                    let f = find_data_item(items@, key@).unwrap();
                    if f < i {
                        assert(items@[f].id@ != key@);
                    } else if f > i {
                        assert(items@[i as int].id@ != key@);
                    }
                } else {
                    assert(items@[i as int].id@ != key@);
                }
            }
            return Some(i);
        }
        i = i + 1;
    }
    proof {
        lemma_find_data_item(items@, key@);
        if find_data_item(items@, key@) is Some {
            let f = find_data_item(items@, key@).unwrap();
            assert(items@[f].id@ != key@);
        }
    }
    None
}

/// The FSPEC bit of FRN `frn` (counted from zero) within its byte.
pub open spec fn frn_mask(frn: nat) -> u8 {
    1u8 << ((7 - frn % 7) as u8)
}

/// One UAP item against the FSPEC: a present item is taken out of the FSPEC
/// and added to the items.
pub open spec fn present_step(cat: Category, item: UAPItem, fspec: Seq<u8>, acc: Seq<PresentItem>)
    -> Result<(Seq<u8>, Seq<PresentItem>), Fail>
{
    if item.frn@ == "FX"@ || item.name@ == "-"@ {
        Ok((fspec, acc))
    } else {
        match parse_usize_spec(encode_utf8(item.frn@)) {
            None => Err(Fail::Error(ErrorV::InvalidSpec { child: InvalidSpecV::FrnNotANumber { field: item.name@ } })),
            Some(p) => if p == 0 {
                Err(Fail::Error(ErrorV::InvalidSpec { child: InvalidSpecV::FrnIsZero { field: item.name@ } }))
            } else {
                let frn = (p - 1) as nat;
                let byte = frn / 7;
                if byte >= fspec.len() || fspec[byte as int] & frn_mask(frn) == 0 {
                    Ok((fspec, acc))
                } else {
                    let fspec2 = fspec.update(byte as int, fspec[byte as int] & !frn_mask(frn));
                    match find_data_item(cat.data_items@, item.name@) {
                        None => Err(Fail::Error(ErrorV::InvalidSpec { child: InvalidSpecV::MissingDataItem { field: item.name@ } })),
                        Some(ix) => Ok((fspec2, acc.push(PresentItem { frn: frn as usize, key: item.name, index: ix as usize }))),
                    }
                }
            },
        }
    }
}

/// The UAP items from `i` on against the FSPEC.
pub open spec fn present_loop(cat: Category, items: Seq<UAPItem>, i: nat, fspec: Seq<u8>, acc: Seq<PresentItem>)
    -> Result<(Seq<u8>, Seq<PresentItem>), Fail>
    decreases items.len() - i,
{
    if i >= items.len() {
        Ok((fspec, acc))
    } else {
        match present_step(cat, items[i as int], fspec, acc) {
            Ok((f2, a2)) => present_loop(cat, items, i + 1, f2, a2),
            Err(e) => Err(e),
        }
    }
}

/// Index of the first FSPEC byte that still has a bit other than FX set.
pub open spec fn first_unknown_fspec(fspec: Seq<u8>) -> Option<int>
    decreases fspec.len(),
{
    if fspec.len() == 0 {
        None
    } else {
        match first_unknown_fspec(fspec.drop_last()) {
            Some(i) => Some(i),
            None => if fspec.last() & 0xfeu8 != 0 { Some(fspec.len() - 1) } else { None },
        }
    }
}

pub proof fn lemma_first_unknown_fspec(fspec: Seq<u8>)
    ensures
        first_unknown_fspec(fspec) matches Some(i) ==> 0 <= i < fspec.len() && fspec[i] & 0xfeu8 != 0
            && forall|j: int| 0 <= j < i ==> #[trigger] fspec[j] & 0xfeu8 == 0,
        first_unknown_fspec(fspec) is None ==> forall|j: int| 0 <= j < fspec.len() ==> #[trigger] fspec[j] & 0xfeu8 == 0,
    decreases fspec.len(),
{
    if fspec.len() > 0 {
        lemma_first_unknown_fspec(fspec.drop_last());
        assert forall|j: int| 0 <= j < fspec.len() - 1 implies fspec.drop_last()[j] == fspec[j] by {}
    }
}

/// The items that the FSPEC at the start of `input` announces, in UAP order,
/// and the input after the FSPEC.
pub open spec fn spec_present_items(input: Seq<u8>, cat: Category) -> Result<(Seq<PresentItem>, Seq<u8>), Fail> {
    match spec_fspec_len(input) {
        None => Err(Fail::Error(ErrorV::ReadingOob)),
        Some(n) => {
            let fspec = input.take(n as int);
            let rest = input.skip(n as int);
            match spec_switch_uap(rest, cat.id) {
                Err(e) => Err(Fail::Error(e)),
                Ok(idx) => if idx >= cat.uaps@.len() {
                    Err(Fail::Error(ErrorV::InvalidSpec { child: InvalidSpecV::UapIndexOob }))
                } else {
                    match present_loop(cat, cat.uaps@[idx as int].items@, 0, fspec, Seq::empty()) {
                        Err(e) => Err(e),
                        Ok((left, items)) => match first_unknown_fspec(left) {
                            Some(i) => Err(Fail::Error(ErrorV::UnknownFspecField { byte: left[i], index: i as usize })),
                            None => Ok((items, rest)),
                        },
                    }
                },
            }
        },
    }
}

/// Reads the FSPEC of a record and lists the items it announces.
fn read_present_items(reader: &mut &[u8], spec: &Category) -> (r: Result<Vec<PresentItem>, Error>)
    ensures
        match spec_present_items(old(reader)@, *spec) {
            Ok((items, rest)) => r matches Ok(v) && v@ == items && final(reader)@ == rest,
            Err(Fail::Error(e)) => r matches Err(x) && x@ == e,
            Err(Fail::Panic) => false,
        },
{
    let ghost input = reader@;
    let fspec_slice = read_fspec(reader)?;
    let mut fspec: Vec<u8> = vstd::slice::slice_to_vec(fspec_slice);
    let idx = switch_uap(reader, spec)?;
    if idx >= spec.uaps.len() {
        return Err(Error::InvalidSpec { child: InvalidSpec::UapIndexOob });
    }
    let uap = &spec.uaps[idx];
    let ghost items = uap.items@;
    let mut present_items: Vec<PresentItem> = Vec::new();
    let mut i: usize = 0;
    assert(present_items@ =~= Seq::<PresentItem>::empty());
    while i < uap.items.len()
        invariant
            input == old(reader)@,
            spec_fspec_len(input) is Some,
            reader@ == input.skip(spec_fspec_len(input).unwrap() as int),
            spec_switch_uap(reader@, spec.id) == Ok::<nat, ErrorV>(idx as nat),
            idx < spec.uaps@.len(),
            items == uap.items@,
            uap == spec.uaps@[idx as int],
            i <= items.len(),
            present_loop(*spec, items, 0, input.take(spec_fspec_len(input).unwrap() as int), Seq::empty())
                == present_loop(*spec, items, i as nat, fspec@, present_items@),
        decreases items.len() - i,
    {
        let uap_item = &uap.items[i];
        let ghost step = present_step(*spec, items[i as int], fspec@, present_items@);
        assert(uap_item == items[i as int]);
        if str_eq(uap_item.frn.as_str(), "FX") || str_eq(uap_item.name.as_str(), "-") {
            i = i + 1;
            continue;
        }
        let key = &uap_item.name;
        let frn_str = uap_item.frn.as_str();
        assert(frn_str.spec_bytes() == encode_utf8(uap_item.frn@));
        let parsed = match parse_usize(frn_str) {
            Some(p) => p,
            None => {
                return Err(Error::InvalidSpec { child: InvalidSpec::FrnNotANumber { field: key.clone() } });
            },
        };
        if parsed == 0 {
            return Err(Error::InvalidSpec { child: InvalidSpec::FrnIsZero { field: key.clone() } });
        }
        let frn = parsed - 1;
        let byte = frn / 7;
        let bit = 7 - (frn % 7);
        let mask: u8 = 1u8 << (bit as u8);
        assert(mask == frn_mask(frn as nat));
        if byte >= fspec.len() || fspec[byte] & mask == 0 {
            i = i + 1;
            continue;
        }
        let cleared = fspec[byte] & !mask;
        fspec.set(byte, cleared);
        let index = match position_data_item(&spec.data_items, key) {
            Some(ix) => ix,
            None => {
                return Err(Error::InvalidSpec { child: InvalidSpec::MissingDataItem { field: key.clone() } });
            },
        };
        present_items.push(PresentItem { frn, key: key.clone(), index });
        i = i + 1;
    }
    proof {
        lemma_first_unknown_fspec(fspec@);
    }
    let ghost left = fspec@;
    let mut j: usize = 0;
    while j < fspec.len()
        invariant
            input == old(reader)@,
            spec_fspec_len(input) is Some,
            reader@ == input.skip(spec_fspec_len(input).unwrap() as int),
            spec_switch_uap(reader@, spec.id) == Ok::<nat, ErrorV>(idx as nat),
            idx < spec.uaps@.len(),
            items == spec.uaps@[idx as int].items@,
            present_loop(*spec, items, 0, input.take(spec_fspec_len(input).unwrap() as int), Seq::empty())
                == Ok::<(Seq<u8>, Seq<PresentItem>), Fail>((left, present_items@)),
            left == fspec@,
            j <= fspec@.len(),
            forall|k: int| 0 <= k < j ==> #[trigger] fspec@[k] & 0xfeu8 == 0,
        decreases fspec.len() - j,
    {
        let byte = fspec[j];
        if byte & 0xfeu8 != 0 {
            proof {
                lemma_first_unknown_fspec(fspec@);
                if first_unknown_fspec(fspec@) is Some {
                    let f = first_unknown_fspec(fspec@).unwrap();
                    if f > j {
                        assert(fspec@[j as int] & 0xfeu8 == 0);
                    }
                } else {
                    assert(fspec@[j as int] & 0xfeu8 == 0);
                }
            }
            return Err(Error::UnknownFspecField { byte, index: j });
        }
        j = j + 1;
    }
    proof {
        lemma_first_unknown_fspec(fspec@);
        if first_unknown_fspec(fspec@) is Some {
            let f = first_unknown_fspec(fspec@).unwrap();
            assert(fspec@[f] & 0xfeu8 == 0);
        }
    }
    Ok(present_items)
}

/// The bit fields of a Fixed item from the `i`-th on: `pos` bits of `stream`
/// are read, of `total`; `rv` holds the fields read, `fx` the FX bit if read.
/// A field whose condition fails is skipped without reading.
pub open spec fn fixed_loop(bits: Seq<Bits>, i: nat, stream: Seq<bool>, total: nat, pos: nat, rv: ObjectV, fx: Option<bool>)
    -> Result<(ObjectV, Option<bool>, nat), Fail>
    decreases bits.len() - i,
{
    if i >= bits.len() {
        Ok((rv, fx, pos))
    } else {
        let b = bits[i as int];
        let enc = field_encode(b);
        match bits_range(b) {
            Err(e) => Err(Fail::Error(e)),
            Ok((from, to)) => if from - to + 1 > u32::MAX {
                Err(Fail::Panic)
            } else {
                let length = (from - to + 1) as nat;
                if b.condition is Some && !is_uint(obj_get(rv, b.condition.unwrap().key@), b.condition.unwrap().val as u64) {
                    fixed_loop(bits, i + 1, stream, total, pos, rv, fx)
                } else if from != total - pos {
                    Err(Fail::Error(ErrorV::InvalidSpec { child: InvalidSpecV::NonContinousBits }))
                } else if length > 64 {
                    Err(Fail::Panic)
                } else if to == 0 && stream.len() - pos >= from + 1 {
                    Err(Fail::Panic)
                } else if stream.len() - pos < length {
                    Err(Fail::Error(ErrorV::ReadingOob))
                } else {
                    let value = bits_value(stream.subrange(pos as int, (pos + length) as int)) as u64;
                    if b.fx == Some(1u64) {
                        if fx is Some {
                            Err(Fail::Error(ErrorV::InvalidSpec { child: InvalidSpecV::FxUsedTwice }))
                        } else {
                            fixed_loop(bits, i + 1, stream, total, pos + length, rv, Some(value != 0))
                        }
                    } else if crate::fields::is_spare_name(b.short_name@) {
                        fixed_loop(bits, i + 1, stream, total, pos + length, rv, fx)
                    } else {
                        let v = field_value(decode_value(value, length as u32, enc), b.unit, enc);
                        fixed_loop(bits, i + 1, stream, total, pos + length, obj_insert(rv, b.short_name@, v), fx)
                    }
                }
            },
        }
    }
}

/// A field of a Fixed item that reading names `k`: neither the FX bit nor a
/// spare field.
pub open spec fn names_field(b: Bits, k: Seq<char>) -> bool {
    &&& b.fx != Some(1u64)
    &&& !crate::fields::is_spare_name(b.short_name@)
    &&& b.short_name@ == k
}

/// The keys of the object read for fields from the `i`-th on, with no
/// conditions, are those read before and the names of those fields.
proof fn lemma_fixed_loop_keys(bits: Seq<Bits>, i: nat, stream: Seq<bool>, total: nat, pos: nat, rv: ObjectV, fx: Option<bool>, k: Seq<char>)
    requires
        fixed_loop(bits, i, stream, total, pos, rv, fx) is Ok,
        forall|j: int| 0 <= j < bits.len() ==> (#[trigger] bits[j]).condition is None,
    ensures
        obj_get(fixed_loop(bits, i, stream, total, pos, rv, fx)->Ok_0.0, k) is Some
            <==> (obj_get(rv, k) is Some || exists|j: int| i <= j < bits.len() && names_field(#[trigger] bits[j], k)),
    decreases bits.len() - i,
{
    if i < bits.len() {
        let b = bits[i as int];
        assert(b.condition is None);
        let (from, to) = bits_range(b)->Ok_0;
        let length = (from - to + 1) as nat;
        let value = bits_value(stream.subrange(pos as int, (pos + length) as int)) as u64;
        let enc = field_encode(b);
        if b.fx == Some(1u64) {
            lemma_fixed_loop_keys(bits, i + 1, stream, total, pos + length, rv, Some(value != 0), k);
        } else if crate::fields::is_spare_name(b.short_name@) {
            lemma_fixed_loop_keys(bits, i + 1, stream, total, pos + length, rv, fx, k);
        } else {
            let v = field_value(decode_value(value, length as u32, enc), b.unit, enc);
            lemma_fixed_loop_keys(bits, i + 1, stream, total, pos + length, obj_insert(rv, b.short_name@, v), fx, k);
            lemma_obj_get_insert(rv, b.short_name@, v, k);
        }
        if exists|j: int| i <= j < bits.len() && names_field(#[trigger] bits[j], k) {
            let j = choose|j: int| i <= j < bits.len() && names_field(#[trigger] bits[j], k);
            if j > i {
                assert(i + 1 <= j < bits.len() && names_field(bits[j], k));
            }
        }
        if exists|j: int| i + 1 <= j < bits.len() && names_field(#[trigger] bits[j], k) {
            let j = choose|j: int| i + 1 <= j < bits.len() && names_field(#[trigger] bits[j], k);
            assert(i <= j < bits.len() && names_field(bits[j], k));
        }
    }
}

/// The keys of the object read for a Fixed item whose fields have no
/// conditions are the names of its fields, but for the FX bit and spare
/// fields.
pub proof fn lemma_fixed_keys(input: Seq<u8>, fixed: Fixed, k: Seq<char>)
    requires
        spec_read_fixed(input, fixed) is Ok,
        forall|j: int| 0 <= j < fixed.bits@.len() ==> (#[trigger] fixed.bits@[j]).condition is None,
    ensures
        obj_get(spec_read_fixed(input, fixed)->Ok_0.0, k) is Some
            <==> exists|j: int| 0 <= j < fixed.bits@.len() && names_field(#[trigger] fixed.bits@[j], k),
{
    let total = (fixed.length * 8) as nat;
    lemma_fixed_loop_keys(fixed.bits@, 0, bytes_bits(input), total, 0, Seq::empty(), None, k);
}

/// A Fixed item at the start of `input`: its fields, its FX bit if it has
/// one, and the input after it.
pub open spec fn spec_read_fixed(input: Seq<u8>, fixed: Fixed) -> Result<(ObjectV, Option<bool>, Seq<u8>), Fail> {
    if fixed.length * 8 > u32::MAX {
        Err(Fail::Panic)
    } else {
        let total = (fixed.length * 8) as nat;
        match fixed_loop(fixed.bits@, 0, bytes_bits(input), total, 0, Seq::empty(), None) {
            Err(e) => Err(e),
            Ok((rv, fx, pos)) => if pos != total {
                Err(Fail::Error(ErrorV::InvalidSpec { child: InvalidSpecV::NonContinousBits }))
            } else {
                Ok((rv, fx, input.skip(fixed.length as int)))
            },
        }
    }
}

/// Reads a Fixed item: its fields, and its FX bit if it has one.
fn read_fixed(reader: &mut &[u8], fixed: &Fixed) -> (r: Result<(Object, Option<bool>), Error>)
    requires
        !(spec_read_fixed(old(reader)@, *fixed) is Err && spec_read_fixed(old(reader)@, *fixed)->Err_0 is Panic),
    ensures
        match spec_read_fixed(old(reader)@, *fixed) {
            Ok((rv, fx, rest)) => r matches Ok((o, f)) && o@ == rv && f == fx && final(reader)@ == rest,
            Err(Fail::Error(e)) => r matches Err(x) && x@ == e,
            Err(Fail::Panic) => false,
        },
{
    let ghost input = reader@;
    let ghost s0 = bytes_bits(input);
    let ghost total = (fixed.length * 8) as nat;
    let mut fx: Option<bool> = None;
    let mut bit_reader = BitReader::new(fixed.length);
    let mut rv = Object::new();
    let ghost mut pos: nat = 0;
    let mut i: usize = 0;
    proof {
        assert(s0.skip(0) =~= s0);
        assert(bit_reader.stream(reader@) =~= s0);
        assert(input.skip(0) =~= input);
    }
    while i < fixed.bits.len()
        invariant
            input == old(reader)@,
            s0 == bytes_bits(input),
            total == fixed.length * 8,
            fixed.length * 8 <= u32::MAX,
            i <= fixed.bits@.len(),
            bit_reader.inv(),
            bit_reader.stream(reader@) == s0.skip(pos as int),
            bit_reader.out_pos() == total - pos,
            pos <= total,
            pos <= s0.len(),
            reader@ == input.skip(input.len() - reader@.len()),
            reader@.len() <= input.len(),
            fixed_loop(fixed.bits@, 0, s0, total, 0, Seq::empty(), None)
                == fixed_loop(fixed.bits@, i as nat, s0, total, pos, rv@, fx),
            !(fixed_loop(fixed.bits@, i as nat, s0, total, pos, rv@, fx) is Err
                && fixed_loop(fixed.bits@, i as nat, s0, total, pos, rv@, fx)->Err_0 is Panic),
        decreases fixed.bits.len() - i,
    {
        let bits = &fixed.bits[i];
        let encode = match bits.encode {
            Some(e) => e,
            None => Encode::Unsigned,
        };
        let name = &bits.short_name;
        let (from, to) = field_range(bits)?;
        let length = from - to + 1;
        if let Some(condition) = &bits.condition {
            let matched = match rv.get(condition.key.as_str()) {
                Some(Value::Number(jn)) => match jn.n {
                    Number::PosInt(x) => x == condition.val as u64,
                    _ => false,
                },
                _ => false,
            };
            if !matched {
                i = i + 1;
                continue;
            }
        }
        let ghost stream_now = bit_reader.stream(reader@);
        proof {
            lemma_bytes_bits_len(input);
        }
        let value = bit_reader.read_bits(reader, from, to)?;
        proof {
            assert(stream_now.take(length as int) =~= s0.subrange(pos as int, pos + length));
            assert(s0.skip(pos as int).skip(length as int) =~= s0.skip(pos + length));
            pos = (pos + length) as nat;
        }
        if bits.fx == Some(1u64) {
            if fx.is_some() {
                return Err(Error::InvalidSpec { child: InvalidSpec::FxUsedTwice });
            }
            fx = Some(value != 0);
            i = i + 1;
            continue;
        } else if is_spare(name) {
            i = i + 1;
            continue;
        }
        proof {
            if length < 64 {
                crate::bitstream::lemma_pow2_shl(length as u64);
            }
        }
        let decoded = decode_field(value, length, encode);
        let v = make_field_value(decoded, &bits.unit, encode);
        rv.insert(name.clone(), v);
        i = i + 1;
    }
    bit_reader.finish()?;
    proof {
        bit_reader.lemma_pending_len();
        lemma_bytes_bits_take(input, input.len() - reader@.len());
        lemma_bytes_bits_len(input);
        lemma_bytes_bits_len(reader@);
        assert(reader@.len() == input.len() - fixed.length);
    }
    Ok((rv, fx))
}

/// The bits read by `fixed_loop` only grow; an FX bit read means some bits were.
pub proof fn lemma_fixed_loop_pos(bits: Seq<Bits>, i: nat, stream: Seq<bool>, total: nat, pos: nat, rv: ObjectV, fx: Option<bool>)
    requires
        pos <= stream.len(),
    ensures
        fixed_loop(bits, i, stream, total, pos, rv, fx) matches Ok((_, fx2, p)) ==> pos <= p <= stream.len()
            && (fx2 is Some ==> fx is Some || p > pos),
    decreases bits.len() - i,
{
    if i < bits.len() {
        let b = bits[i as int];
        match bits_range(b) {
            Err(_) => {},
            Ok((from, to)) => {
                if from - to + 1 <= u32::MAX {
                    let length = (from - to + 1) as nat;
                    if b.condition is Some && !is_uint(obj_get(rv, b.condition.unwrap().key@), b.condition.unwrap().val as u64) {
                        lemma_fixed_loop_pos(bits, i + 1, stream, total, pos, rv, fx);
                    } else if from == total - pos && length <= 64 && stream.len() - pos >= length
                        && !(to == 0 && stream.len() - pos >= from + 1) {
                        let value = bits_value(stream.subrange(pos as int, (pos + length) as int)) as u64;
                        let enc = field_encode(b);
                        if b.fx == Some(1u64) {
                            lemma_fixed_loop_pos(bits, i + 1, stream, total, pos + length, rv, Some(value != 0));
                        } else if crate::fields::is_spare_name(b.short_name@) {
                            lemma_fixed_loop_pos(bits, i + 1, stream, total, pos + length, rv, fx);
                        } else {
                            let v = field_value(decode_value(value, length as u32, enc), b.unit, enc);
                            lemma_fixed_loop_pos(bits, i + 1, stream, total, pos + length, obj_insert(rv, b.short_name@, v), fx);
                        }
                    }
                }
            },
        }
    }
}

/// A Fixed item read with an FX bit is at least one byte long.
pub proof fn lemma_read_fixed_progress(input: Seq<u8>, fixed: Fixed)
    ensures
        spec_read_fixed(input, fixed) matches Ok((_, fx, rest)) ==> rest.len() <= input.len()
            && (fx is Some ==> rest.len() < input.len()),
{
    if fixed.length * 8 <= u32::MAX {
        lemma_bytes_bits_len(input);
        lemma_fixed_loop_pos(fixed.bits@, 0, bytes_bits(input), (fixed.length * 8) as nat, 0, Seq::empty(), None);
    }
}

/// A Variable with one Fixed part: parts read until one has its FX bit clear.
pub open spec fn var_repeat(input: Seq<u8>, fixed: Fixed, acc: Seq<ValueV>) -> Result<(ValueV, Seq<u8>), Fail>
    decreases input.len(),
{
    match spec_read_fixed(input, fixed) {
        Err(e) => Err(e),
        Ok((rv, fx, rest)) => {
            let acc2 = acc.push(ValueV::Object(rv));
            match fx {
                Some(true) => {
                    proof {
                        lemma_read_fixed_progress(input, fixed);
                    }
                    var_repeat(rest, fixed, acc2)
                },
                Some(false) => Ok((ValueV::Array(acc2), rest)),
                None => Err(Fail::Error(ErrorV::InvalidSpec { child: InvalidSpecV::FxNotUsed })),
            }
        },
    }
}

/// A Variable with several parts: the parts from the `i`-th on, merged into
/// one object, until one has its FX bit clear.
pub open spec fn var_parts(input: Seq<u8>, formats: Seq<Format>, i: nat, acc: ObjectV) -> Result<(ValueV, Seq<u8>), Fail>
    decreases formats.len() - i,
{
    if i >= formats.len() {
        Ok((ValueV::Object(acc), input))
    } else {
        match formats[i as int] {
            Format::Fixed(fixed) => match spec_read_fixed(input, fixed) {
                Err(e) => Err(e),
                Ok((rv, fx, rest)) => {
                    let acc2 = obj_extend(acc, rv);
                    match fx {
                        Some(true) => var_parts(rest, formats, i + 1, acc2),
                        Some(false) => Ok((ValueV::Object(acc2), rest)),
                        None => Err(Fail::Error(ErrorV::InvalidSpec { child: InvalidSpecV::FxNotUsed })),
                    }
                },
            },
            _ => Err(Fail::Error(ErrorV::InvalidSpec { child: InvalidSpecV::ExpectedFixedInVariable })),
        }
    }
}

/// A Variable item at the start of `input`.
pub open spec fn spec_read_variable(input: Seq<u8>, v: Variable) -> Result<(ValueV, Seq<u8>), Fail> {
    if v.formats@.len() == 1 {
        match v.formats@[0] {
            Format::Fixed(fixed) => var_repeat(input, fixed, Seq::empty()),
            _ => Err(Fail::Error(ErrorV::InvalidSpec { child: InvalidSpecV::ExpectedFixedInVariable })),
        }
    } else {
        var_parts(input, v.formats@, 0, Seq::empty())
    }
}

fn expect_fixed(format: &Format) -> (r: Result<&Fixed, Error>)
    ensures
        match *format {
            Format::Fixed(f) => r matches Ok(x) && *x == f,
            _ => r matches Err(e) && e@ == ErrorV::InvalidSpec { child: InvalidSpecV::ExpectedFixedInVariable },
        },
{
    if let Format::Fixed(fixed) = format {
        Ok(fixed)
    } else {
        Err(Error::InvalidSpec { child: InvalidSpec::ExpectedFixedInVariable })
    }
}

/// Reads a Variable item.
fn read_variable(reader: &mut &[u8], variable: &Variable) -> (r: Result<Value, Error>)
    requires
        !(spec_read_variable(old(reader)@, *variable) is Err && spec_read_variable(old(reader)@, *variable)->Err_0 is Panic),
    ensures
        match spec_read_variable(old(reader)@, *variable) {
            Ok((v, rest)) => r matches Ok(x) && x@ == v && final(reader)@ == rest,
            Err(Fail::Error(e)) => r matches Err(x) && x@ == e,
            Err(Fail::Panic) => false,
        },
{
    let ghost input = reader@;
    if variable.formats.len() == 1 {
        let mut rv: Vec<Value> = Vec::new();
        let fixed = expect_fixed(&variable.formats[0])?;
        assert(rv@ =~= Seq::<Value>::empty());
        loop
            invariant
                input == old(reader)@,
                variable.formats@.len() == 1,
                variable.formats@[0] == Format::Fixed(*fixed),
                spec_read_variable(input, *variable) == var_repeat(reader@, *fixed, values_view(rv@)),
                !(var_repeat(reader@, *fixed, values_view(rv@)) is Err
                    && var_repeat(reader@, *fixed, values_view(rv@))->Err_0 is Panic),
            decreases reader@.len(),
        {
            let ghost before = reader@;
            proof {
                lemma_read_fixed_progress(before, *fixed);
            }
            let (value, fx) = read_fixed(reader, fixed)?;
            proof {
                lemma_values_view_push(rv@, Value::Object(value));
            }
            rv.push(Value::Object(value));
            match fx {
                Some(true) => {},
                Some(false) => {
                    return Ok(Value::Array(rv));
                },
                None => {
                    return Err(Error::InvalidSpec { child: InvalidSpec::FxNotUsed });
                },
            }
        }
    } else {
        let mut rv = Object::new();
        let mut i: usize = 0;
        while i < variable.formats.len()
            invariant
                input == old(reader)@,
                variable.formats@.len() != 1,
                i <= variable.formats@.len(),
                spec_read_variable(input, *variable) == var_parts(reader@, variable.formats@, i as nat, rv@),
                !(var_parts(reader@, variable.formats@, i as nat, rv@) is Err
                    && var_parts(reader@, variable.formats@, i as nat, rv@)->Err_0 is Panic),
            decreases variable.formats.len() - i,
        {
            let fixed = expect_fixed(&variable.formats[i])?;
            let (value, fx) = read_fixed(reader, fixed)?;
            rv.extend(value);
            match fx {
                Some(true) => {},
                Some(false) => {
                    return Ok(Value::Object(rv));
                },
                None => {
                    return Err(Error::InvalidSpec { child: InvalidSpec::FxNotUsed });
                },
            }
            i = i + 1;
        }
        Ok(Value::Object(rv))
    }
}

/// The subitems a Compound's presence field announces, from the `j`-th bit
/// of its `byte_no`-th part on.
pub open spec fn compound_bits(fspec: Seq<u8>, byte_no: nat, bits: Seq<Bits>, j: nat, acc: Seq<PresentItem>)
    -> Result<Seq<PresentItem>, Fail>
    decreases bits.len() - j,
{
    if j >= bits.len() {
        Ok(acc)
    } else {
        let b = bits[j as int];
        if b.fx == Some(1u64) || crate::fields::is_spare_name(b.short_name@) {
            compound_bits(fspec, byte_no, bits, j + 1, acc)
        } else {
            match b.bit {
                None => Err(Fail::Error(ErrorV::InvalidSpec { child: InvalidSpecV::InvalidCompoundSubitem })),
                Some(bit) => if bit > 8 || byte_no * 7 + (8 - bit) > usize::MAX || bit == 0 {
                    Err(Fail::Panic)
                } else {
                    let mask = 1u8 << ((bit - 1) as u32);
                    if byte_no >= fspec.len() || fspec[byte_no as int] & mask == 0 {
                        compound_bits(fspec, byte_no, bits, j + 1, acc)
                    } else {
                        match b.presence {
                            None => Err(Fail::Error(ErrorV::InvalidSpec { child: InvalidSpecV::InvalidCompoundSubitem })),
                            Some(index) => compound_bits(fspec, byte_no, bits, j + 1, acc.push(
                                PresentItem { frn: (byte_no * 7 + (8 - bit)) as usize, key: b.short_name, index },
                            )),
                        }
                    }
                },
            }
        }
    }
}

/// The subitems a Compound's presence field announces, from its
/// `byte_no`-th part on.
pub open spec fn compound_heads(fspec: Seq<u8>, heads: Seq<Format>, byte_no: nat, acc: Seq<PresentItem>)
    -> Result<Seq<PresentItem>, Fail>
    decreases heads.len() - byte_no,
{
    if byte_no >= heads.len() {
        Ok(acc)
    } else {
        match heads[byte_no as int] {
            Format::Fixed(fixed) => match compound_bits(fspec, byte_no, fixed.bits@, 0, acc) {
                Err(e) => Err(e),
                Ok(acc2) => compound_heads(fspec, heads, byte_no + 1, acc2),
            },
            _ => Err(Fail::Error(ErrorV::InvalidSpec { child: InvalidSpecV::ExpectedFixedInVariable })),
        }
    }
}

/// An item of any format at the start of `input`, and the input after it.
pub open spec fn spec_read_field(input: Seq<u8>, f: Format) -> Result<(ValueV, Seq<u8>), Fail>
    decreases f, 0nat,
{
    match f {
        Format::Fixed(fixed) => match spec_read_fixed(input, fixed) {
            Err(e) => Err(e),
            Ok((rv, fx, rest)) => if fx is Some {
                Err(Fail::Error(ErrorV::InvalidSpec { child: InvalidSpecV::FxOutsideVariable }))
            } else {
                Ok((ValueV::Object(rv), rest))
            },
        },
        Format::Variable(v) => spec_read_variable(input, v),
        Format::Compound(c) => match spec_fspec_len(input) {
            None => Err(Fail::Error(ErrorV::ReadingOob)),
            Some(n) => if c.formats@.len() == 0 {
                Err(Fail::Error(ErrorV::InvalidSpec { child: InvalidSpecV::ExpectedVariableInCompound }))
            } else {
                match c.formats@[0] {
                    Format::Variable(head) => match compound_heads(input.take(n as int), head.formats@, 0, Seq::empty()) {
                        Err(e) => Err(e),
                        Ok(items) => compound_items(input.skip(n as int), c.formats@, items, 0, Seq::empty()),
                    },
                    _ => Err(Fail::Error(ErrorV::InvalidSpec { child: InvalidSpecV::ExpectedVariableInCompound })),
                }
            },
        },
        Format::Explicit(e) => if input.len() == 0 {
            Err(Fail::Error(ErrorV::ReadingOob))
        } else {
            let length = input[0] as int - 1;
            let body = input.skip(1);
            if length < 0 || length > body.len() {
                Err(Fail::Error(ErrorV::ReadingOob))
            } else {
                match items_merge(body.take(length), e.formats@, 0, Seq::empty()) {
                    Err(x) => Err(x),
                    Ok((o, left)) => if left.len() != 0 {
                        Err(Fail::Error(ErrorV::ExplicitHasDataLeft))
                    } else {
                        Ok((ValueV::Object(o), body.skip(length)))
                    },
                }
            }
        },
        Format::Repetitive(r) => if input.len() == 0 {
            Err(Fail::Error(ErrorV::ReadingOob))
        } else {
            rep_loop(input.skip(1), r.formats@, input[0] as nat, Seq::empty())
        },
        Format::BDS => Err(Fail::Error(ErrorV::BdsNotImplemented)),
    }
}

/// The items from the `i`-th on, each an object, merged into one.
pub open spec fn items_merge(input: Seq<u8>, formats: Seq<Format>, i: nat, acc: ObjectV) -> Result<(ObjectV, Seq<u8>), Fail>
    decreases formats, formats.len() - i,
{
    if i >= formats.len() {
        Ok((acc, input))
    } else {
        match spec_read_field(input, formats[i as int]) {
            Err(e) => Err(e),
            Ok((v, rest)) => match v {
                ValueV::Object(o) => items_merge(rest, formats, i + 1, obj_extend(acc, o)),
                _ => Err(Fail::Error(ErrorV::ExpectedMap)),
            },
        }
    }
}

/// `count` more repetitions of the items, each merged into one object.
pub open spec fn rep_loop(input: Seq<u8>, formats: Seq<Format>, count: nat, acc: Seq<ValueV>) -> Result<(ValueV, Seq<u8>), Fail>
    decreases formats, formats.len() + 1 + count,
{
    if count == 0 {
        Ok((ValueV::Array(acc), input))
    } else {
        match items_merge(input, formats, 0, Seq::empty()) {
            Err(e) => Err(e),
            Ok((o, rest)) => rep_loop(rest, formats, (count - 1) as nat, acc.push(ValueV::Object(o))),
        }
    }
}

/// The announced subitems of a Compound from the `k`-th on.
pub open spec fn compound_items(input: Seq<u8>, formats: Seq<Format>, items: Seq<PresentItem>, k: nat, acc: ObjectV)
    -> Result<(ValueV, Seq<u8>), Fail>
    decreases formats, items.len() - k,
{
    if k >= items.len() {
        Ok((ValueV::Object(acc), input))
    } else {
        let it = items[k as int];
        if it.index >= formats.len() {
            Err(Fail::Error(ErrorV::InvalidSpec { child: InvalidSpecV::CompoundSubitemOob }))
        } else {
            match spec_read_field(input, formats[it.index as int]) {
                Err(e) => Err(e),
                Ok((v, rest)) => compound_items(rest, formats, items, k + 1, obj_insert(acc, it.key@, v)),
            }
        }
    }
}

/// Whether a spec outcome is a panic.
pub open spec fn panics<T>(r: Result<T, Fail>) -> bool {
    r is Err && r->Err_0 is Panic
}

/// Reads an Explicit item: a length byte that counts itself, then its
/// items, merged.
fn read_explicit(reader: &mut &[u8], explicit: &Explicit) -> (r: Result<Value, Error>)
    requires
        !panics(spec_read_field(old(reader)@, Format::Explicit(*explicit))),
    ensures
        match spec_read_field(old(reader)@, Format::Explicit(*explicit)) {
            Ok((v, rest)) => r matches Ok(x) && x@ == v && final(reader)@ == rest,
            Err(Fail::Error(e)) => r matches Err(x) && x@ == e,
            Err(Fail::Panic) => false,
        },
    decreases *explicit, 1nat,
{
    let ghost input = reader@;
    let count = plonk(reader)? as usize;
    if count == 0 || count - 1 > reader.len() {
        return Err(Error::ReadingOob);
    }
    let length = count - 1;
    let (local, tail) = reader.split_at(length);
    let mut local_reader: &[u8] = local;
    *reader = tail;
    let mut rv = Object::new();
    let mut i: usize = 0;
    let ghost formats = explicit.formats@;
    while i < explicit.formats.len()
        invariant
            formats == explicit.formats@,
            i <= formats.len(),
            input == old(reader)@,
            input.len() > 0,
            input[0] >= 1,
            reader@ == input.skip(1).skip(input[0] as int - 1),
            items_merge(input.skip(1).take(input[0] as int - 1), formats, 0, Seq::empty())
                == items_merge(local_reader@, formats, i as nat, rv@),
            !panics(items_merge(local_reader@, formats, i as nat, rv@)),
            input[0] as int - 1 <= input.skip(1).len(),
        decreases explicit.formats.len() - i,
    {
        let value = read_field(&mut local_reader, &explicit.formats[i])?;
        match value {
            Value::Object(object) => {
                rv.extend(object);
            },
            _ => {
                return Err(Error::ExpectedMap);
            },
        }
        i = i + 1;
    }
    if local_reader.len() != 0 {
        return Err(Error::ExplicitHasDataLeft);
    }
    Ok(Value::Object(rv))
}

/// Reads a Repetitive item: a count byte, then that many repetitions.
fn read_repetitive(reader: &mut &[u8], repetitive: &Repetitive) -> (r: Result<Value, Error>)
    requires
        !panics(spec_read_field(old(reader)@, Format::Repetitive(*repetitive))),
    ensures
        match spec_read_field(old(reader)@, Format::Repetitive(*repetitive)) {
            Ok((v, rest)) => r matches Ok(x) && x@ == v && final(reader)@ == rest,
            Err(Fail::Error(e)) => r matches Err(x) && x@ == e,
            Err(Fail::Panic) => false,
        },
    decreases *repetitive, 1nat,
{
    let ghost input = reader@;
    let count = plonk(reader)? as usize;
    let ghost formats = repetitive.formats@;
    let mut result: Vec<Value> = Vec::new();
    let mut ii: usize = 0;
    assert(result@ =~= Seq::<Value>::empty());
    while ii < count
        invariant
            formats == repetitive.formats@,
            ii <= count,
            input == old(reader)@,
            input.len() > 0,
            count == input[0],
            spec_read_field(input, Format::Repetitive(*repetitive))
                == rep_loop(reader@, formats, (count - ii) as nat, values_view(result@)),
            !panics(rep_loop(reader@, formats, (count - ii) as nat, values_view(result@))),
        decreases count - ii,
    {
        let mut value = Object::new();
        let mut j: usize = 0;
        let ghost start = reader@;
        while j < repetitive.formats.len()
            invariant
                formats == repetitive.formats@,
                j <= formats.len(),
                ii < count,
                input == old(reader)@,
                input.len() > 0,
                count == input[0],
                spec_read_field(input, Format::Repetitive(*repetitive))
                    == rep_loop(start, formats, (count - ii) as nat, values_view(result@)),
                !panics(rep_loop(start, formats, (count - ii) as nat, values_view(result@))),
                items_merge(start, formats, 0, Seq::empty()) == items_merge(reader@, formats, j as nat, value@),
            decreases repetitive.formats.len() - j,
        {
            let item = read_field(reader, &repetitive.formats[j])?;
            match item {
                Value::Object(object) => {
                    value.extend(object);
                },
                _ => {
                    return Err(Error::ExpectedMap);
                },
            }
            j = j + 1;
        }
        proof {
            lemma_values_view_push(result@, Value::Object(value));
        }
        result.push(Value::Object(value));
        ii = ii + 1;
    }
    Ok(Value::Array(result))
}

/// The Variable that heads a Compound, or the error that says it is not one.
fn expect_variable(format: &Format) -> (r: Result<&Variable, Error>)
    ensures
        match *format {
            Format::Variable(v) => r matches Ok(x) && *x == v,
            _ => r matches Err(e) && e@ == ErrorV::InvalidSpec { child: InvalidSpecV::ExpectedVariableInCompound },
        },
{
    if let Format::Variable(variable) = format {
        Ok(variable)
    } else {
        Err(Error::InvalidSpec { child: InvalidSpec::ExpectedVariableInCompound })
    }
}

/// Reads a Compound item: a presence field, then the announced subitems.
fn read_compound(reader: &mut &[u8], compound: &Compound) -> (r: Result<Value, Error>)
    requires
        !panics(spec_read_field(old(reader)@, Format::Compound(*compound))),
    ensures
        match spec_read_field(old(reader)@, Format::Compound(*compound)) {
            Ok((v, rest)) => r matches Ok(x) && x@ == v && final(reader)@ == rest,
            Err(Fail::Error(e)) => r matches Err(x) && x@ == e,
            Err(Fail::Panic) => false,
        },
    decreases *compound, 1nat,
{
    let ghost input = reader@;
    let fspec = read_fspec(reader)?;
    if compound.formats.len() == 0 {
        return Err(Error::InvalidSpec { child: InvalidSpec::ExpectedVariableInCompound });
    }
    let head = expect_variable(&compound.formats[0])?;
    let ghost n = spec_fspec_len(input).unwrap();
    let mut present_items: Vec<PresentItem> = Vec::new();
    assert(present_items@ =~= Seq::<PresentItem>::empty());
    let mut byte_no: usize = 0;
    while byte_no < head.formats.len()
        invariant
            input == old(reader)@,
            spec_fspec_len(input) == Some(n),
            fspec@ == input.take(n as int),
            reader@ == input.skip(n as int),
            compound.formats@.len() > 0,
            compound.formats@[0] == Format::Variable(*head),
            byte_no <= head.formats@.len(),
            compound_heads(fspec@, head.formats@, 0, Seq::empty())
                == compound_heads(fspec@, head.formats@, byte_no as nat, present_items@),
            !panics(compound_heads(fspec@, head.formats@, byte_no as nat, present_items@)),
        decreases head.formats.len() - byte_no,
    {
        let fixed = expect_fixed(&head.formats[byte_no])?;
        let mut j: usize = 0;
        let ghost acc0 = present_items@;
        while j < fixed.bits.len()
            invariant
                input == old(reader)@,
                spec_fspec_len(input) == Some(n),
                fspec@ == input.take(n as int),
                reader@ == input.skip(n as int),
                compound.formats@.len() > 0,
                compound.formats@[0] == Format::Variable(*head),
                byte_no < head.formats@.len(),
                head.formats@[byte_no as int] == Format::Fixed(*fixed),
                compound_heads(fspec@, head.formats@, 0, Seq::empty())
                    == compound_heads(fspec@, head.formats@, byte_no as nat, acc0),
                !panics(compound_heads(fspec@, head.formats@, byte_no as nat, acc0)),
                j <= fixed.bits@.len(),
                compound_bits(fspec@, byte_no as nat, fixed.bits@, 0, acc0)
                    == compound_bits(fspec@, byte_no as nat, fixed.bits@, j as nat, present_items@),
            decreases fixed.bits.len() - j,
        {
            let bits = &fixed.bits[j];
            let key = &bits.short_name;
            if bits.fx == Some(1u64) || is_spare(key) {
                j = j + 1;
                continue;
            }
            let bit = match bits.bit {
                Some(b) => b,
                None => {
                    return Err(Error::InvalidSpec { child: InvalidSpec::InvalidCompoundSubitem });
                },
            };
            let frn = byte_no * 7 + (8 - bit as usize);
            let mask: u8 = 1u8 << (bit - 1);
            if byte_no >= fspec.len() || fspec[byte_no] & mask == 0 {
                j = j + 1;
                continue;
            }
            let index = match bits.presence {
                Some(ix) => ix,
                None => {
                    return Err(Error::InvalidSpec { child: InvalidSpec::InvalidCompoundSubitem });
                },
            };
            present_items.push(PresentItem { frn, key: key.clone(), index });
            j = j + 1;
        }
        byte_no = byte_no + 1;
    }
    let mut rv = Object::new();
    let mut k: usize = 0;
    while k < present_items.len()
        invariant
            input == old(reader)@,
            spec_read_field(input, Format::Compound(*compound))
                == compound_items(reader@, compound.formats@, present_items@, k as nat, rv@),
            !panics(compound_items(reader@, compound.formats@, present_items@, k as nat, rv@)),
            k <= present_items@.len(),
        decreases present_items.len() - k,
    {
        let item = &present_items[k];
        if item.index >= compound.formats.len() {
            return Err(Error::InvalidSpec { child: InvalidSpec::CompoundSubitemOob });
        }
        let value = read_field(reader, &compound.formats[item.index])?;
        rv.insert(item.key.clone(), value);
        k = k + 1;
    }
    Ok(Value::Object(rv))
}

/// Reads an item of any format.
fn read_field(reader: &mut &[u8], format: &Format) -> (r: Result<Value, Error>)
    requires
        !panics(spec_read_field(old(reader)@, *format)),
    ensures
        match spec_read_field(old(reader)@, *format) {
            Ok((v, rest)) => r matches Ok(x) && x@ == v && final(reader)@ == rest,
            Err(Fail::Error(e)) => r matches Err(x) && x@ == e,
            Err(Fail::Panic) => false,
        },
    decreases *format, 0nat,
{
    match format {
        Format::Fixed(fixed) => {
            let (result, fx) = read_fixed(reader, fixed)?;
            if fx.is_some() {
                return Err(Error::InvalidSpec { child: InvalidSpec::FxOutsideVariable });
            }
            Ok(Value::Object(result))
        },
        Format::Variable(variable) => read_variable(reader, variable),
        Format::Compound(compound) => read_compound(reader, compound),
        Format::Explicit(explicit) => read_explicit(reader, explicit),
        Format::Repetitive(rep) => read_repetitive(reader, rep),
        Format::BDS => Err(Error::BdsNotImplemented),
    }
}

/// Reading a Variable of one part takes no bytes that are not there.
proof fn lemma_var_repeat_progress(input: Seq<u8>, fixed: Fixed, acc: Seq<ValueV>)
    ensures
        var_repeat(input, fixed, acc) matches Ok((_, rest)) ==> rest.len() <= input.len(),
    decreases input.len(),
{
    lemma_read_fixed_progress(input, fixed);
    if let Ok((rv, fx, rest)) = spec_read_fixed(input, fixed) {
        if fx == Some(true) {
            lemma_var_repeat_progress(rest, fixed, acc.push(ValueV::Object(rv)));
        }
    }
}

/// Reading the parts of a Variable takes no bytes that are not there.
proof fn lemma_var_parts_progress(input: Seq<u8>, formats: Seq<Format>, i: nat, acc: ObjectV)
    ensures
        var_parts(input, formats, i, acc) matches Ok((_, rest)) ==> rest.len() <= input.len(),
    decreases formats.len() - i,
{
    if i < formats.len() {
        if let Format::Fixed(fixed) = formats[i as int] {
            lemma_read_fixed_progress(input, fixed);
            if let Ok((rv, fx, rest)) = spec_read_fixed(input, fixed) {
                if fx == Some(true) {
                    lemma_var_parts_progress(rest, formats, i + 1, obj_extend(acc, rv));
                }
            }
        }
    }
}

/// What follows an item read is no longer than what it was read from.
pub proof fn lemma_field_progress(input: Seq<u8>, f: Format)
    ensures
        spec_read_field(input, f) matches Ok((_, rest)) ==> rest.len() <= input.len(),
    decreases f, 0nat,
{
    match f {
        Format::Fixed(fixed) => {
            lemma_read_fixed_progress(input, fixed);
        },
        Format::Variable(v) => {
            if v.formats@.len() == 1 {
                if let Format::Fixed(fixed) = v.formats@[0] {
                    lemma_var_repeat_progress(input, fixed, Seq::empty());
                }
            } else {
                lemma_var_parts_progress(input, v.formats@, 0, Seq::empty());
            }
        },
        Format::Compound(c) => {
            if let Some(n) = spec_fspec_len(input) {
                lemma_fspec_len(input);
                if c.formats@.len() > 0 {
                    if let Format::Variable(head) = c.formats@[0] {
                        if let Ok(items) = compound_heads(input.take(n as int), head.formats@, 0, Seq::empty()) {
                            lemma_compound_items_progress(input.skip(n as int), c.formats@, items, 0, Seq::empty());
                        }
                    }
                }
            }
        },
        Format::Explicit(e) => {},
        Format::Repetitive(r) => {
            if input.len() > 0 {
                lemma_rep_progress(input.skip(1), r.formats@, input[0] as nat, Seq::empty());
            }
        },
        Format::BDS => {},
    }
}

proof fn lemma_compound_items_progress(input: Seq<u8>, formats: Seq<Format>, items: Seq<PresentItem>, k: nat, acc: ObjectV)
    ensures
        compound_items(input, formats, items, k, acc) matches Ok((_, rest)) ==> rest.len() <= input.len(),
    decreases formats, items.len() - k,
{
    if k < items.len() {
        let it = items[k as int];
        if it.index < formats.len() {
            lemma_field_progress(input, formats[it.index as int]);
            if let Ok((v, rest)) = spec_read_field(input, formats[it.index as int]) {
                lemma_compound_items_progress(rest, formats, items, k + 1, obj_insert(acc, it.key@, v));
            }
        }
    }
}

proof fn lemma_merge_progress(input: Seq<u8>, formats: Seq<Format>, i: nat, acc: ObjectV)
    ensures
        items_merge(input, formats, i, acc) matches Ok((_, rest)) ==> rest.len() <= input.len(),
    decreases formats, formats.len() - i,
{
    if i < formats.len() {
        lemma_field_progress(input, formats[i as int]);
        if let Ok((v, rest)) = spec_read_field(input, formats[i as int]) {
            if let ValueV::Object(o) = v {
                lemma_merge_progress(rest, formats, i + 1, obj_extend(acc, o));
            }
        }
    }
}

proof fn lemma_rep_progress(input: Seq<u8>, formats: Seq<Format>, count: nat, acc: Seq<ValueV>)
    ensures
        rep_loop(input, formats, count, acc) matches Ok((_, rest)) ==> rest.len() <= input.len(),
    decreases formats, formats.len() + 1 + count,
{
    if count > 0 {
        lemma_merge_progress(input, formats, 0, Seq::empty());
        if let Ok((o, rest)) = items_merge(input, formats, 0, Seq::empty()) {
            lemma_rep_progress(rest, formats, (count - 1) as nat, acc.push(ValueV::Object(o)));
        }
    }
}

/// The data items of a record from the `k`-th announced one on.
pub open spec fn record_items(input: Seq<u8>, cat: Category, items: Seq<PresentItem>, k: nat, acc: ObjectV)
    -> Result<(ObjectV, Seq<u8>), Fail>
    decreases items.len() - k,
{
    if k >= items.len() {
        Ok((acc, input))
    } else {
        let it = items[k as int];
        if it.index >= cat.data_items@.len() {
            Err(Fail::Panic)
        } else {
            match spec_read_field(input, cat.data_items@[it.index as int].format.format) {
                Err(e) => Err(e),
                Ok((v, rest)) => record_items(rest, cat, items, k + 1, obj_insert(acc, it.key@, v)),
            }
        }
    }
}

/// The keys of the object read for the items from the `k`-th on are those
/// read before and the keys of those items.
proof fn lemma_record_items_keys(input: Seq<u8>, cat: Category, items: Seq<PresentItem>, k: nat, acc: ObjectV, key: Seq<char>)
    requires
        record_items(input, cat, items, k, acc) is Ok,
    ensures
        obj_get(record_items(input, cat, items, k, acc)->Ok_0.0, key) is Some
            <==> (obj_get(acc, key) is Some || exists|j: int| k <= j < items.len() && (#[trigger] items[j]).key@ == key),
    decreases items.len() - k,
{
    if k < items.len() {
        let it = items[k as int];
        let (v, rest) = spec_read_field(input, cat.data_items@[it.index as int].format.format)->Ok_0;
        lemma_record_items_keys(rest, cat, items, k + 1, obj_insert(acc, it.key@, v), key);
        lemma_obj_get_insert(acc, it.key@, v, key);
        if exists|j: int| k <= j < items.len() && (#[trigger] items[j]).key@ == key {
            let j = choose|j: int| k <= j < items.len() && (#[trigger] items[j]).key@ == key;
            if j > k {
                assert(k + 1 <= j < items.len() && items[j].key@ == key);
            }
        }
        if exists|j: int| k + 1 <= j < items.len() && (#[trigger] items[j]).key@ == key {
            let j = choose|j: int| k + 1 <= j < items.len() && (#[trigger] items[j]).key@ == key;
            assert(k <= j < items.len() && items[j].key@ == key);
        }
    }
}

/// A record: its FSPEC, then the data items it announces, keyed by their
/// ids; and the input after it.
pub open spec fn spec_read_record(input: Seq<u8>, cat: Category) -> Result<(ObjectV, Seq<u8>), Fail> {
    match spec_present_items(input, cat) {
        Err(e) => Err(e),
        Ok((items, rest)) => record_items(rest, cat, items, 0, Seq::empty()),
    }
}

proof fn lemma_record_items_progress(input: Seq<u8>, cat: Category, items: Seq<PresentItem>, k: nat, acc: ObjectV)
    ensures
        record_items(input, cat, items, k, acc) matches Ok((_, rest)) ==> rest.len() <= input.len(),
    decreases items.len() - k,
{
    if k < items.len() {
        let it = items[k as int];
        if it.index < cat.data_items@.len() {
            let f = cat.data_items@[it.index as int].format.format;
            lemma_field_progress(input, f);
            if let Ok((v, rest)) = spec_read_field(input, f) {
                lemma_record_items_progress(rest, cat, items, k + 1, obj_insert(acc, it.key@, v));
            }
        }
    }
}

/// The keys of the object read for a record are the keys of the items its
/// FSPEC announces.
pub proof fn lemma_record_keys(input: Seq<u8>, cat: Category, key: Seq<char>)
    requires
        spec_read_record(input, cat) is Ok,
    ensures
        obj_get(spec_read_record(input, cat)->Ok_0.0, key) is Some <==> exists|j: int|
            0 <= j < spec_present_items(input, cat)->Ok_0.0.len()
            && (#[trigger] spec_present_items(input, cat)->Ok_0.0[j]).key@ == key,
{
    let (items, rest) = spec_present_items(input, cat)->Ok_0;
    lemma_record_items_keys(rest, cat, items, 0, Seq::empty(), key);
}

/// A record takes at least its FSPEC byte.
pub proof fn lemma_record_progress(input: Seq<u8>, cat: Category)
    ensures
        spec_read_record(input, cat) matches Ok((_, rest)) ==> rest.len() < input.len(),
{
    lemma_fspec_len(input);
    if let Ok((items, rest)) = spec_present_items(input, cat) {
        lemma_record_items_progress(rest, cat, items, 0, Seq::empty());
    }
}

/// The records of a data block from the start of `input` to its end,
/// after those in `acc`.
pub open spec fn records_read(input: Seq<u8>, cat: Category, acc: Seq<ValueV>) -> Result<Seq<ValueV>, Fail>
    decreases input.len(),
{
    if input.len() == 0 {
        Ok(acc)
    } else {
        match spec_read_record(input, cat) {
            Err(e) => Err(e),
            Ok((o, rest)) => {
                proof {
                    lemma_record_progress(input, cat);
                }
                records_read(rest, cat, acc.push(ValueV::Object(o)))
            },
        }
    }
}

/// The value of a data block of category `c` with records `rs`: one record
/// with `CAT` added, or else `CAT` and the list of the records.
pub open spec fn block_value(rs: Seq<ValueV>, c: u8) -> ObjectV {
    let catv = ValueV::Number(Number::PosInt(c as u64), Seq::empty());
    if rs.len() == 1 && rs[0] is Object {
        obj_insert(rs[0]->Object_0, "CAT"@, catv)
    } else {
        seq![("CAT"@, catv), ("records"@, ValueV::Array(rs))]
    }
}

fn read_record(reader: &mut &[u8], spec: &Category) -> (r: Result<Object, Error>)
    requires
        !panics(spec_read_record(old(reader)@, *spec)),
    ensures
        match spec_read_record(old(reader)@, *spec) {
            Ok((v, rest)) => r matches Ok(x) && x@ == v && final(reader)@ == rest,
            Err(Fail::Error(e)) => r matches Err(x) && x@ == e,
            Err(Fail::Panic) => false,
        },
{
    let ghost input = reader@;
    let present_items = read_present_items(reader, spec)?;
    let mut rv = Object::new();
    let mut k: usize = 0;
    while k < present_items.len()
        invariant
            input == old(reader)@,
            spec_read_record(input, *spec) == record_items(reader@, *spec, present_items@, k as nat, rv@),
            !panics(record_items(reader@, *spec, present_items@, k as nat, rv@)),
            k <= present_items@.len(),
        decreases present_items.len() - k,
    {
        let item = &present_items[k];
        assert(*item == present_items@[k as int]);
        let data_item = &spec.data_items[item.index];
        assert(*data_item == spec.data_items@[item.index as int]);
        let value = read_field(reader, &data_item.format.format)?;
        rv.insert(item.key.clone(), value);
        k = k + 1;
    }
    Ok(rv)
}

/// What reading a data block from `input` gives, and what is left of the
/// input after it: a category byte, a 16-bit length that counts the three
/// header bytes, then records up to that length. One record is given with
/// the category as `CAT`; any other number as `CAT` and `records`.
pub open spec fn spec_read_asterix(input: Seq<u8>, cat: Category) -> (Result<ObjectV, Fail>, Seq<u8>) {
    if input.len() < 3 {
        (Err(Fail::Error(ErrorV::ReadingOob)), input.skip(input.len() as int))
    } else {
        let category = input[0];
        let length = input[1] as int * 256 + input[2] as int;
        if category != cat.id {
            (Err(Fail::Error(ErrorV::MismatchedCategory { category: cat.id, got: Some(category as u64) })), input.skip(3))
        } else if length < 3 || length > input.len() {
            (Err(Fail::Error(ErrorV::ReadingOob)), input.skip(3))
        } else {
            (match records_read(input.subrange(3, length), cat, Seq::empty()) {
                Err(e) => Err(e),
                Ok(rs) => Ok(block_value(rs, category)),
            }, input.skip(length))
        }
    }
}

/// The value of a data block of category `category` with records `records`.
fn block_object(records: Vec<Value>, category: u8) -> (r: Object)
    ensures
        r@ == block_value(values_view(records@), category),
{
    let mut records = records;
    let ghost rs = values_view(records@);
    let catv = crate::fields::plain_number(Number::PosInt(category as u64));
    proof {
        crate::value::lemma_values_view_len(records@);
    }
    if records.len() == 1 {
        proof {
            crate::value::lemma_values_view_index(records@, 0);
        }
        let ghost kept = records@;
        match records.pop() {
            Some(Value::Object(mut rec)) => {
                rec.insert(String::from_str("CAT"), catv);
                return rec;
            },
            Some(other) => {
                records.push(other);
                assert(records@ =~= kept);
            },
            None => {},
        }
    }
    proof {
        reveal_strlit("CAT");
        reveal_strlit("records");
        assert("CAT"@.len() == 3 && "records"@.len() == 7);
    }
    let ghost cv = catv@;
    let mut rv = Object::new();
    rv.insert(String::from_str("CAT"), catv);
    proof {
        crate::value::lemma_obj_find_none(Seq::<(Seq<char>, ValueV)>::empty(), "CAT"@);
        assert(rv@ =~= seq![("CAT"@, cv)]);
        crate::value::lemma_obj_find_none(rv@, "records"@);
    }
    let ghost before = rv@;
    let ghost rs2 = values_view(records@);
    assert(rs2 == rs);
    rv.insert(String::from_str("records"), Value::Array(records));
    proof {
        assert(rv@ =~= before.push(("records"@, ValueV::Array(rs))));
        assert(rv@ =~= seq![("CAT"@, cv), ("records"@, ValueV::Array(rs))]);
    }
    rv
}

/// Reads one data block of category `spec` from the start of `reader`, and
/// leaves the reader after it.
pub fn read_asterix(reader: &mut &[u8], spec: &Category) -> (r: Result<Object, Error>)
    requires
        !panics(spec_read_asterix(old(reader)@, *spec).0),
    ensures
        final(reader)@ == spec_read_asterix(old(reader)@, *spec).1,
        match spec_read_asterix(old(reader)@, *spec).0 {
            Ok(v) => r matches Ok(x) && x@ == v,
            Err(Fail::Error(e)) => r matches Err(x) && x@ == e,
            Err(Fail::Panic) => false,
        },
{
    let orig: &[u8] = *reader;
    proof {
        assert(orig@.skip(orig@.len() as int) =~= Seq::<u8>::empty());
        if orig@.len() == 0 {
            assert(orig@ =~= Seq::<u8>::empty());
        }
        if orig@.len() >= 1 {
            assert(orig@.skip(1).skip(orig@.skip(1).len() as int) =~= Seq::<u8>::empty());
        }
        if orig@.len() >= 2 {
            assert(orig@.skip(1).skip(1).skip(orig@.skip(1).skip(1).len() as int) =~= Seq::<u8>::empty());
        }
        if orig@.len() == 1 {
            assert(orig@.skip(1) =~= Seq::<u8>::empty());
        }
        if orig@.len() == 2 {
            assert(orig@.skip(1).skip(1) =~= Seq::<u8>::empty());
        }
    }
    let category = plonk(reader)?;
    let length = plonk_u16(reader)?;
    assert(orig@.skip(1).skip(2) =~= orig@.skip(3));
    if category != spec.id {
        return Err(Error::MismatchedCategory { category: spec.id, got: Some(category as u64) });
    }
    let length = length as usize;
    if length < 3 || length > orig.len() {
        return Err(Error::ReadingOob);
    }
    let mut local_reader = vstd::slice::slice_subrange(orig, 3, length);
    *reader = vstd::slice::slice_subrange(orig, length, orig.len());
    assert(reader@ =~= orig@.skip(length as int));
    let ghost body = local_reader@;
    let ghost whole = spec_read_asterix(orig@, *spec);
    assert(whole == (match records_read(body, *spec, Seq::empty()) {
        Err(e) => Err(e),
        Ok(rs) => Ok(block_value(rs, category)),
    }, orig@.skip(length as int)));
    let mut records: Vec<Value> = Vec::new();
    assert(values_view(records@) =~= Seq::<ValueV>::empty());
    while local_reader.len() > 0
        invariant
            whole == spec_read_asterix(old(reader)@, *spec),
            reader@ == whole.1,
            whole.0 == (match records_read(body, *spec, Seq::empty()) {
                Err(e) => Err(e),
                Ok(rs) => Ok(block_value(rs, category)),
            }),
            records_read(body, *spec, Seq::empty()) == records_read(local_reader@, *spec, values_view(records@)),
            !panics(records_read(local_reader@, *spec, values_view(records@))),
        decreases local_reader@.len(),
    {
        let ghost before = local_reader@;
        let ghost acc = values_view(records@);
        let rec = read_record(&mut local_reader, spec)?;
        proof {
            lemma_record_progress(before, *spec);
            lemma_values_view_push(records@, Value::Object(rec));
        }
        records.push(Value::Object(rec));
    }
    Ok(block_object(records, category))
}

} // verus!
