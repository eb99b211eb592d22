//! What reading gives back of a Compound item written from an object.
use vstd::prelude::*;
use crate::fields::is_spare_name;
use crate::read_asterix::{compound_bits, compound_heads, compound_items, spec_fspec_len, spec_read_field, PresentItem};
use crate::roundtrip::{extends_by, lemma_extends_split, lemma_simple_roundtrip, plain_simple, simple_back};
use crate::spec_xml::{Bits, Compound, Format};
use crate::value::{lemma_obj_find, obj_find, obj_insert, ObjectV, ValueV};
use crate::write_asterix::{compound_present, compound_present_bits, compound_write, frn_among, fspec_has, item_frns,
    lemma_fspec_roundtrip, spec_write_field, spec_write_fspec, WriteItem};

verus! {

/// The fields of the `b`-th part of the presence field of a Compound.
pub open spec fn head_bits(heads: Seq<Format>, b: int) -> Seq<Bits> {
    heads[b]->Fixed_0.bits@
}

/// A field of the presence field that stands for a subitem: neither the FX
/// bit nor spare.
pub open spec fn subitem_field(x: Bits) -> bool {
    x.fx != Some(1u64) && !is_spare_name(x.short_name@)
}

/// The item written for the subitem of field `j` of presence byte `b`,
/// whose value `o` holds.
pub open spec fn item_from(heads: Seq<Format>, o: ObjectV, b: int, j: int, it: WriteItem) -> bool {
    let x = head_bits(heads, b)[j];
    &&& subitem_field(x)
    &&& x.bit is Some
    &&& x.presence == Some(it.1)
    &&& obj_find(o, x.short_name@) == Some(it.2 as int)
    &&& it.0 as int == b * 7 + 8 - x.bit->Some_0
}

/// Whether the subitem of field `j` of presence byte `b` is written: `o`
/// holds a value for it.
pub open spec fn sub_found(heads: Seq<Format>, o: ObjectV, b: int, j: int) -> bool {
    subitem_field(head_bits(heads, b)[j]) && obj_find(o, head_bits(heads, b)[j].short_name@) is Some
}

/// Whether the FSPEC `fs` announces the subitem at bit `bt` of byte `b`, as
/// reading tests it.
pub open spec fn reader_has(fs: Seq<u8>, b: nat, bt: u32) -> bool {
    !(b >= fs.len() || fs[b as int] & (1u8 << ((bt - 1) as u32)) == 0)
}

/// A presence field whose parts are Fixed items whose subitem fields each
/// have a bit from 2 to 8, distinct within their byte, and the index of a
/// subitem among `formats`, whose value in `o`, if any, fits it as an item
/// of plain fields.
pub open spec fn heads_fit(heads: Seq<Format>, formats: Seq<Format>, o: ObjectV) -> bool {
    &&& 7 * heads.len() + 7 <= usize::MAX
    &&& forall|b: int| 0 <= b < heads.len() ==> (#[trigger] heads[b]) is Fixed
    &&& forall|b: int, j: int| 0 <= b < heads.len() && 0 <= j < head_bits(heads, b).len()
        && subitem_field(#[trigger] head_bits(heads, b)[j]) ==> {
        let x = head_bits(heads, b)[j];
        &&& x.bit is Some
        &&& 2 <= x.bit->Some_0 <= 8
        &&& x.presence is Some
        &&& x.presence->Some_0 < formats.len()
        &&& (obj_find(o, x.short_name@) matches Some(e) ==> plain_simple(formats[x.presence->Some_0 as int], o[e].1))
    }
    &&& forall|b: int, j1: int, j2: int| 0 <= b < heads.len() && 0 <= j1 < head_bits(heads, b).len()
        && 0 <= j2 < head_bits(heads, b).len() && j1 != j2
        && subitem_field(#[trigger] head_bits(heads, b)[j1]) && subitem_field(#[trigger] head_bits(heads, b)[j2])
        ==> head_bits(heads, b)[j1].bit != head_bits(heads, b)[j2].bit
}

/// A Compound written from `v`: an object, with a presence field that fits
/// it.
pub open spec fn plain_compound(c: Compound, v: ValueV) -> bool {
    &&& c.formats@.len() >= 1
    &&& c.formats@[0] is Variable
    &&& v is Object
    &&& v->Object_0.len() <= usize::MAX
    &&& heads_fit(c.formats@[0]->Variable_0.formats@, c.formats@, v->Object_0)
}

/// The items of a Compound written, with the presence fields read for them.
pub open spec fn corresponds(w: Seq<WriteItem>, r: Seq<PresentItem>, o: ObjectV) -> bool {
    &&& w.len() == r.len()
    &&& forall|m: int| 0 <= m < w.len() ==> {
        &&& (#[trigger] r[m]).frn == w[m].0
        &&& r[m].index == w[m].1
        &&& w[m].2 < o.len()
        &&& r[m].key@ == o[w[m].2 as int].0
    }
}

/// The object read back from the subitems written from the `k`-th on.
pub open spec fn items_back(formats: Seq<Format>, o: ObjectV, w: Seq<WriteItem>, k: nat, acc: ObjectV) -> ObjectV
    decreases w.len() - k,
{
    if k >= w.len() {
        acc
    } else {
        let it = w[k as int];
        items_back(formats, o, w, k + 1, obj_insert(acc, o[it.2 as int].0, simple_back(formats[it.1 as int], o[it.2 as int].1)))
    }
}

/// What reading gives back of a Compound written from `v`: each subitem
/// that `v` holds, in the order of the presence field, read back.
pub open spec fn compound_back(c: Compound, v: ValueV) -> ObjectV {
    let heads = c.formats@[0]->Variable_0.formats@;
    let items = compound_present(heads, v->Object_0, 0, Seq::empty())->Ok_0;
    items_back(c.formats@, v->Object_0, items, 0, Seq::empty())
}

/// Whether `it` is written for a field of presence byte `b` from the
/// `j`-th on.
pub open spec fn from_byte(heads: Seq<Format>, o: ObjectV, b: int, j: int, it: WriteItem) -> bool {
    exists|j2: int| j <= j2 < head_bits(heads, b).len() && #[trigger] item_from(heads, o, b, j2, it)
}

/// Whether `it` is written for a field of a presence byte from the `b`-th
/// on.
pub open spec fn from_heads(heads: Seq<Format>, o: ObjectV, b: int, it: WriteItem) -> bool {
    exists|b2: int, j2: int| b <= b2 < heads.len() && 0 <= j2 < head_bits(heads, b2).len() && #[trigger] item_from(heads, o, b2, j2, it)
}

/// Every item of `res` past `acc` comes from a field of presence byte `b`
/// from the `j`-th on whose subitem is written.
pub open spec fn byte_items_sound(heads: Seq<Format>, o: ObjectV, b: int, j: int, acc: Seq<WriteItem>, res: Seq<WriteItem>) -> bool {
    forall|m: int| acc.len() <= m < res.len() ==> #[trigger] from_byte(heads, o, b, j, res[m])
}

/// Every item of `res` past `acc` comes from a field of a presence byte
/// from the `b`-th on whose subitem is written.
pub open spec fn heads_items_sound(heads: Seq<Format>, o: ObjectV, b: int, acc: Seq<WriteItem>, res: Seq<WriteItem>) -> bool {
    forall|m: int| acc.len() <= m < res.len() ==> #[trigger] from_heads(heads, o, b, res[m])
}

/// The items written for the fields of one presence byte from the `j`-th
/// on extend those before, each from a field whose subitem is written, and
/// every such field gives one.
proof fn lemma_bits_items(heads: Seq<Format>, o: ObjectV, b: nat, j: nat, acc: Seq<WriteItem>)
    requires
        o.len() <= usize::MAX,
        b < heads.len(),
        heads[b as int] is Fixed,
        compound_present_bits(o, b, head_bits(heads, b as int), j, acc) is Ok,
    ensures
        ({
            let res = compound_present_bits(o, b, head_bits(heads, b as int), j, acc)->Ok_0;
            &&& res.len() >= acc.len()
            &&& forall|m: int| 0 <= m < acc.len() ==> res[m] == acc[m]
            &&& byte_items_sound(heads, o, b as int, j as int, acc, res)
            &&& forall|j2: int| j <= j2 < head_bits(heads, b as int).len() && #[trigger] sub_found(heads, o, b as int, j2)
                ==> exists|m: int| acc.len() <= m < res.len() && item_from(heads, o, b as int, j2, #[trigger] res[m])
        }),
    decreases head_bits(heads, b as int).len() - j,
{
    let bits = head_bits(heads, b as int);
    if j < bits.len() {
        let x = bits[j as int];
        if x.fx == Some(1u64) || is_spare_name(x.short_name@) {
            lemma_bits_items(heads, o, b, j + 1, acc);
            let res = compound_present_bits(o, b, bits, j, acc)->Ok_0;
            assert(res == compound_present_bits(o, b, bits, j + 1, acc)->Ok_0);
            assert forall|m: int| acc.len() <= m < res.len() implies #[trigger] from_byte(heads, o, b as int, j as int, res[m]) by {
                assert(from_byte(heads, o, b as int, (j + 1) as int, res[m]));
                let j2 = choose|j2: int| j + 1 <= j2 < bits.len() && #[trigger] item_from(heads, o, b as int, j2, res[m]);
            }
            assert forall|j2: int| j <= j2 < bits.len() && #[trigger] sub_found(heads, o, b as int, j2)
                implies exists|m: int| acc.len() <= m < res.len() && item_from(heads, o, b as int, j2, #[trigger] res[m]) by {
                assert(j2 != j);
            }
        } else {
            lemma_obj_find(o, x.short_name@);
            match obj_find(o, x.short_name@) {
                None => {
                    lemma_bits_items(heads, o, b, j + 1, acc);
                    let res = compound_present_bits(o, b, bits, j, acc)->Ok_0;
                    assert(res == compound_present_bits(o, b, bits, j + 1, acc)->Ok_0);
                    assert forall|m: int| acc.len() <= m < res.len() implies #[trigger] from_byte(heads, o, b as int, j as int, res[m]) by {
                        assert(from_byte(heads, o, b as int, (j + 1) as int, res[m]));
                        let j2 = choose|j2: int| j + 1 <= j2 < bits.len() && #[trigger] item_from(heads, o, b as int, j2, res[m]);
                    }
                    assert forall|j2: int| j <= j2 < bits.len() && #[trigger] sub_found(heads, o, b as int, j2)
                        implies exists|m: int| acc.len() <= m < res.len() && item_from(heads, o, b as int, j2, #[trigger] res[m]) by {
                        assert(j2 != j);
                    }
                },
                Some(e) => {
                    let bt = x.bit->Some_0;
                    let index = x.presence->Some_0;
                    let it: WriteItem = ((b * 7 + (8 - bt)) as usize, index, e as usize);
                    let acc2 = acc.push(it);
                    lemma_bits_items(heads, o, b, j + 1, acc2);
                    let res = compound_present_bits(o, b, bits, j, acc)->Ok_0;
                    assert(res == compound_present_bits(o, b, bits, j + 1, acc2)->Ok_0);
                    assert(item_from(heads, o, b as int, j as int, it));
                    assert(res[acc.len() as int] == acc2[acc.len() as int]);
                    assert forall|m: int| acc.len() <= m < res.len() implies #[trigger] from_byte(heads, o, b as int, j as int, res[m]) by {
                        if m == acc.len() {
                            assert(item_from(heads, o, b as int, j as int, res[m]));
                        } else {
                            assert(from_byte(heads, o, b as int, (j + 1) as int, res[m]));
                            let j2 = choose|j2: int| j + 1 <= j2 < bits.len() && #[trigger] item_from(heads, o, b as int, j2, res[m]);
                        }
                    }
                    assert forall|j2: int| j <= j2 < bits.len() && #[trigger] sub_found(heads, o, b as int, j2)
                        implies exists|m: int| acc.len() <= m < res.len() && item_from(heads, o, b as int, j2, #[trigger] res[m]) by {
                        if j2 == j {
                            assert(item_from(heads, o, b as int, j2, res[acc.len() as int]));
                        } else {
                            let m = choose|m: int| acc2.len() <= m < res.len() && item_from(heads, o, b as int, j2, #[trigger] res[m]);
                        }
                    }
                },
            }
        }
    }
    else {
        assert(compound_present_bits(o, b, bits, j, acc) == Ok::<Seq<WriteItem>, crate::error::Fail>(acc));
    }
}

/// The items written for the presence bytes from the `b`-th on extend those
/// before, each from a field whose subitem is written, and every such field
/// gives one.
proof fn lemma_heads_items(heads: Seq<Format>, o: ObjectV, b: nat, acc: Seq<WriteItem>)
    requires
        o.len() <= usize::MAX,
        forall|b2: int| 0 <= b2 < heads.len() ==> (#[trigger] heads[b2]) is Fixed,
        compound_present(heads, o, b, acc) is Ok,
    ensures
        ({
            let res = compound_present(heads, o, b, acc)->Ok_0;
            &&& res.len() >= acc.len()
            &&& forall|m: int| 0 <= m < acc.len() ==> res[m] == acc[m]
            &&& heads_items_sound(heads, o, b as int, acc, res)
            &&& forall|b2: int, j2: int| b <= b2 < heads.len() && 0 <= j2 < head_bits(heads, b2).len()
                && #[trigger] sub_found(heads, o, b2, j2)
                ==> exists|m: int| acc.len() <= m < res.len() && item_from(heads, o, b2, j2, #[trigger] res[m])
        }),
    decreases heads.len() - b,
{
    if b < heads.len() {
        assert(heads[b as int] is Fixed);
        let fixed = heads[b as int]->Fixed_0;
        let acc2 = compound_present_bits(o, b, fixed.bits@, 0, acc)->Ok_0;
        lemma_bits_items(heads, o, b, 0, acc);
        lemma_heads_items(heads, o, b + 1, acc2);
        let res = compound_present(heads, o, b, acc)->Ok_0;
        assert(res == compound_present(heads, o, b + 1, acc2)->Ok_0);
        assert forall|m: int| acc.len() <= m < res.len() implies #[trigger] from_heads(heads, o, b as int, res[m]) by {
            if m < acc2.len() {
                assert(res[m] == acc2[m]);
                assert(from_byte(heads, o, b as int, 0, acc2[m]));
                let j2 = choose|j2: int| 0 <= j2 < head_bits(heads, b as int).len() && #[trigger] item_from(heads, o, b as int, j2, acc2[m]);
                assert(item_from(heads, o, b as int, j2, res[m]));
            } else {
                assert(from_heads(heads, o, (b + 1) as int, res[m]));
                let (b2, j2) = choose|b2: int, j2: int|
                    b + 1 <= b2 < heads.len() && 0 <= j2 < head_bits(heads, b2).len() && #[trigger] item_from(heads, o, b2, j2, res[m]);
            }
        }
        assert forall|b2: int, j2: int| b <= b2 < heads.len() && 0 <= j2 < head_bits(heads, b2).len()
            && #[trigger] sub_found(heads, o, b2, j2)
            implies exists|m: int| acc.len() <= m < res.len() && item_from(heads, o, b2, j2, #[trigger] res[m]) by {
            if b2 == b {
                let m = choose|m: int| acc.len() <= m < acc2.len() && item_from(heads, o, b2, j2, #[trigger] acc2[m]);
                assert(res[m] == acc2[m]);
                assert(item_from(heads, o, b2, j2, res[m]));
            } else {
                let m = choose|m: int| acc2.len() <= m < res.len() && item_from(heads, o, b2, j2, #[trigger] res[m]);
            }
        }
    }
    else {
        assert(compound_present(heads, o, b, acc) == Ok::<Seq<WriteItem>, crate::error::Fail>(acc));
    }
}

/// The presence fields read from the FSPEC of one byte, from the `j`-th on,
/// are those written, where the FSPEC announces exactly the subitems
/// written.
proof fn lemma_bits_match(fs: Seq<u8>, heads: Seq<Format>, formats: Seq<Format>, o: ObjectV, b: nat, j: nat,
    wacc: Seq<WriteItem>, racc: Seq<PresentItem>)
    requires
        b < heads.len(),
        o.len() <= usize::MAX,
        heads_fit(heads, formats, o),
        compound_present_bits(o, b, head_bits(heads, b as int), j, wacc) is Ok,
        corresponds(wacc, racc, o),
        forall|j2: int| j <= j2 < head_bits(heads, b as int).len() && subitem_field(#[trigger] head_bits(heads, b as int)[j2])
            ==> (reader_has(fs, b, head_bits(heads, b as int)[j2].bit->Some_0)
                <==> obj_find(o, head_bits(heads, b as int)[j2].short_name@) is Some),
    ensures
        compound_bits(fs, b, head_bits(heads, b as int), j, racc) is Ok,
        corresponds(compound_present_bits(o, b, head_bits(heads, b as int), j, wacc)->Ok_0,
            compound_bits(fs, b, head_bits(heads, b as int), j, racc)->Ok_0, o),
    decreases head_bits(heads, b as int).len() - j,
{
    let bits = head_bits(heads, b as int);
    if j < bits.len() {
        let x = bits[j as int];
        if x.fx == Some(1u64) || is_spare_name(x.short_name@) {
            lemma_bits_match(fs, heads, formats, o, b, j + 1, wacc, racc);
        } else {
            assert(subitem_field(head_bits(heads, b as int)[j as int]));
            let bt = x.bit->Some_0;
            lemma_obj_find(o, x.short_name@);
            if obj_find(o, x.short_name@) is Some {
                let e = obj_find(o, x.short_name@)->Some_0;
                let index = x.presence->Some_0;
                let frn = (b * 7 + (8 - bt)) as usize;
                let w2 = wacc.push((frn, index, e as usize));
                let r2 = racc.push(PresentItem { frn, key: x.short_name, index });
                assert(corresponds(w2, r2, o)) by {
                    assert forall|m: int| 0 <= m < w2.len() implies {
                        &&& (#[trigger] r2[m]).frn == w2[m].0
                        &&& r2[m].index == w2[m].1
                        &&& w2[m].2 < o.len()
                        &&& r2[m].key@ == o[w2[m].2 as int].0
                    } by {
                        if m < wacc.len() {
                            assert(r2[m] == racc[m] && w2[m] == wacc[m]);
                        }
                    }
                }
                lemma_bits_match(fs, heads, formats, o, b, j + 1, w2, r2);
            } else {
                lemma_bits_match(fs, heads, formats, o, b, j + 1, wacc, racc);
            }
        }
    }
}

/// The presence fields read from the FSPEC for the bytes from the `b`-th
/// on are those written, where the FSPEC announces exactly the subitems
/// written.
proof fn lemma_heads_match(fs: Seq<u8>, heads: Seq<Format>, formats: Seq<Format>, o: ObjectV, b: nat,
    wacc: Seq<WriteItem>, racc: Seq<PresentItem>)
    requires
        o.len() <= usize::MAX,
        heads_fit(heads, formats, o),
        compound_present(heads, o, b, wacc) is Ok,
        corresponds(wacc, racc, o),
        forall|b2: int, j2: int| b <= b2 < heads.len() && 0 <= j2 < head_bits(heads, b2).len()
            && subitem_field(#[trigger] head_bits(heads, b2)[j2])
            ==> (reader_has(fs, b2 as nat, head_bits(heads, b2)[j2].bit->Some_0)
                <==> obj_find(o, head_bits(heads, b2)[j2].short_name@) is Some),
    ensures
        compound_heads(fs, heads, b, racc) is Ok,
        corresponds(compound_present(heads, o, b, wacc)->Ok_0, compound_heads(fs, heads, b, racc)->Ok_0, o),
    decreases heads.len() - b,
{
    if b < heads.len() {
        assert(heads[b as int] is Fixed);
        let fixed = heads[b as int]->Fixed_0;
        assert(forall|j2: int| 0 <= j2 < head_bits(heads, b as int).len() && subitem_field(#[trigger] head_bits(heads, b as int)[j2])
            ==> (reader_has(fs, b, head_bits(heads, b as int)[j2].bit->Some_0)
                <==> obj_find(o, head_bits(heads, b as int)[j2].short_name@) is Some));
        lemma_bits_match(fs, heads, formats, o, b, 0, wacc, racc);
        let w2 = compound_present_bits(o, b, fixed.bits@, 0, wacc)->Ok_0;
        let r2 = compound_bits(fs, b, fixed.bits@, 0, racc)->Ok_0;
        lemma_heads_match(fs, heads, formats, o, b + 1, w2, r2);
    }
}

/// Reading the subitems written, in step with their writing.
#[verifier::spinoff_prover]
proof fn lemma_items_read(formats: Seq<Format>, o: ObjectV, w: Seq<WriteItem>, p: Seq<PresentItem>, k: nat,
    wacc: Seq<u8>, racc: ObjectV, rest: Seq<u8>)
    requires
        compound_write(formats, o, w, k, wacc) is Ok,
        corresponds(w, p, o),
        k <= w.len(),
        forall|m: int| 0 <= m < w.len() ==> plain_simple(formats[(#[trigger] w[m]).1 as int], o[w[m].2 as int].1),
    ensures
        ({
            let out = compound_write(formats, o, w, k, wacc)->Ok_0;
            &&& extends_by(out, wacc)
            &&& compound_items(out.skip(wacc.len() as int) + rest, formats, p, k, racc)
                == Ok::<(ValueV, Seq<u8>), crate::error::Fail>((ValueV::Object(items_back(formats, o, w, k, racc)), rest))
        }),
    decreases w.len() - k,
{
    let out = compound_write(formats, o, w, k, wacc)->Ok_0;
    if k >= w.len() {
        assert(out == wacc);
        assert(wacc.take(wacc.len() as int) =~= wacc);
        assert(out.skip(wacc.len() as int) + rest =~= rest);
    } else {
        let it = w[k as int];
        assert(p[k as int].frn == it.0);
        let f = formats[it.1 as int];
        let v = o[it.2 as int].1;
        let b = spec_write_field(f, v)->Ok_0;
        assert(plain_simple(formats[w[k as int].1 as int], o[w[k as int].2 as int].1));
        assert(p[k as int].index == it.1 && p[k as int].key@ == o[it.2 as int].0 && it.1 < formats.len());
        assert(compound_write(formats, o, w, k, wacc) == compound_write(formats, o, w, k + 1, wacc + b));
        let racc2 = obj_insert(racc, o[it.2 as int].0, simple_back(f, v));
        lemma_items_read(formats, o, w, p, k + 1, wacc + b, racc2, rest);
        let out2 = compound_write(formats, o, w, k + 1, wacc + b)->Ok_0;
        assert(out == out2);
        lemma_extends_split(out, wacc, b, rest);
        lemma_simple_roundtrip(f, v, out.skip((wacc + b).len() as int) + rest);
    }
}

/// A Compound of subitems of plain fields, written from an object whose
/// values fit them, is read back, whatever follows it, as the object of the
/// subitems it holds, each read back.
#[verifier::spinoff_prover]
#[verifier::rlimit(40)]
pub proof fn lemma_compound_roundtrip(c: Compound, v: ValueV, rest: Seq<u8>)
    requires
        plain_compound(c, v),
        spec_write_field(Format::Compound(c), v) is Ok,
    ensures
        spec_read_field(spec_write_field(Format::Compound(c), v)->Ok_0 + rest, Format::Compound(c))
            == Ok::<(ValueV, Seq<u8>), crate::error::Fail>((ValueV::Object(compound_back(c, v)), rest)),
{
    let formats = c.formats@;
    let heads = formats[0]->Variable_0.formats@;
    let o = v->Object_0;
    let items = compound_present(heads, o, 0, Seq::empty())->Ok_0;
    let fs = spec_write_fspec(item_frns(items))->Ok_0;
    let w = compound_write(formats, o, items, 0, fs)->Ok_0;
    assert(spec_write_field(Format::Compound(c), v)->Ok_0 == w);
    lemma_heads_items(heads, o, 0, Seq::empty());
    // every item comes from a subitem whose value fits it
    assert forall|m: int| 0 <= m < items.len() implies plain_simple(formats[(#[trigger] items[m]).1 as int], o[items[m].2 as int].1) by {
        assert(from_heads(heads, o, 0, items[m]));
        let (b2, j2) = choose|b2: int, j2: int|
            0 <= b2 < heads.len() && 0 <= j2 < head_bits(heads, b2).len() && #[trigger] item_from(heads, o, b2, j2, items[m]);
        let x = head_bits(heads, b2)[j2];
        assert(subitem_field(head_bits(heads, b2)[j2]));
    }
    // the FSPEC announces exactly the subitems written
    let body = w.skip(fs.len() as int);
    assert(extends_by(w, fs)) by {
        lemma_write_extends(formats, o, items, 0, fs);
    }
    assert(w =~= fs + body);
    lemma_fspec_roundtrip(item_frns(items), body + rest);
    assert forall|b2: int, j2: int| 0 <= b2 < heads.len() && 0 <= j2 < head_bits(heads, b2).len()
        && subitem_field(#[trigger] head_bits(heads, b2)[j2])
        implies (reader_has(fs, b2 as nat, head_bits(heads, b2)[j2].bit->Some_0)
            <==> obj_find(o, head_bits(heads, b2)[j2].short_name@) is Some) by {
        lemma_sub_announced(fs, heads, formats, o, items, b2, j2);
    }
    lemma_heads_match(fs, heads, formats, o, 0, Seq::empty(), Seq::empty());
    let p = compound_heads(fs, heads, 0, Seq::empty())->Ok_0;
    lemma_items_read(formats, o, items, p, 0, fs, Seq::empty(), rest);
    let input = w + rest;
    assert(input =~= fs + (body + rest));
    assert(spec_fspec_len(input) == Some(fs.len()));
    assert(input.take(fs.len() as int) =~= fs);
    assert(input.skip(fs.len() as int) =~= body + rest);
}

/// Writing the subitems extends what was written before.
proof fn lemma_write_extends(formats: Seq<Format>, o: ObjectV, w: Seq<WriteItem>, k: nat, acc: Seq<u8>)
    requires
        compound_write(formats, o, w, k, acc) is Ok,
    ensures
        extends_by(compound_write(formats, o, w, k, acc)->Ok_0, acc),
    decreases w.len() - k,
{
    if k < w.len() {
        let it = w[k as int];
        let b = spec_write_field(formats[it.1 as int], o[it.2 as int].1)->Ok_0;
        assert(compound_write(formats, o, w, k, acc) == compound_write(formats, o, w, k + 1, acc + b));
        lemma_write_extends(formats, o, w, k + 1, acc + b);
        let out = compound_write(formats, o, w, k, acc)->Ok_0;
        assert(out.take(acc.len() as int) =~= out.take((acc + b).len() as int).take(acc.len() as int));
        assert((acc + b).take(acc.len() as int) =~= acc);
    } else {
        assert(acc.take(acc.len() as int) =~= acc);
    }
}

/// The FSPEC written for the subitems announces, at the bit of a subitem
/// field, exactly whether that subitem is written.
proof fn lemma_sub_announced(fs: Seq<u8>, heads: Seq<Format>, formats: Seq<Format>, o: ObjectV, items: Seq<WriteItem>,
    b2: int, j2: int)
    requires
        o.len() <= usize::MAX,
        heads_fit(heads, formats, o),
        0 <= b2 < heads.len(),
        0 <= j2 < head_bits(heads, b2).len(),
        subitem_field(head_bits(heads, b2)[j2]),
        compound_present(heads, o, 0, Seq::empty()) == Ok::<Seq<WriteItem>, crate::error::Fail>(items),
        spec_write_fspec(item_frns(items)) == Ok::<Seq<u8>, crate::error::Fail>(fs),
    ensures
        reader_has(fs, b2 as nat, head_bits(heads, b2)[j2].bit->Some_0)
            <==> obj_find(o, head_bits(heads, b2)[j2].short_name@) is Some,
{
    lemma_heads_items(heads, o, 0, Seq::empty());
    lemma_fspec_roundtrip(item_frns(items), Seq::empty());
    assert(item_frns(items).len() == items.len());
    let x = head_bits(heads, b2)[j2];
    assert(subitem_field(head_bits(heads, b2)[j2]));
    let bt = x.bit->Some_0;
    assert(2 <= bt <= 8);
    let f: nat = (b2 * 7 + 8 - bt) as nat;
    assert(f / 7 == b2 && f % 7 == 8 - bt);
    let k: u32 = (bt - 1) as u32;
    assert((1u8 << ((7 - f % 7) as u8)) == (1u8 << k)) by {
        assert((7 - f % 7) as u8 == k as u8);
        assert((1u8 << (k as u8)) == (1u8 << k)) by (bit_vector)
            requires
                k < 8;
    }
    assert(reader_has(fs, b2 as nat, bt) == fspec_has(fs, f));
    if obj_find(o, x.short_name@) is Some {
        assert(sub_found(heads, o, b2, j2));
        let m = choose|m: int| 0 <= m < items.len() && item_from(heads, o, b2, j2, #[trigger] items[m]);
        assert(item_frns(items)[m] == items[m].0);
        assert(frn_among(item_frns(items), item_frns(items).len(), f));
    }
    if fspec_has(fs, f) {
        let m = choose|m: int| 0 <= m < item_frns(items).len() && m < item_frns(items).len() && item_frns(items)[m] == f;
        assert(item_frns(items)[m] == items[m].0);
        assert(from_heads(heads, o, 0, items[m]));
        let (b3, j3) = choose|b3: int, j3: int|
            0 <= b3 < heads.len() && 0 <= j3 < head_bits(heads, b3).len() && #[trigger] item_from(heads, o, b3, j3, items[m]);
        let y = head_bits(heads, b3)[j3];
        assert(subitem_field(head_bits(heads, b3)[j3]));
        assert(2 <= y.bit->Some_0 <= 8);
        assert(b3 == b2);
        assert(y.bit == x.bit);
        if j3 != j2 {
            assert(head_bits(heads, b2)[j3].bit != head_bits(heads, b2)[j2].bit);
        }
    }
}

} // verus!
