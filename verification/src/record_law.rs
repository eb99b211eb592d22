//! What reading gives back of a record written from an object.
use vstd::prelude::*;
use vstd::utf8::encode_utf8;
use crate::read_asterix::{spec_read_asterix, find_data_item, frn_mask, present_loop, record_items, PresentItem};
use crate::roundtrip::{format_back, lemma_extends_split, lemma_format_roundtrip, plain_format};
use crate::spec_xml::{Category, Format, UAPItem};
use crate::strings::parse_usize_spec;
use crate::value::{Number, obj_find, obj_get, obj_insert, lemma_obj_find, lemma_obj_find_first, lemma_obj_get_insert, ObjectV, ValueV};
use crate::write_asterix::{lemma_fspec_roundtrip, spec_write_asterix, record_write, frn_among, item_frns, fspec_has, declared_category, find_uap_item, insert_pos, lemma_find_uap_item, record_entries, sort_items, WriteItem};

verus! {

/// Items in order of their FRNs.
pub open spec fn frn_sorted(s: Seq<WriteItem>) -> bool {
    forall|i: int, j: int| 0 <= i <= j < s.len() ==> (#[trigger] s[i]).0 <= (#[trigger] s[j]).0
}

proof fn lemma_insert_pos_props(t: Seq<WriteItem>, f: usize)
    ensures
        insert_pos(t, f) <= t.len(),
        forall|i: int| insert_pos(t, f) <= i < t.len() ==> (#[trigger] t[i]).0 > f,
        insert_pos(t, f) > 0 ==> t[insert_pos(t, f) - 1].0 <= f,
    decreases t.len(),
{
    if t.len() > 0 && t.last().0 > f {
        lemma_insert_pos_props(t.drop_last(), f);
        assert forall|i: int| insert_pos(t, f) <= i < t.len() implies (#[trigger] t[i]).0 > f by {
            if i < t.len() - 1 {
                assert(t[i] == t.drop_last()[i]);
            }
        }
        if insert_pos(t, f) > 0 {
            assert(t[insert_pos(t, f) - 1] == t.drop_last()[insert_pos(t, f) - 1]);
        }
    }
}

/// Sorting by insertion keeps the items and orders them by FRN.
#[verifier::spinoff_prover]
pub proof fn lemma_sort_items(s: Seq<WriteItem>)
    ensures
        sort_items(s).len() == s.len(),
        frn_sorted(sort_items(s)),
        forall|y: WriteItem| sort_items(s).contains(y) <==> s.contains(y),
        s.no_duplicates() ==> sort_items(s).no_duplicates(),
    decreases s.len(),
{
    if s.len() > 0 {
        let t = sort_items(s.drop_last());
        let x = s.last();
        lemma_sort_items(s.drop_last());
        lemma_insert_pos_props(t, x.0);
        let p = insert_pos(t, x.0) as int;
        let r = t.insert(p, x);
        t.insert_ensures(p, x);
        assert forall|i: int, j: int| 0 <= i <= j < r.len() implies (#[trigger] r[i]).0 <= (#[trigger] r[j]).0 by {
            if i < p && j < p {
                assert(r[i] == t[i] && r[j] == t[j]);
            } else if i < p && j == p {
                assert(r[i] == t[i]);
                assert(t[i].0 <= t[p - 1].0);
            } else if i < p && j > p {
                assert(r[i] == t[i] && r[j] == t[j - 1]);
            } else if i == p && j == p {
            } else if i == p && j > p {
                assert(r[j] == t[j - 1]);
            } else {
                assert(r[i] == t[i - 1] && r[j] == t[j - 1]);
            }
        }
        if s.no_duplicates() {
            assert(s.drop_last().no_duplicates()) by {
                assert forall|a: int, b: int| 0 <= a < s.drop_last().len() && 0 <= b < s.drop_last().len() && a != b
                    implies s.drop_last()[a] != s.drop_last()[b] by {
                    assert(s.drop_last()[a] == s[a] && s.drop_last()[b] == s[b]);
                }
            }
            assert(!t.contains(x)) by {
                if t.contains(x) {
                    assert(s.drop_last().contains(x));
                    let k = choose|k: int| 0 <= k < s.drop_last().len() && s.drop_last()[k] == x;
                    assert(s[k] == s[s.len() - 1]);
                }
            }
            assert forall|a: int, b: int| 0 <= a < r.len() && 0 <= b < r.len() && a != b implies r[a] != r[b] by {
                if a == p {
                    let bb = if b < p { b } else { b - 1 };
                    assert(r[b] == t[bb]);
                } else if b == p {
                    let aa = if a < p { a } else { a - 1 };
                    assert(r[a] == t[aa]);
                } else {
                    let aa = if a < p { a } else { a - 1 };
                    let bb = if b < p { b } else { b - 1 };
                    assert(r[a] == t[aa] && r[b] == t[bb]);
                }
            }
        }
        assert forall|y: WriteItem| r.contains(y) <==> s.contains(y) by {
            if r.contains(y) {
                let i = choose|i: int| 0 <= i < r.len() && r[i] == y;
                if i < p {
                    assert(t.contains(y) && r[i] == t[i]);
                    assert(s.drop_last().contains(y));
                    let k = choose|k: int| 0 <= k < s.drop_last().len() && s.drop_last()[k] == y;
                    assert(s[k] == y);
                } else if i == p {
                    assert(s[s.len() - 1] == y);
                } else {
                    assert(r[i] == t[i - 1]);
                    assert(t.contains(y));
                    assert(s.drop_last().contains(y));
                    let k = choose|k: int| 0 <= k < s.drop_last().len() && s.drop_last()[k] == y;
                    assert(s[k] == y);
                }
            }
            if s.contains(y) {
                let k = choose|k: int| 0 <= k < s.len() && s[k] == y;
                if k == s.len() - 1 {
                    assert(r[p] == y);
                } else {
                    assert(s.drop_last()[k] == y);
                    assert(s.drop_last().contains(y));
                    assert(t.contains(y));
                    let i = choose|i: int| 0 <= i < t.len() && t[i] == y;
                    if i < p {
                        assert(r[i] == y);
                    } else {
                        assert(r[i + 1] == y);
                    }
                }
            }
        }
    }
}

/// Two sequences in strictly increasing order with the same elements are
/// the same.
pub proof fn lemma_increasing_unique(a: Seq<usize>, b: Seq<usize>)
    requires
        forall|i: int, j: int| 0 <= i < j < a.len() ==> a[i] < a[j],
        forall|i: int, j: int| 0 <= i < j < b.len() ==> b[i] < b[j],
        forall|x: usize| a.contains(x) <==> b.contains(x),
    ensures
        a == b,
    decreases a.len(),
{
    if a.len() == 0 {
        if b.len() > 0 {
            assert(b.contains(b[0]));
        }
        assert(a =~= b);
    } else {
        assert(a.contains(a[0]));
        assert(b.len() > 0);
        assert(b.contains(b[0]));
        let i = choose|i: int| 0 <= i < b.len() && b[i] == a[0];
        let j = choose|j: int| 0 <= j < a.len() && a[j] == b[0];
        if i > 0 {
            assert(b[0] < b[i]);
            if j > 0 {
                assert(a[0] < a[j]);
            }
        }
        if j > 0 {
            assert(a[0] < a[j]);
        }
        assert(a[0] == b[0]);
        let a1 = a.drop_first();
        let b1 = b.drop_first();
        assert forall|x: usize| a1.contains(x) <==> b1.contains(x) by {
            if a1.contains(x) {
                let k = choose|k: int| 0 <= k < a1.len() && a1[k] == x;
                assert(a[k + 1] == x);
                assert(a[0] < a[k + 1]);
                assert(b.contains(x));
                let m = choose|m: int| 0 <= m < b.len() && b[m] == x;
                assert(m != 0);
                assert(b1[m - 1] == x);
            }
            if b1.contains(x) {
                let k = choose|k: int| 0 <= k < b1.len() && b1[k] == x;
                assert(b[k + 1] == x);
                assert(b[0] < b[k + 1]);
                assert(a.contains(x));
                let m = choose|m: int| 0 <= m < a.len() && a[m] == x;
                assert(m != 0);
                assert(a1[m - 1] == x);
            }
        }
        lemma_increasing_unique(a1, b1);
        assert(a =~= seq![a[0]] + a1);
        assert(b =~= seq![b[0]] + b1);
    }
}

/// A UAP item that the FSPEC skips: the FX position or a spare one.
pub open spec fn skipped(u: UAPItem) -> bool {
    u.frn@ == "FX"@ || u.name@ == "-"@
}

/// A UAP item that names a data item, with an FRN that is a number from one.
pub open spec fn numbered(u: UAPItem) -> bool {
    &&& !skipped(u)
    &&& parse_usize_spec(encode_utf8(u.frn@)) is Some
    &&& parse_usize_spec(encode_utf8(u.frn@))->Some_0 >= 1
}

/// The FRN of a numbered UAP item, from zero.
pub open spec fn frn_of(u: UAPItem) -> nat {
    (parse_usize_spec(encode_utf8(u.frn@))->Some_0 - 1) as nat
}

/// A UAP whose items are skipped or numbered, numbered in increasing FRN
/// order, each named once.
pub open spec fn wf_uap(uap: Seq<UAPItem>) -> bool {
    &&& forall|i: int| 0 <= i < uap.len() ==> skipped(#[trigger] uap[i]) || numbered(uap[i])
    &&& forall|i: int, j: int| 0 <= i < j < uap.len() && numbered(#[trigger] uap[i]) && numbered(#[trigger] uap[j])
        ==> frn_of(uap[i]) < frn_of(uap[j])
    &&& forall|i: int, j: int| 0 <= i < uap.len() && 0 <= j < uap.len() && i != j && numbered(#[trigger] uap[i])
        ==> (#[trigger] uap[j]).name@ != uap[i].name@
}

/// The `u`-th UAP of a category.
pub open spec fn uap_at(cat: Category, u: nat) -> Seq<UAPItem> {
    cat.uaps@[u as int].items@
}

/// The format of the data item with id `k`, if the category has one.
pub open spec fn item_format(cat: Category, k: Seq<char>) -> Option<Format> {
    match find_data_item(cat.data_items@, k) {
        Some(ix) => Some(cat.data_items@[ix].format.format),
        None => None,
    }
}

/// An entry of a record that a numbered UAP item names, whose data item is
/// an item of plain fields that the value fits.
pub open spec fn entry_fits(cat: Category, u: nat, k: Seq<char>, v: ValueV) -> bool {
    &&& find_uap_item(uap_at(cat, u), k) is Some
    &&& numbered(uap_at(cat, u)[find_uap_item(uap_at(cat, u), k)->Some_0])
    &&& item_format(cat, k) is Some
    &&& plain_format(item_format(cat, k)->Some_0, v)
}

/// A record of distinct keys whose entries other than `CAT` fit.
pub open spec fn entries_fit(cat: Category, u: nat, o: ObjectV) -> bool {
    &&& forall|i: int, j: int| 0 <= i < j < o.len() ==> (#[trigger] o[i]).0 != (#[trigger] o[j]).0
    &&& forall|i: int| 0 <= i < o.len() && (#[trigger] o[i]).0 != "CAT"@ ==> entry_fits(cat, u, o[i].0, o[i].1)
}

/// A record of distinct keys that declares the category and holds no array
/// under `records` (which would make it a list of records), whose other
/// entries fit.
pub open spec fn record_fits(cat: Category, u: nat, o: ObjectV) -> bool {
    &&& declared_category(o) == Some(cat.id as u64)
    &&& !(obj_get(o, "records"@) matches Some(ValueV::Array(_)))
    &&& entries_fit(cat, u, o)
}

/// The item written for the `i`-th entry of a record.
pub open spec fn entry_item(cat: Category, u: nat, o: ObjectV, i: int) -> WriteItem {
    let k = o[i].0;
    let j = find_uap_item(uap_at(cat, u), k)->Some_0;
    ((frn_of(uap_at(cat, u)[j]) as usize), (find_data_item(cat.data_items@, k)->Some_0 as usize), i as usize)
}

/// The items written for the entries of a record from the `k`-th on.
pub open spec fn entries_from(cat: Category, u: nat, o: ObjectV, k: nat) -> Seq<WriteItem>
    decreases o.len() - k,
{
    if k >= o.len() {
        Seq::empty()
    } else if o[k as int].0 == "CAT"@ {
        entries_from(cat, u, o, k + 1)
    } else {
        seq![entry_item(cat, u, o, k as int)] + entries_from(cat, u, o, k + 1)
    }
}

proof fn lemma_record_entries(cat: Category, u: nat, o: ObjectV, k: nat, acc: Seq<WriteItem>)
    requires
        u < cat.uaps@.len(),
        entries_fit(cat, u, o),
        k <= o.len(),
        o.len() <= usize::MAX,
    ensures
        record_entries(cat, uap_at(cat, u), o, k, acc) == Ok::<Seq<WriteItem>, crate::error::Fail>(acc + entries_from(cat, u, o, k)),
    decreases o.len() - k,
{
    if k >= o.len() {
        assert(acc + Seq::<WriteItem>::empty() =~= acc);
    } else if o[k as int].0 == "CAT"@ {
        lemma_record_entries(cat, u, o, k + 1, acc);
    } else {
        let key = o[k as int].0;
        assert(entry_fits(cat, u, key, o[k as int].1));
        lemma_find_uap_item(uap_at(cat, u), key);
        crate::read_asterix::lemma_find_data_item(cat.data_items@, key);
        let x = entry_item(cat, u, o, k as int);
        lemma_record_entries(cat, u, o, k + 1, acc.push(x));
        assert(acc.push(x) + entries_from(cat, u, o, k + 1) =~= acc + (seq![x] + entries_from(cat, u, o, k + 1)));
    }
}

/// What the items written for the entries from the `k`-th on hold.
proof fn lemma_entries_from(cat: Category, u: nat, o: ObjectV, k: nat)
    requires
        o.len() <= usize::MAX,
    ensures
        forall|y: WriteItem| entries_from(cat, u, o, k).contains(y) <==>
            exists|i: int| k <= i < o.len() && o[i].0 != "CAT"@ && y == #[trigger] entry_item(cat, u, o, i),
        forall|m: int| 0 <= m < entries_from(cat, u, o, k).len() ==> (#[trigger] entries_from(cat, u, o, k)[m]).2 >= k,
        forall|m1: int, m2: int| 0 <= m1 < m2 < entries_from(cat, u, o, k).len()
            ==> (#[trigger] entries_from(cat, u, o, k)[m1]).2 < (#[trigger] entries_from(cat, u, o, k)[m2]).2,
    decreases o.len() - k,
{
    if k < o.len() {
        lemma_entries_from(cat, u, o, k + 1);
        let t = entries_from(cat, u, o, k + 1);
        let e = entries_from(cat, u, o, k);
        if o[k as int].0 == "CAT"@ {
            assert forall|y: WriteItem| e.contains(y) <==>
                exists|i: int| k <= i < o.len() && o[i].0 != "CAT"@ && y == #[trigger] entry_item(cat, u, o, i) by {
                if exists|i: int| k <= i < o.len() && o[i].0 != "CAT"@ && y == #[trigger] entry_item(cat, u, o, i) {
                    let i = choose|i: int| k <= i < o.len() && o[i].0 != "CAT"@ && y == #[trigger] entry_item(cat, u, o, i);
                    assert(i != k);
                }
            }
        } else {
            let x = entry_item(cat, u, o, k as int);
            assert(e == seq![x] + t);
            assert forall|y: WriteItem| e.contains(y) <==>
                exists|i: int| k <= i < o.len() && o[i].0 != "CAT"@ && y == #[trigger] entry_item(cat, u, o, i) by {
                if e.contains(y) {
                    let m = choose|m: int| 0 <= m < e.len() && e[m] == y;
                    if m == 0 {
                        assert(y == entry_item(cat, u, o, k as int));
                    } else {
                        assert(t[m - 1] == y);
                        assert(t.contains(y));
                    }
                }
                if exists|i: int| k <= i < o.len() && o[i].0 != "CAT"@ && y == #[trigger] entry_item(cat, u, o, i) {
                    let i = choose|i: int| k <= i < o.len() && o[i].0 != "CAT"@ && y == #[trigger] entry_item(cat, u, o, i);
                    if i == k {
                        assert(e[0] == y);
                    } else {
                        assert(t.contains(y));
                        let m = choose|m: int| 0 <= m < t.len() && t[m] == y;
                        assert(e[m + 1] == y);
                    }
                }
            }
            assert forall|m: int| 0 <= m < e.len() implies (#[trigger] e[m]).2 >= k by {
                if m > 0 {
                    assert(e[m] == t[m - 1]);
                }
            }
            assert forall|m1: int, m2: int| 0 <= m1 < m2 < e.len() implies (#[trigger] e[m1]).2 < (#[trigger] e[m2]).2 by {
                assert(e[m2] == t[m2 - 1]);
                if m1 > 0 {
                    assert(e[m1] == t[m1 - 1]);
                }
            }
        }
    }
}

/// Whether `g` is the FRN of a numbered UAP item from the `i`-th on.
pub open spec fn uap_frn_from(uap: Seq<UAPItem>, i: nat, g: nat) -> bool {
    exists|j: int| i <= j < uap.len() && numbered(#[trigger] uap[j]) && frn_of(uap[j]) == g
}

/// The items that an FSPEC announces, in UAP order, from the `i`-th UAP
/// item on.
pub open spec fn present_from(cat: Category, uap: Seq<UAPItem>, fs: Seq<u8>, i: nat) -> Seq<PresentItem>
    decreases uap.len() - i,
{
    if i >= uap.len() {
        Seq::empty()
    } else {
        let u = uap[i as int];
        let rest = present_from(cat, uap, fs, i + 1);
        if numbered(u) && fspec_has(fs, frn_of(u)) {
            seq![PresentItem { frn: frn_of(u) as usize, key: u.name, index: find_data_item(cat.data_items@, u.name@)->Some_0 as usize }] + rest
        } else {
            rest
        }
    }
}

proof fn lemma_clear_bit(b: u8, kg: u8, kh: u8)
    requires
        1 <= kg <= 7,
        1 <= kh <= 7,
    ensures
        ((b & !(1u8 << kg)) & (1u8 << kh) != 0) == (b & (1u8 << kh) != 0 && kg != kh),
{
    assert(((b & !(1u8 << kg)) & (1u8 << kh) != 0) == (b & (1u8 << kh) != 0 && kg != kh)) by (bit_vector)
        requires
            1 <= kg <= 7,
            1 <= kh <= 7;
}

/// Clearing the bit of FRN `g` clears that FRN alone.
proof fn lemma_fspec_clear(f: Seq<u8>, g: nat, h: nat)
    requires
        g / 7 < f.len(),
    ensures
        fspec_has(f.update((g / 7) as int, f[(g / 7) as int] & !frn_mask(g)), h) == (fspec_has(f, h) && h != g),
{
    let f2 = f.update((g / 7) as int, f[(g / 7) as int] & !frn_mask(g));
    if h / 7 == g / 7 {
        let kg = (7 - g % 7) as u8;
        let kh = (7 - h % 7) as u8;
        lemma_clear_bit(f[(g / 7) as int], kg, kh);
        assert((kg == kh) == (h == g));
    }
}

/// Reading the FSPEC `f` against the UAP items from the `i`-th on, where
/// `f` announces the FRNs of these items as `fs` does.
#[verifier::spinoff_prover]
pub proof fn lemma_present_loop(cat: Category, uap: Seq<UAPItem>, i: nat, f: Seq<u8>, acc: Seq<PresentItem>, fs: Seq<u8>)
    requires
        wf_uap(uap),
        i <= uap.len(),
        f.len() == fs.len(),
        forall|j: int| i <= j < uap.len() && numbered(#[trigger] uap[j]) ==> fspec_has(f, frn_of(uap[j])) == fspec_has(fs, frn_of(uap[j])),
        (forall|j: int| i <= j < uap.len() && numbered(#[trigger] uap[j]) && fspec_has(fs, frn_of(uap[j]))
            ==> find_data_item(cat.data_items@, uap[j].name@) is Some) || present_loop(cat, uap, i, f, acc) is Ok,
        forall|j: int| 0 <= j < uap.len() && numbered(#[trigger] uap[j]) ==> frn_of(uap[j]) < usize::MAX,
    ensures
        present_loop(cat, uap, i, f, acc) is Ok,
        present_loop(cat, uap, i, f, acc)->Ok_0.1 == acc + present_from(cat, uap, fs, i),
        present_loop(cat, uap, i, f, acc)->Ok_0.0.len() == f.len(),
        forall|g: nat| #[trigger] fspec_has(present_loop(cat, uap, i, f, acc)->Ok_0.0, g) == (fspec_has(f, g) && !uap_frn_from(uap, i, g)),
        forall|j: int| i <= j < uap.len() && numbered(#[trigger] uap[j]) && fspec_has(fs, frn_of(uap[j]))
            ==> find_data_item(cat.data_items@, uap[j].name@) is Some,
    decreases uap.len() - i,
{
    if i >= uap.len() {
        assert(acc + Seq::<PresentItem>::empty() =~= acc);
        assert forall|g: nat| #[trigger] fspec_has(f, g) == (fspec_has(f, g) && !uap_frn_from(uap, i, g)) by {
            if uap_frn_from(uap, i, g) {
                let j = choose|j: int| i <= j < uap.len() && numbered(#[trigger] uap[j]) && frn_of(uap[j]) == g;
            }
        }
    } else {
        let u = uap[i as int];
        assert(skipped(u) || numbered(u));
        if skipped(u) {
            lemma_present_loop(cat, uap, i + 1, f, acc, fs);
            let ff = present_loop(cat, uap, i, f, acc)->Ok_0.0;
            assert forall|g: nat| #[trigger] fspec_has(ff, g) == (fspec_has(f, g) && !uap_frn_from(uap, i, g)) by {
                if uap_frn_from(uap, i, g) && !uap_frn_from(uap, i + 1, g) {
                    let j = choose|j: int| i <= j < uap.len() && numbered(#[trigger] uap[j]) && frn_of(uap[j]) == g;
                    assert(j == i);
                }
                if uap_frn_from(uap, i + 1, g) {
                    let j = choose|j: int| i + 1 <= j < uap.len() && numbered(#[trigger] uap[j]) && frn_of(uap[j]) == g;
                    assert(uap_frn_from(uap, i, g));
                }
            }
        } else {
            let g0 = frn_of(u);
            let p = parse_usize_spec(encode_utf8(u.frn@))->Some_0;
            assert(g0 == p - 1);
            if g0 / 7 >= f.len() || f[(g0 / 7) as int] & frn_mask(g0) == 0 {
                assert(!fspec_has(f, g0));
                assert(!fspec_has(fs, g0));
                assert(present_loop(cat, uap, i, f, acc) == present_loop(cat, uap, i + 1, f, acc));
                lemma_present_loop(cat, uap, i + 1, f, acc, fs);
                let ff = present_loop(cat, uap, i, f, acc)->Ok_0.0;
                assert forall|g: nat| #[trigger] fspec_has(ff, g) == (fspec_has(f, g) && !uap_frn_from(uap, i, g)) by {
                    if uap_frn_from(uap, i, g) && !uap_frn_from(uap, i + 1, g) {
                        let j = choose|j: int| i <= j < uap.len() && numbered(#[trigger] uap[j]) && frn_of(uap[j]) == g;
                        assert(j == i);
                    }
                    if uap_frn_from(uap, i + 1, g) {
                        let j = choose|j: int| i + 1 <= j < uap.len() && numbered(#[trigger] uap[j]) && frn_of(uap[j]) == g;
                        assert(uap_frn_from(uap, i, g));
                    }
                }
            } else {
                assert(fspec_has(f, g0));
                assert(fspec_has(fs, g0));
                let f2 = f.update((g0 / 7) as int, f[(g0 / 7) as int] & !frn_mask(g0));
                assert(find_data_item(cat.data_items@, u.name@) is Some);
                let ix = find_data_item(cat.data_items@, u.name@)->Some_0;
                let item = PresentItem { frn: g0 as usize, key: u.name, index: ix as usize };
                assert(present_loop(cat, uap, i, f, acc) == present_loop(cat, uap, i + 1, f2, acc.push(item)));
                assert forall|j: int| i + 1 <= j < uap.len() && numbered(#[trigger] uap[j]) implies fspec_has(f2, frn_of(uap[j])) == fspec_has(fs, frn_of(uap[j])) by {
                    lemma_fspec_clear(f, g0, frn_of(uap[j]));
                    assert(frn_of(uap[i as int]) < frn_of(uap[j]));
                }
                lemma_present_loop(cat, uap, i + 1, f2, acc.push(item), fs);
                assert(acc.push(item) + present_from(cat, uap, fs, i + 1) =~= acc + present_from(cat, uap, fs, i));
                let ff = present_loop(cat, uap, i, f, acc)->Ok_0.0;
                assert forall|g: nat| #[trigger] fspec_has(ff, g) == (fspec_has(f, g) && !uap_frn_from(uap, i, g)) by {
                    lemma_fspec_clear(f, g0, g);
                    if uap_frn_from(uap, i, g) && !uap_frn_from(uap, i + 1, g) {
                        let j = choose|j: int| i <= j < uap.len() && numbered(#[trigger] uap[j]) && frn_of(uap[j]) == g;
                        assert(j == i);
                    }
                    if uap_frn_from(uap, i + 1, g) {
                        let j = choose|j: int| i + 1 <= j < uap.len() && numbered(#[trigger] uap[j]) && frn_of(uap[j]) == g;
                        assert(uap_frn_from(uap, i, g));
                    }
                    if g == g0 {
                        assert(uap_frn_from(uap, i, g));
                    }
                }
            }
        }
    }
}

/// The item an FSPEC announces for a numbered UAP item.
pub open spec fn present_item(cat: Category, u: UAPItem) -> PresentItem {
    PresentItem { frn: frn_of(u) as usize, key: u.name, index: find_data_item(cat.data_items@, u.name@)->Some_0 as usize }
}

/// Each announced item from the `i`-th UAP item on is that of a numbered
/// UAP item whose FRN the FSPEC announces.
pub proof fn lemma_present_members(cat: Category, uap: Seq<UAPItem>, fs: Seq<u8>, i: nat, m: int)
    requires
        0 <= m < present_from(cat, uap, fs, i).len(),
    ensures
        exists|j: int| i <= j < uap.len() && numbered(#[trigger] uap[j]) && fspec_has(fs, frn_of(uap[j]))
            && present_from(cat, uap, fs, i)[m] == present_item(cat, uap[j]),
    decreases uap.len() - i,
{
    if i < uap.len() {
        let t = present_from(cat, uap, fs, i + 1);
        let u = uap[i as int];
        if numbered(u) && fspec_has(fs, frn_of(u)) {
            if m == 0 {
                assert(present_from(cat, uap, fs, i)[0] == present_item(cat, uap[i as int]));
            } else {
                assert(present_from(cat, uap, fs, i)[m] == t[m - 1]);
                lemma_present_members(cat, uap, fs, i + 1, m - 1);
            }
        } else {
            lemma_present_members(cat, uap, fs, i + 1, m);
        }
    }
}

/// The announced items come in strictly increasing FRN order.
#[verifier::spinoff_prover]
pub proof fn lemma_present_increasing(cat: Category, uap: Seq<UAPItem>, fs: Seq<u8>, i: nat)
    requires
        wf_uap(uap),
        forall|j: int| 0 <= j < uap.len() && numbered(#[trigger] uap[j]) ==> frn_of(uap[j]) < usize::MAX,
    ensures
        forall|m1: int, m2: int| 0 <= m1 < m2 < present_from(cat, uap, fs, i).len()
            ==> (#[trigger] present_from(cat, uap, fs, i)[m1]).frn < (#[trigger] present_from(cat, uap, fs, i)[m2]).frn,
    decreases uap.len() - i,
{
    if i < uap.len() {
        lemma_present_increasing(cat, uap, fs, i + 1);
        let t = present_from(cat, uap, fs, i + 1);
        let pf = present_from(cat, uap, fs, i);
        let u = uap[i as int];
        if numbered(u) && fspec_has(fs, frn_of(u)) {
            assert forall|m1: int, m2: int| 0 <= m1 < m2 < pf.len() implies (#[trigger] pf[m1]).frn < (#[trigger] pf[m2]).frn by {
                assert(pf[m2] == t[m2 - 1]);
                if m1 == 0 {
                    lemma_present_members(cat, uap, fs, i + 1, m2 - 1);
                    let j = choose|j: int| i + 1 <= j < uap.len() && numbered(#[trigger] uap[j]) && fspec_has(fs, frn_of(uap[j]))
                        && t[m2 - 1] == present_item(cat, uap[j]);
                    assert(frn_of(uap[i as int]) < frn_of(uap[j]));
                } else {
                    assert(pf[m1] == t[m1 - 1]);
                }
            }
        }
    }
}

/// Every numbered UAP item whose FRN the FSPEC announces has its item
/// announced.
pub proof fn lemma_present_complete(cat: Category, uap: Seq<UAPItem>, fs: Seq<u8>, i: nat, j: int)
    requires
        i <= j < uap.len(),
        numbered(uap[j]),
        fspec_has(fs, frn_of(uap[j])),
    ensures
        present_from(cat, uap, fs, i).contains(present_item(cat, uap[j])),
    decreases uap.len() - i,
{
    let t = present_from(cat, uap, fs, i + 1);
    let pf = present_from(cat, uap, fs, i);
    let u = uap[i as int];
    if j == i {
        assert(pf[0] == present_item(cat, uap[j]));
    } else {
        lemma_present_complete(cat, uap, fs, i + 1, j);
        let m = choose|m: int| 0 <= m < t.len() && t[m] == present_item(cat, uap[j]);
        if numbered(u) && fspec_has(fs, frn_of(u)) {
            assert(pf[m + 1] == t[m]);
        } else {
            assert(pf[m] == t[m]);
        }
    }
}

/// The items written for a record, in FRN order.
pub open spec fn record_items_written(cat: Category, u: nat, o: ObjectV) -> Seq<WriteItem> {
    sort_items(entries_from(cat, u, o, 0))
}

/// Two entries whose items have the same FRN are the same entry.
proof fn lemma_entry_frn_unique(cat: Category, u: nat, o: ObjectV, i1: int, i2: int)
    requires
        u < cat.uaps@.len(),
        wf_uap(uap_at(cat, u)),
        forall|j: int| 0 <= j < uap_at(cat, u).len() && numbered(#[trigger] uap_at(cat, u)[j]) ==> frn_of(uap_at(cat, u)[j]) < usize::MAX,
        entries_fit(cat, u, o),
        0 <= i1 < o.len(),
        0 <= i2 < o.len(),
        o[i1].0 != "CAT"@,
        o[i2].0 != "CAT"@,
        entry_item(cat, u, o, i1).0 == entry_item(cat, u, o, i2).0,
    ensures
        i1 == i2,
{
    let uap = uap_at(cat, u);
    assert(entry_fits(cat, u, o[i1].0, o[i1].1));
    assert(entry_fits(cat, u, o[i2].0, o[i2].1));
    lemma_find_uap_item(uap, o[i1].0);
    lemma_find_uap_item(uap, o[i2].0);
    let j1 = find_uap_item(uap, o[i1].0)->Some_0;
    let j2 = find_uap_item(uap, o[i2].0)->Some_0;
    if j1 < j2 {
        assert(frn_of(uap[j1]) < frn_of(uap[j2]));
    } else if j2 < j1 {
        assert(frn_of(uap[j2]) < frn_of(uap[j1]));
    }
    assert(j1 == j2);
    if i1 < i2 {
        assert(o[i1].0 != o[i2].0);
    } else if i2 < i1 {
        assert(o[i2].0 != o[i1].0);
    }
}

/// The items that reading finds in the FSPEC of a written record are those
/// written, in the same order.
#[verifier::spinoff_prover]
proof fn lemma_correspond(cat: Category, u: nat, o: ObjectV, fs: Seq<u8>)
    requires
        u < cat.uaps@.len(),
        wf_uap(uap_at(cat, u)),
        forall|j: int| 0 <= j < uap_at(cat, u).len() && numbered(#[trigger] uap_at(cat, u)[j]) ==> frn_of(uap_at(cat, u)[j]) < usize::MAX,
        entries_fit(cat, u, o),
        o.len() <= usize::MAX,
        forall|g: nat| #[trigger] fspec_has(fs, g) <==> frn_among(item_frns(record_items_written(cat, u, o)), record_items_written(cat, u, o).len(), g),
    ensures
        ({
            let s = record_items_written(cat, u, o);
            let p = present_from(cat, uap_at(cat, u), fs, 0);
            &&& p.len() == s.len()
            &&& forall|m: int| 0 <= m < s.len() ==> (#[trigger] p[m]).frn == s[m].0 && p[m].index == s[m].1
                && s[m].2 < o.len() && p[m].key@ == o[s[m].2 as int].0 && o[s[m].2 as int].0 != "CAT"@
        }),
{
    let uap = uap_at(cat, u);
    let e = entries_from(cat, u, o, 0);
    let s = record_items_written(cat, u, o);
    let p = present_from(cat, uap, fs, 0);
    lemma_entries_from(cat, u, o, 0);
    assert(e.no_duplicates()) by {
        assert forall|a: int, b: int| 0 <= a < e.len() && 0 <= b < e.len() && a != b implies e[a] != e[b] by {
            if a < b {
                assert(e[a].2 < e[b].2);
            } else {
                assert(e[b].2 < e[a].2);
            }
        }
    }
    lemma_sort_items(e);
    let fs_ = item_frns(s);
    let fp = p.map_values(|x: PresentItem| x.frn);
    // each written item is the item of a record entry
    assert forall|m: int| #![trigger s[m]] 0 <= m < s.len() implies exists|i: int| 0 <= i < o.len() && o[i].0 != "CAT"@
        && s[m] == #[trigger] entry_item(cat, u, o, i) by {
        assert(s.contains(s[m]));
        assert(e.contains(s[m]));
    }
    assert forall|m1: int, m2: int| 0 <= m1 < m2 < fs_.len() implies fs_[m1] < fs_[m2] by {
        assert(s[m1].0 <= s[m2].0);
        if s[m1].0 == s[m2].0 {
            let i1 = choose|i: int| 0 <= i < o.len() && o[i].0 != "CAT"@ && s[m1] == #[trigger] entry_item(cat, u, o, i);
            let i2 = choose|i: int| 0 <= i < o.len() && o[i].0 != "CAT"@ && s[m2] == #[trigger] entry_item(cat, u, o, i);
            lemma_entry_frn_unique(cat, u, o, i1, i2);
            assert(s[m1] == s[m2]);
        }
    }
    lemma_present_increasing(cat, uap, fs, 0);
    assert forall|m1: int, m2: int| 0 <= m1 < m2 < fp.len() implies fp[m1] < fp[m2] by {
        assert(p[m1].frn < p[m2].frn);
    }
    assert forall|g: usize| fs_.contains(g) <==> fp.contains(g) by {
        if fs_.contains(g) {
            let m = choose|m: int| 0 <= m < fs_.len() && fs_[m] == g;
            assert(frn_among(fs_, s.len(), g as nat));
            assert(fspec_has(fs, g as nat));
            let i = choose|i: int| 0 <= i < o.len() && o[i].0 != "CAT"@ && s[m] == #[trigger] entry_item(cat, u, o, i);
            assert(entry_fits(cat, u, o[i].0, o[i].1));
            lemma_find_uap_item(uap, o[i].0);
            let j = find_uap_item(uap, o[i].0)->Some_0;
            assert(frn_of(uap[j]) == g);
            lemma_present_complete(cat, uap, fs, 0, j);
            let mp = choose|mp: int| 0 <= mp < p.len() && p[mp] == present_item(cat, uap[j]);
            assert(fp[mp] == g);
        }
        if fp.contains(g) {
            let mp = choose|mp: int| 0 <= mp < fp.len() && fp[mp] == g;
            lemma_present_members(cat, uap, fs, 0, mp);
            let j = choose|j: int| 0 <= j < uap.len() && numbered(#[trigger] uap[j]) && fspec_has(fs, frn_of(uap[j]))
                && p[mp] == present_item(cat, uap[j]);
            assert(frn_among(fs_, s.len(), frn_of(uap[j])));
            let m = choose|m: int| 0 <= m < s.len() && m < fs_.len() && fs_[m] == frn_of(uap[j]);
            assert(fs_[m] == g);
        }
    }
    lemma_increasing_unique(fs_, fp);
    assert forall|m: int| 0 <= m < s.len() implies (#[trigger] p[m]).frn == s[m].0 && p[m].index == s[m].1
        && s[m].2 < o.len() && p[m].key@ == o[s[m].2 as int].0 && o[s[m].2 as int].0 != "CAT"@ by {
        assert(fs_[m] == fp[m]);
        let i = choose|i: int| 0 <= i < o.len() && o[i].0 != "CAT"@ && s[m] == #[trigger] entry_item(cat, u, o, i);
        assert(entry_fits(cat, u, o[i].0, o[i].1));
        lemma_find_uap_item(uap, o[i].0);
        let ji = find_uap_item(uap, o[i].0)->Some_0;
        lemma_present_members(cat, uap, fs, 0, m);
        let j = choose|j: int| 0 <= j < uap.len() && numbered(#[trigger] uap[j]) && fspec_has(fs, frn_of(uap[j]))
            && p[m] == present_item(cat, uap[j]);
        if ji < j {
            assert(frn_of(uap[ji]) < frn_of(uap[j]));
        } else if j < ji {
            assert(frn_of(uap[j]) < frn_of(uap[ji]));
        }
        assert(ji == j);
    }
}

/// The items written for a record: one for each entry but `CAT`, with the
/// data item of its key.
#[verifier::spinoff_prover]
proof fn lemma_written_entries(cat: Category, u: nat, o: ObjectV)
    requires
        u < cat.uaps@.len(),
        cat.data_items@.len() <= usize::MAX,
        entries_fit(cat, u, o),
        o.len() <= usize::MAX,
    ensures
        ({
            let s = record_items_written(cat, u, o);
            &&& forall|m: int| 0 <= m < s.len() ==> (#[trigger] s[m]).2 < o.len() && o[s[m].2 as int].0 != "CAT"@
                && find_data_item(cat.data_items@, o[s[m].2 as int].0) == Some(s[m].1 as int)
                && s[m] == entry_item(cat, u, o, s[m].2 as int)
            &&& forall|m1: int, m2: int| 0 <= m1 < s.len() && 0 <= m2 < s.len() && m1 != m2 ==> (#[trigger] s[m1]).2 != (#[trigger] s[m2]).2
            &&& forall|i: int| 0 <= i < o.len() && (#[trigger] o[i]).0 != "CAT"@ ==> exists|m: int| 0 <= m < s.len() && (#[trigger] s[m]).2 == i
        }),
{
    let e = entries_from(cat, u, o, 0);
    let s = record_items_written(cat, u, o);
    lemma_entries_from(cat, u, o, 0);
    assert(e.no_duplicates()) by {
        assert forall|a: int, b: int| 0 <= a < e.len() && 0 <= b < e.len() && a != b implies e[a] != e[b] by {
            if a < b {
                assert(e[a].2 < e[b].2);
            } else {
                assert(e[b].2 < e[a].2);
            }
        }
    }
    lemma_sort_items(e);
    assert forall|m: int| 0 <= m < s.len() implies (#[trigger] s[m]).2 < o.len() && o[s[m].2 as int].0 != "CAT"@
        && find_data_item(cat.data_items@, o[s[m].2 as int].0) == Some(s[m].1 as int)
        && s[m] == entry_item(cat, u, o, s[m].2 as int) by {
        assert(s.contains(s[m]));
        assert(e.contains(s[m]));
        assert(exists|i: int| 0 <= i < o.len() && o[i].0 != "CAT"@ && s[m] == #[trigger] entry_item(cat, u, o, i));
        let i = choose|i: int| 0 <= i < o.len() && o[i].0 != "CAT"@ && s[m] == #[trigger] entry_item(cat, u, o, i);
        assert(entry_fits(cat, u, o[i].0, o[i].1));
        crate::read_asterix::lemma_find_data_item(cat.data_items@, o[i].0);
    }
    assert forall|m1: int, m2: int| 0 <= m1 < s.len() && 0 <= m2 < s.len() && m1 != m2 implies (#[trigger] s[m1]).2 != (#[trigger] s[m2]).2 by {
        assert(s.contains(s[m1]) && s.contains(s[m2]));
        assert(e.contains(s[m1]) && e.contains(s[m2]));
        assert(exists|i: int| 0 <= i < o.len() && o[i].0 != "CAT"@ && s[m1] == #[trigger] entry_item(cat, u, o, i));
        assert(exists|i: int| 0 <= i < o.len() && o[i].0 != "CAT"@ && s[m2] == #[trigger] entry_item(cat, u, o, i));
        let i1 = choose|i: int| 0 <= i < o.len() && o[i].0 != "CAT"@ && s[m1] == #[trigger] entry_item(cat, u, o, i);
        let i2 = choose|i: int| 0 <= i < o.len() && o[i].0 != "CAT"@ && s[m2] == #[trigger] entry_item(cat, u, o, i);
        if i1 == i2 {
            assert(s[m1] == s[m2]);
        }
    }
    assert forall|i: int| 0 <= i < o.len() && (#[trigger] o[i]).0 != "CAT"@ implies exists|m: int| 0 <= m < s.len() && (#[trigger] s[m]).2 == i by {
        assert(e.contains(entry_item(cat, u, o, i)));
        assert(s.contains(entry_item(cat, u, o, i)));
        let m = choose|m: int| 0 <= m < s.len() && s[m] == entry_item(cat, u, o, i);
        assert(s[m].2 == i);
    }
}

/// What reading a record gives for one of its entries.
pub open spec fn read_back(cat: Category, k: Seq<char>, v: ValueV) -> ValueV {
    format_back(item_format(cat, k)->Some_0, v)
}

/// The object read from the items written from the `k`-th on.
pub open spec fn read_fold(cat: Category, o: ObjectV, s: Seq<WriteItem>, k: nat, acc: ObjectV) -> ObjectV
    decreases s.len() - k,
{
    if k >= s.len() {
        acc
    } else {
        let key = o[s[k as int].2 as int].0;
        read_fold(cat, o, s, k + 1, obj_insert(acc, key, read_back(cat, key, o[s[k as int].2 as int].1)))
    }
}

/// Reading the items written, in step with their writing.
#[verifier::spinoff_prover]
#[verifier::rlimit(50)]
proof fn lemma_read_items(cat: Category, u: nat, o: ObjectV, s: Seq<WriteItem>, p: Seq<PresentItem>, k: nat, wacc: Seq<u8>, racc: ObjectV, rest: Seq<u8>)
    requires
        record_write(cat, o, s, k, wacc) is Ok,
        p.len() == s.len(),
        k <= s.len(),
        entries_fit(cat, u, o),
        forall|m: int| 0 <= m < s.len() ==> (#[trigger] p[m]).index == s[m].1 && s[m].2 < o.len()
            && p[m].key@ == o[s[m].2 as int].0 && o[s[m].2 as int].0 != "CAT"@
            && find_data_item(cat.data_items@, o[s[m].2 as int].0) == Some(s[m].1 as int),
    ensures
        ({
            let out = record_write(cat, o, s, k, wacc)->Ok_0;
            &&& out.len() >= wacc.len()
            &&& out.take(wacc.len() as int) == wacc
            &&& record_items(out.skip(wacc.len() as int) + rest, cat, p, k, racc)
                == Ok::<(ObjectV, Seq<u8>), crate::error::Fail>((read_fold(cat, o, s, k, racc), rest))
        }),
    decreases s.len() - k,
{
    let out = record_write(cat, o, s, k, wacc)->Ok_0;
    if k >= s.len() {
        assert(out == wacc);
        assert(out.skip(wacc.len() as int) + rest =~= rest);
        assert(wacc.take(wacc.len() as int) =~= wacc);
    } else {
        let m = k as int;
        let (frn, index, e) = s[m];
        let key = o[e as int].0;
        let v = o[e as int].1;
        assert(p[m].index == index);
        assert(entry_fits(cat, u, key, v));
        let f = item_format(cat, key)->Some_0;
        assert(cat.data_items@[index as int].format.format == f);
        let w = crate::write_asterix::spec_write_field(f, v)->Ok_0;
        assert(record_write(cat, o, s, k, wacc) == record_write(cat, o, s, k + 1, wacc + w));
        let racc2 = obj_insert(racc, key, read_back(cat, key, v));
        lemma_read_items(cat, u, o, s, p, k + 1, wacc + w, racc2, rest);
        let x = out.skip((wacc + w).len() as int) + rest;
        lemma_extends_split(out, wacc, w, rest);
        lemma_format_roundtrip(f, v, x);
        crate::read_asterix::lemma_find_data_item(cat.data_items@, key);
        assert(p[m].index < cat.data_items@.len());
        assert(crate::read_asterix::spec_read_field(w + x, f)
            == Ok::<(ValueV, Seq<u8>), crate::error::Fail>((read_back(cat, key, v), x)));
        assert(record_items(w + x, cat, p, k, racc) == record_items(x, cat, p, k + 1, racc2));
    }
}

/// The value of a key in the object read: that of the last item of the key,
/// or else its value before.
proof fn lemma_read_fold_get(cat: Category, o: ObjectV, s: Seq<WriteItem>, k: nat, acc: ObjectV, key: Seq<char>)
    requires
        forall|m: int| 0 <= m < s.len() ==> (#[trigger] s[m]).2 < o.len(),
        forall|m1: int, m2: int| k <= m1 < s.len() && k <= m2 < s.len() && m1 != m2
            ==> o[(#[trigger] s[m1]).2 as int].0 != o[(#[trigger] s[m2]).2 as int].0,
    ensures
        (exists|m: int| k <= m < s.len() && o[(#[trigger] s[m]).2 as int].0 == key) ==> ({
            let m = choose|m: int| k <= m < s.len() && o[(#[trigger] s[m]).2 as int].0 == key;
            obj_get(read_fold(cat, o, s, k, acc), key) == Some(read_back(cat, key, o[s[m].2 as int].1))
        }),
        !(exists|m: int| k <= m < s.len() && o[(#[trigger] s[m]).2 as int].0 == key)
            ==> obj_get(read_fold(cat, o, s, k, acc), key) == obj_get(acc, key),
    decreases s.len() - k,
{
    if k < s.len() {
        let kk = o[s[k as int].2 as int].0;
        let acc2 = obj_insert(acc, kk, read_back(cat, kk, o[s[k as int].2 as int].1));
        lemma_read_fold_get(cat, o, s, k + 1, acc2, key);
        lemma_obj_get_insert(acc, kk, read_back(cat, kk, o[s[k as int].2 as int].1), key);
        if exists|m: int| k <= m < s.len() && o[(#[trigger] s[m]).2 as int].0 == key {
            let m = choose|m: int| k <= m < s.len() && o[(#[trigger] s[m]).2 as int].0 == key;
            if m == k {
                if exists|m2: int| k + 1 <= m2 < s.len() && o[(#[trigger] s[m2]).2 as int].0 == key {
                    let m2 = choose|m2: int| k + 1 <= m2 < s.len() && o[(#[trigger] s[m2]).2 as int].0 == key;
                    assert(o[s[m2].2 as int].0 != o[s[k as int].2 as int].0);
                }
            } else {
                assert(exists|m2: int| k + 1 <= m2 < s.len() && o[(#[trigger] s[m2]).2 as int].0 == key);
                let m2 = choose|m2: int| k + 1 <= m2 < s.len() && o[(#[trigger] s[m2]).2 as int].0 == key;
                if m2 != m {
                    assert(o[s[m2].2 as int].0 != o[s[m].2 as int].0);
                }
                assert(o[s[k as int].2 as int].0 != o[s[m].2 as int].0);
            }
        } else {
            assert(kk != key);
        }
    }
}

/// An FSPEC that announces no FRN has no unknown bit set.
proof fn lemma_no_unknown(f: Seq<u8>)
    requires
        forall|g: nat| !#[trigger] fspec_has(f, g),
    ensures
        crate::read_asterix::first_unknown_fspec(f) is None,
{
    crate::read_asterix::lemma_first_unknown_fspec(f);
    if crate::read_asterix::first_unknown_fspec(f) is Some {
        let i = crate::read_asterix::first_unknown_fspec(f)->Some_0;
        let b = f[i];
        assert(b & 0xfeu8 != 0);
        assert(b & (1u8 << 7u8) != 0 || b & (1u8 << 6u8) != 0 || b & (1u8 << 5u8) != 0 || b & (1u8 << 4u8) != 0
            || b & (1u8 << 3u8) != 0 || b & (1u8 << 2u8) != 0 || b & (1u8 << 1u8) != 0) by (bit_vector)
            requires
                b & 0xfeu8 != 0;
        let mut r: nat = 0;
        if b & (1u8 << 7u8) != 0 {
            r = 0;
        } else if b & (1u8 << 6u8) != 0 {
            r = 1;
        } else if b & (1u8 << 5u8) != 0 {
            r = 2;
        } else if b & (1u8 << 4u8) != 0 {
            r = 3;
        } else if b & (1u8 << 3u8) != 0 {
            r = 4;
        } else if b & (1u8 << 2u8) != 0 {
            r = 5;
        } else {
            r = 6;
        }
        let g = (7 * i + r) as nat;
        assert(g / 7 == i && g % 7 == r);
        assert(fspec_has(f, g));
    }
}

/// What reading gives for the key `k` of a record written from `o`: the
/// category for `CAT`, and for any other key of `o` the fields read back.
pub open spec fn record_read_back(cat: Category, o: ObjectV, k: Seq<char>) -> Option<ValueV> {
    if k == "CAT"@ {
        Some(ValueV::Number(Number::PosInt(cat.id as u64), Seq::empty()))
    } else {
        match obj_get(o, k) {
            Some(v) => Some(read_back(cat, k, v)),
            None => None,
        }
    }
}

/// The value of a key of distinct keys.
proof fn lemma_obj_get_unique(o: ObjectV, i: int)
    requires
        0 <= i < o.len(),
        forall|a: int, b: int| 0 <= a < b < o.len() ==> (#[trigger] o[a]).0 != (#[trigger] o[b]).0,
    ensures
        obj_get(o, o[i].0) == Some(o[i].1),
{
    assert forall|j: int| 0 <= j < i implies (#[trigger] o[j]).0 != o[i].0 by {
        assert(o[j].0 != o[i].0);
    }
    lemma_obj_find_first(o, o[i].0, i);
}

/// The FRNs of numbered UAP items fit a `usize` with room to spare.
pub proof fn lemma_uap_frn_bound(uap: Seq<UAPItem>)
    ensures
        forall|j: int| 0 <= j < uap.len() && numbered(#[trigger] uap[j]) ==> frn_of(uap[j]) < usize::MAX,
{
    assert forall|j: int| 0 <= j < uap.len() && numbered(#[trigger] uap[j]) implies frn_of(uap[j]) < usize::MAX by {
        assert(parse_usize_spec(encode_utf8(uap[j].frn@))->Some_0 <= usize::MAX);
    }
}

/// The FSPEC written for a record, and the bytes of its items.
pub open spec fn record_fspec(cat: Category, u: nat, o: ObjectV) -> Seq<u8> {
    crate::write_asterix::spec_write_fspec(item_frns(record_items_written(cat, u, o)))->Ok_0
}

/// The bytes written for a record.
pub open spec fn record_body(cat: Category, u: nat, o: ObjectV) -> Seq<u8> {
    record_write(cat, o, record_items_written(cat, u, o), 0, record_fspec(cat, u, o))->Ok_0
}

/// The records of a block written from a record that fits are that record.
proof fn lemma_body_is_record(cat: Category, u: nat, o: ObjectV)
    requires
        record_fits(cat, u, o),
    ensures
        crate::write_asterix::spec_write_body(cat, o) == crate::write_asterix::spec_write_record(cat, o),
{
    reveal(crate::write_asterix::spec_write_body);
}

/// The items present in a record that fits are those of its entries.
proof fn lemma_present_entries(cat: Category, u: nat, o: ObjectV)
    requires
        crate::write_asterix::spec_write_uap(cat, o) == u,
        u < cat.uaps@.len(),
        o.len() <= usize::MAX,
        entries_fit(cat, u, o),
    ensures
        crate::write_asterix::spec_present_entries(cat, o) == Ok::<Seq<WriteItem>, crate::error::Fail>(record_items_written(cat, u, o)),
{
    lemma_record_entries(cat, u, o, 0, Seq::empty());
    assert(Seq::<WriteItem>::empty() + entries_from(cat, u, o, 0) =~= entries_from(cat, u, o, 0));
    assert(crate::write_asterix::spec_write_uap(cat, o) == u);
}

/// A data block written from a record that fits is the header and the
/// record.
#[verifier::spinoff_prover]
proof fn lemma_write_shape(cat: Category, u: nat, o: ObjectV)
    requires
        crate::write_asterix::spec_write_uap(cat, o) == u,
        u < cat.uaps@.len(),
        o.len() <= usize::MAX,
        record_fits(cat, u, o),
        spec_write_asterix(cat, o) is Ok,
    ensures
        crate::write_asterix::spec_write_fspec(item_frns(record_items_written(cat, u, o))) is Ok,
        record_write(cat, o, record_items_written(cat, u, o), 0, record_fspec(cat, u, o)) is Ok,
        record_body(cat, u, o).len() + 3 <= 0xffff,
        spec_write_asterix(cat, o)->Ok_0 == seq![cat.id, ((record_body(cat, u, o).len() + 3) / 256) as u8,
            ((record_body(cat, u, o).len() + 3) % 256) as u8] + record_body(cat, u, o),
{
    lemma_body_is_record(cat, u, o);
    lemma_present_entries(cat, u, o);
    let w = crate::write_asterix::spec_write_record(cat, o);
    assert(crate::write_asterix::spec_write_body(cat, o) == w);
    assert(w is Ok);
    assert(w->Ok_0 == record_body(cat, u, o));
}

/// Reading the body of a record written from an object that fits gives the
/// fields read back.
#[verifier::spinoff_prover]
#[verifier::rlimit(50)]
proof fn lemma_read_body(cat: Category, u: nat, o: ObjectV, rest: Seq<u8>)
    requires
        crate::read_asterix::spec_switch_uap(record_items_bytes(cat, u, o), cat.id) == Ok::<nat, crate::error::ErrorV>(u),
        u < cat.uaps@.len(),
        cat.data_items@.len() <= usize::MAX,
        o.len() <= usize::MAX,
        wf_uap(uap_at(cat, u)),
        entries_fit(cat, u, o),
        crate::write_asterix::spec_write_fspec(item_frns(record_items_written(cat, u, o))) is Ok,
        record_write(cat, o, record_items_written(cat, u, o), 0, record_fspec(cat, u, o)) is Ok,
    ensures
        crate::read_asterix::spec_read_record(record_body(cat, u, o) + rest, cat)
            == Ok::<(ObjectV, Seq<u8>), crate::error::Fail>((read_fold(cat, o, record_items_written(cat, u, o), 0, Seq::empty()), rest)),
{
    let uap = uap_at(cat, u);
    lemma_uap_frn_bound(uap);
    let s = record_items_written(cat, u, o);
    let fs = record_fspec(cat, u, o);
    let body = record_body(cat, u, o);
    lemma_written_entries(cat, u, o);
    lemma_fspec_roundtrip(item_frns(s), body.skip(fs.len() as int) + rest);
    assert(item_frns(s).len() == s.len());
    lemma_correspond(cat, u, o, fs);
    let p = present_from(cat, uap, fs, 0);
    lemma_read_items(cat, u, o, s, p, 0, fs, Seq::empty(), rest);
    assert(body =~= fs + body.skip(fs.len() as int));
    assert(body + rest =~= fs + (body.skip(fs.len() as int) + rest));
    assert((body + rest).skip(fs.len() as int) =~= body.skip(fs.len() as int) + rest);
    assert((body + rest).take(fs.len() as int) =~= fs);
    assert(crate::read_asterix::spec_fspec_len(body + rest) == Some(fs.len()));
    lemma_switch_rest(body.skip(fs.len() as int), cat.id, u, rest);
    assert forall|j: int| 0 <= j < uap.len() && numbered(#[trigger] uap[j]) && fspec_has(fs, frn_of(uap[j]))
        implies find_data_item(cat.data_items@, uap[j].name@) is Some by {
        assert(frn_among(item_frns(s), s.len(), frn_of(uap[j])));
        let m = choose|m: int| 0 <= m < s.len() && m < item_frns(s).len() && item_frns(s)[m] == frn_of(uap[j]);
        let i = s[m].2 as int;
        assert(s[m] == entry_item(cat, u, o, i));
        assert(entry_fits(cat, u, o[i].0, o[i].1));
        lemma_find_uap_item(uap, o[i].0);
        let ji = find_uap_item(uap, o[i].0)->Some_0;
        if ji < j {
            assert(frn_of(uap[ji]) < frn_of(uap[j]));
        } else if j < ji {
            assert(frn_of(uap[j]) < frn_of(uap[ji]));
        }
    }
    lemma_present_loop(cat, uap, 0, fs, Seq::empty(), fs);
    assert(Seq::<PresentItem>::empty() + p =~= p);
    let ff = present_loop(cat, uap, 0, fs, Seq::empty())->Ok_0.0;
    assert forall|g: nat| !#[trigger] fspec_has(ff, g) by {
        if fspec_has(fs, g) {
            assert(frn_among(item_frns(s), s.len(), g));
            let m = choose|m: int| 0 <= m < s.len() && m < item_frns(s).len() && item_frns(s)[m] == g;
            let i = s[m].2 as int;
            assert(s[m] == entry_item(cat, u, o, i));
            assert(entry_fits(cat, u, o[i].0, o[i].1));
            lemma_find_uap_item(uap, o[i].0);
            let ji = find_uap_item(uap, o[i].0)->Some_0;
            assert(numbered(uap[ji]) && frn_of(uap[ji]) == g);
            assert(uap_frn_from(uap, 0, g));
        }
    }
    lemma_no_unknown(ff);
    assert(crate::read_asterix::spec_present_items(body + rest, cat)
        == Ok::<(Seq<PresentItem>, Seq<u8>), crate::error::Fail>((p, body.skip(fs.len() as int) + rest)));
}

/// The object read back, key by key.
#[verifier::spinoff_prover]
proof fn lemma_read_result(cat: Category, u: nat, o: ObjectV, k: Seq<char>)
    requires
        u < cat.uaps@.len(),
        cat.data_items@.len() <= usize::MAX,
        o.len() <= usize::MAX,
        entries_fit(cat, u, o),
    ensures
        obj_get(obj_insert(read_fold(cat, o, record_items_written(cat, u, o), 0, Seq::empty()), "CAT"@,
            ValueV::Number(Number::PosInt(cat.id as u64), Seq::empty())), k) == record_read_back(cat, o, k),
{
    let s = record_items_written(cat, u, o);
    let rv = read_fold(cat, o, s, 0, Seq::empty());
    lemma_written_entries(cat, u, o);
    lemma_obj_get_insert(rv, "CAT"@, ValueV::Number(Number::PosInt(cat.id as u64), Seq::empty()), k);
    if k != "CAT"@ {
        assert forall|m1: int, m2: int| 0 <= m1 < s.len() && 0 <= m2 < s.len() && m1 != m2
            implies o[(#[trigger] s[m1]).2 as int].0 != o[(#[trigger] s[m2]).2 as int].0 by {
            let a = s[m1].2 as int;
            let b = s[m2].2 as int;
            assert(a != b);
            if a < b {
                assert(o[a].0 != o[b].0);
            } else {
                assert(o[b].0 != o[a].0);
            }
        }
        lemma_read_fold_get(cat, o, s, 0, Seq::empty(), k);
        if exists|m: int| 0 <= m < s.len() && o[(#[trigger] s[m]).2 as int].0 == k {
            let m = choose|m: int| 0 <= m < s.len() && o[(#[trigger] s[m]).2 as int].0 == k;
            lemma_obj_get_unique(o, s[m].2 as int);
        } else {
            lemma_obj_find(o, k);
            if obj_find(o, k) is Some {
                let i = obj_find(o, k)->Some_0;
                assert(o[i].0 != "CAT"@);
                let m = choose|m: int| 0 <= m < s.len() && (#[trigger] s[m]).2 == i;
                assert(o[s[m].2 as int].0 == k);
            }
        }
    }
}

/// A record written from an object is read back: the block holds the
/// category and the record, read whole whatever follows it, and the object
/// read has the category as `CAT` and every other key of the object, with
/// its item read back. This holds where reading picks, from the items
/// written, the UAP `u` that writing picked for the record (always the
/// first, but in categories 1 and 129), whose items come in FRN order, each
/// named once; and for a record of distinct keys, with no array under
/// `records`, whose items are items of plain fields that the values fit:
/// Fixed items, Variables, Explicits and Repetitives of Fixed parts, and
/// Compounds of such subitems, with integer fields, unsigned, hexadecimal
/// or two's complement, with or without a unit and a condition.
#[verifier::spinoff_prover]
#[verifier::rlimit(30)]
pub proof fn lemma_record_roundtrip(cat: Category, u: nat, o: ObjectV, rest: Seq<u8>)
    requires
        uap_alike(cat, u, o),
        u < cat.uaps@.len(),
        cat.data_items@.len() <= usize::MAX,
        o.len() <= usize::MAX,
        wf_uap(uap_at(cat, u)),
        record_fits(cat, u, o),
        spec_write_asterix(cat, o) is Ok,
    ensures
        spec_read_asterix(spec_write_asterix(cat, o)->Ok_0 + rest, cat).1 == rest,
        spec_read_asterix(spec_write_asterix(cat, o)->Ok_0 + rest, cat).0 is Ok,
        forall|k: Seq<char>| #[trigger] obj_get(spec_read_asterix(spec_write_asterix(cat, o)->Ok_0 + rest, cat).0->Ok_0, k)
            == record_read_back(cat, o, k),
{
    lemma_write_shape(cat, u, o);
    lemma_read_body(cat, u, o, Seq::empty());
    assert(record_body(cat, u, o) + Seq::<u8>::empty() =~= record_body(cat, u, o));
    let body = record_body(cat, u, o);
    let len = body.len() + 3;
    let input = spec_write_asterix(cat, o)->Ok_0 + rest;
    assert(input[0] == cat.id);
    assert(input[1] as int * 256 + input[2] as int == len);
    assert(input.subrange(3, len as int) =~= body);
    assert(input.skip(len as int) =~= rest);
    let rv = read_fold(cat, o, record_items_written(cat, u, o), 0, Seq::empty());
    let r = obj_insert(rv, "CAT"@, ValueV::Number(Number::PosInt(cat.id as u64), Seq::empty()));
    crate::read_asterix::lemma_fspec_len(body);
    assert(body.len() > 0);
    assert(crate::read_asterix::records_read(body, cat, Seq::empty())
        == crate::read_asterix::records_read(Seq::empty(), cat, seq![ValueV::Object(rv)]));
    assert(crate::read_asterix::records_read(body, cat, Seq::empty())
        == Ok::<Seq<ValueV>, crate::error::Fail>(seq![ValueV::Object(rv)]));
    assert(spec_read_asterix(input, cat).0 == Ok::<ObjectV, crate::error::Fail>(r));
    assert forall|k: Seq<char>| #[trigger] obj_get(r, k) == record_read_back(cat, o, k) by {
        lemma_read_result(cat, u, o, k);
    }
}

/// The bytes of the items written for a record, after its FSPEC.
pub open spec fn record_items_bytes(cat: Category, u: nat, o: ObjectV) -> Seq<u8> {
    record_body(cat, u, o).skip(record_fspec(cat, u, o).len() as int)
}

/// The UAP `u` is the one writing picks for the record `o`, and the one
/// reading picks from the items written for it.
pub open spec fn uap_alike(cat: Category, u: nat, o: ObjectV) -> bool {
    &&& crate::write_asterix::spec_write_uap(cat, o) == u
    &&& crate::read_asterix::spec_switch_uap(record_items_bytes(cat, u, o), cat.id) == Ok::<nat, crate::error::ErrorV>(u)
}

/// What follows the items does not change the UAP that reading picks from
/// them.
proof fn lemma_switch_rest(x: Seq<u8>, id: u8, u: nat, rest: Seq<u8>)
    requires
        crate::read_asterix::spec_switch_uap(x, id) == Ok::<nat, crate::error::ErrorV>(u),
    ensures
        crate::read_asterix::spec_switch_uap(x + rest, id) == Ok::<nat, crate::error::ErrorV>(u),
{
    if id == 1 || id == 129 {
        assert((x + rest)[0] == x[0]);
    }
}

/// The object read back from a record written from `r`.
pub open spec fn record_back(cat: Category, u: nat, r: ObjectV) -> ObjectV {
    read_fold(cat, r, record_items_written(cat, u, r), 0, Seq::empty())
}

/// Records of distinct keys, each an object whose entries other than `CAT`
/// fit, and for which reading picks the UAP `u`, as writing does.
pub open spec fn records_fit(cat: Category, u: nat, rs: Seq<ValueV>) -> bool {
    forall|j: int| 0 <= j < rs.len() ==> {
        &&& #[trigger] rs[j] is Object
        &&& entries_fit(cat, u, rs[j]->Object_0)
        &&& uap_alike(cat, u, rs[j]->Object_0)
        &&& rs[j]->Object_0.len() <= usize::MAX
    }
}

/// The bytes written for the records from the `k`-th on.
pub open spec fn bodies(cat: Category, u: nat, rs: Seq<ValueV>, k: nat) -> Seq<u8>
    decreases rs.len() - k,
{
    if k >= rs.len() {
        Seq::empty()
    } else {
        record_body(cat, u, rs[k as int]->Object_0) + bodies(cat, u, rs, k + 1)
    }
}

/// The objects read back from a list of records.
pub open spec fn records_back(cat: Category, u: nat, rs: Seq<ValueV>) -> Seq<ValueV> {
    Seq::new(rs.len(), |j: int| ValueV::Object(record_back(cat, u, rs[j]->Object_0)))
}

/// A record that fits and is written is written as its FSPEC and items.
proof fn lemma_record_write_ok(cat: Category, u: nat, r: ObjectV)
    requires
        crate::write_asterix::spec_write_uap(cat, r) == u,
        u < cat.uaps@.len(),
        r.len() <= usize::MAX,
        entries_fit(cat, u, r),
        crate::write_asterix::spec_write_record(cat, r) is Ok,
    ensures
        crate::write_asterix::spec_write_fspec(item_frns(record_items_written(cat, u, r))) is Ok,
        record_write(cat, r, record_items_written(cat, u, r), 0, record_fspec(cat, u, r)) is Ok,
        crate::write_asterix::spec_write_record(cat, r) == Ok::<Seq<u8>, crate::error::Fail>(record_body(cat, u, r)),
{
    lemma_present_entries(cat, u, r);
}

/// The records of a list are written one after another.
proof fn lemma_records_write(cat: Category, u: nat, rs: Seq<ValueV>, k: nat, acc: Seq<u8>)
    requires
        u < cat.uaps@.len(),
        k <= rs.len(),
        records_fit(cat, u, rs),
        crate::write_asterix::records_write(cat, rs, k, acc) is Ok,
    ensures
        crate::write_asterix::records_write(cat, rs, k, acc) == Ok::<Seq<u8>, crate::error::Fail>(acc + bodies(cat, u, rs, k)),
    decreases rs.len() - k,
{
    if k < rs.len() {
        let r = rs[k as int]->Object_0;
        assert(rs[k as int] is Object);
        lemma_record_write_ok(cat, u, r);
        lemma_records_write(cat, u, rs, k + 1, acc + record_body(cat, u, r));
        assert(acc + record_body(cat, u, r) + bodies(cat, u, rs, k + 1) =~= acc + bodies(cat, u, rs, k));
    } else {
        assert(acc + bodies(cat, u, rs, k) =~= acc);
    }
}

/// Reading the bytes written for a list of records gives the records back.
proof fn lemma_records_read(cat: Category, u: nat, rs: Seq<ValueV>, k: nat, wacc: Seq<u8>, racc: Seq<ValueV>)
    requires
        u < cat.uaps@.len(),
        cat.data_items@.len() <= usize::MAX,
        wf_uap(uap_at(cat, u)),
        k <= rs.len(),
        records_fit(cat, u, rs),
        crate::write_asterix::records_write(cat, rs, k, wacc) is Ok,
    ensures
        crate::read_asterix::records_read(bodies(cat, u, rs, k), cat, racc)
            == Ok::<Seq<ValueV>, crate::error::Fail>(racc + records_back(cat, u, rs).skip(k as int)),
    decreases rs.len() - k,
{
    if k < rs.len() {
        let r = rs[k as int]->Object_0;
        assert(rs[k as int] is Object);
        lemma_record_write_ok(cat, u, r);
        let tail = bodies(cat, u, rs, k + 1);
        lemma_read_body(cat, u, r, tail);
        crate::read_asterix::lemma_record_progress(bodies(cat, u, rs, k), cat);
        let racc2 = racc.push(ValueV::Object(record_back(cat, u, r)));
        lemma_records_read(cat, u, rs, k + 1, wacc + record_body(cat, u, r), racc2);
        assert(racc2 + records_back(cat, u, rs).skip(k + 1 as int) =~= racc + records_back(cat, u, rs).skip(k as int));
    } else {
        assert(racc + records_back(cat, u, rs).skip(k as int) =~= racc);
    }
}

/// A data block written from a list of records, other than a list of one,
/// is read back as the list: the block holds the category and the records,
/// read whole whatever follows it, and the object read has the category as
/// `CAT` and the records read back, in order, under `records`. Each record
/// read back has every key of the record but `CAT`, with its item read
/// back. This holds where, for every record, reading picks the UAP `u` that
/// writing picked, whose items come in FRN order, each named once; and for
/// records of distinct keys whose items are items of plain fields that the
/// values fit, as for a single record.
#[verifier::spinoff_prover]
#[verifier::rlimit(50)]
pub proof fn lemma_records_roundtrip(cat: Category, u: nat, o: ObjectV, rs: Seq<ValueV>, rest: Seq<u8>)
    requires
        u < cat.uaps@.len(),
        cat.data_items@.len() <= usize::MAX,
        wf_uap(uap_at(cat, u)),
        declared_category(o) == Some(cat.id as u64),
        obj_get(o, "records"@) == Some(ValueV::Array(rs)),
        rs.len() != 1,
        records_fit(cat, u, rs),
        spec_write_asterix(cat, o) is Ok,
    ensures
        spec_read_asterix(spec_write_asterix(cat, o)->Ok_0 + rest, cat).1 == rest,
        spec_read_asterix(spec_write_asterix(cat, o)->Ok_0 + rest, cat).0 == Ok::<ObjectV, crate::error::Fail>(seq![
            ("CAT"@, ValueV::Number(Number::PosInt(cat.id as u64), Seq::empty())),
            ("records"@, ValueV::Array(records_back(cat, u, rs))),
        ]),
        forall|j: int, k: Seq<char>| 0 <= j < rs.len() && k != "CAT"@
            ==> #[trigger] obj_get(record_back(cat, u, rs[j]->Object_0), k) == record_read_back(cat, rs[j]->Object_0, k),
{
    reveal(crate::write_asterix::spec_write_body);
    let b = crate::write_asterix::records_write(cat, rs, 0, Seq::empty());
    assert(b is Ok);
    lemma_records_write(cat, u, rs, 0, Seq::empty());
    lemma_records_read(cat, u, rs, 0, Seq::empty(), Seq::empty());
    let body = bodies(cat, u, rs, 0);
    assert(Seq::<u8>::empty() + body =~= body);
    assert(Seq::<ValueV>::empty() + records_back(cat, u, rs).skip(0) =~= records_back(cat, u, rs));
    let len = body.len() + 3;
    let input = spec_write_asterix(cat, o)->Ok_0 + rest;
    assert(input[0] == cat.id);
    assert(input[1] as int * 256 + input[2] as int == len);
    assert(input.subrange(3, len as int) =~= body);
    assert(input.skip(len as int) =~= rest);
    assert forall|j: int, k: Seq<char>| 0 <= j < rs.len() && k != "CAT"@
        implies #[trigger] obj_get(record_back(cat, u, rs[j]->Object_0), k) == record_read_back(cat, rs[j]->Object_0, k) by {
        let r = rs[j]->Object_0;
        assert(rs[j] is Object);
        lemma_read_result(cat, u, r, k);
        lemma_obj_get_insert(record_back(cat, u, r), "CAT"@, ValueV::Number(Number::PosInt(cat.id as u64), Seq::empty()), k);
    }
}

} // verus!
