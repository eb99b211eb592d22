//! Structured values: what ASTERIX data is read into and written from, in the
//! shape of JSON values.
use vstd::prelude::*;
use crate::strings::str_eq;

verus! {

broadcast use vstd::std_specs::vec::group_vec_axioms;

/// A number as JSON holds it: a non-negative or a negative integer, or a
/// floating-point number kept as the bit pattern of its `f64`.
#[derive(Debug, Clone, Copy, PartialEq, Eq, Structural)]
pub enum Number {
    /// A non-negative integer.
    PosInt(u64),
    /// A negative integer.
    NegInt(i64),
    /// A floating-point number, as the bits of its `f64`.
    Float(u64),
}

/// A number divided by a scale and rounded to the nearest integer.
#[derive(Debug, Clone, Copy, PartialEq, Eq, Structural)]
pub struct Scaled {
    /// The scale, as the bits of an `f64`.
    pub scale: u64,
    /// The rounded quotient.
    pub raw: i64,
}

/// A JSON number, with its rounded quotients by the scales of the fields it
/// may be written to.
#[derive(Debug, Clone, PartialEq)]
pub struct JsonNumber {
    /// The number.
    pub n: Number,
    /// Its rounded quotients by scales.
    pub by_scale: Vec<Scaled>,
}

/// A scaled field as read: its raw value and its scale; it stands for the
/// number `raw * scale`.
#[derive(Debug, Clone, Copy, PartialEq, Eq, Structural)]
pub struct Quantity {
    /// The raw value of the field.
    pub raw: i64,
    /// The scale of the field, as the bits of an `f64`.
    pub scale: u64,
}

/// A structured value.
#[derive(Debug, PartialEq)]
pub enum Value {
    /// No value.
    Null,
    /// A boolean.
    Bool(bool),
    /// A number.
    Number(JsonNumber),
    /// A scaled field.
    Quantity(Quantity),
    /// A string.
    Str(String),
    /// An array.
    Array(Vec<Value>),
    /// An object.
    Object(Object),
}

/// An object: keys and their values, each key once.
#[derive(Debug, PartialEq)]
pub struct Object {
    /// The entries, in insertion order.
    pub entries: Vec<(String, Value)>,
}

/// The mathematical model of a value.
pub enum ValueV {
    Null,
    Bool(bool),
    Number(Number, Seq<Scaled>),
    Quantity(Quantity),
    Str(Seq<char>),
    Array(Seq<ValueV>),
    Object(Seq<(Seq<char>, ValueV)>),
}

/// The model of an object: its entries in order.
pub type ObjectV = Seq<(Seq<char>, ValueV)>;

pub open spec fn value_view(v: Value) -> ValueV
    decreases v,
{
    match v {
        Value::Null => ValueV::Null,
        Value::Bool(b) => ValueV::Bool(b),
        Value::Number(jn) => ValueV::Number(jn.n, jn.by_scale@),
        Value::Quantity(q) => ValueV::Quantity(q),
        Value::Str(s) => ValueV::Str(s@),
        Value::Array(a) => ValueV::Array(values_view(a@)),
        Value::Object(o) => ValueV::Object(entries_view(o.entries@)),
    }
}

pub open spec fn values_view(s: Seq<Value>) -> Seq<ValueV>
    decreases s,
{
    if s.len() == 0 {
        Seq::empty()
    } else {
        values_view(s.subrange(0, s.len() - 1)).push(value_view(s[s.len() - 1]))
    }
}

pub open spec fn entries_view(s: Seq<(String, Value)>) -> ObjectV
    decreases s,
{
    if s.len() == 0 {
        Seq::empty()
    } else {
        entries_view(s.subrange(0, s.len() - 1)).push((s[s.len() - 1].0@, value_view(s[s.len() - 1].1)))
    }
}

impl View for Value {
    type V = ValueV;

    open spec fn view(&self) -> ValueV {
        value_view(*self)
    }
}

impl View for Object {
    type V = ObjectV;

    open spec fn view(&self) -> ObjectV {
        entries_view(self.entries@)
    }
}

pub proof fn lemma_entries_view_len(s: Seq<(String, Value)>)
    ensures
        entries_view(s).len() == s.len(),
    decreases s.len(),
{
    if s.len() > 0 {
        lemma_entries_view_len(s.subrange(0, s.len() - 1));
    }
}

pub proof fn lemma_entries_view_index(s: Seq<(String, Value)>, i: int)
    requires
        0 <= i < s.len(),
    ensures
        entries_view(s)[i] == (s[i].0@, value_view(s[i].1)),
    decreases s.len(),
{
    lemma_entries_view_len(s.subrange(0, s.len() - 1));
    if i < s.len() - 1 {
        lemma_entries_view_index(s.subrange(0, s.len() - 1), i);
    }
}

pub proof fn lemma_entries_view_push(s: Seq<(String, Value)>, e: (String, Value))
    ensures
        entries_view(s.push(e)) == entries_view(s).push((e.0@, value_view(e.1))),
{
    assert(s.push(e).subrange(0, s.len() as int) =~= s);
}

pub proof fn lemma_values_view_push(s: Seq<Value>, v: Value)
    ensures
        values_view(s.push(v)) == values_view(s).push(value_view(v)),
{
    assert(s.push(v).subrange(0, s.len() as int) =~= s);
}

pub proof fn lemma_values_view_len(s: Seq<Value>)
    ensures
        values_view(s).len() == s.len(),
    decreases s.len(),
{
    if s.len() > 0 {
        lemma_values_view_len(s.subrange(0, s.len() - 1));
    }
}

pub proof fn lemma_values_view_index(s: Seq<Value>, i: int)
    requires
        0 <= i < s.len(),
    ensures
        values_view(s)[i] == value_view(s[i]),
    decreases s.len(),
{
    lemma_values_view_len(s.subrange(0, s.len() - 1));
    if i < s.len() - 1 {
        lemma_values_view_index(s.subrange(0, s.len() - 1), i);
    }
}

pub proof fn lemma_entries_view_update(s: Seq<(String, Value)>, i: int, e: (String, Value))
    requires
        0 <= i < s.len(),
    ensures
        entries_view(s.update(i, e)) =~= entries_view(s).update(i, (e.0@, value_view(e.1))),
{
    lemma_entries_view_len(s.update(i, e));
    lemma_entries_view_len(s);
    assert forall|j: int| 0 <= j < s.len() implies entries_view(s.update(i, e))[j] == entries_view(s).update(i, (e.0@, value_view(e.1)))[j] by {
        lemma_entries_view_index(s.update(i, e), j);
        lemma_entries_view_index(s, j);
    }
}

/// Index of the entry with key `k`, if any.
pub open spec fn obj_find(o: ObjectV, k: Seq<char>) -> Option<int>
    decreases o.len(),
{
    if o.len() == 0 {
        None
    } else {
        match obj_find(o.drop_last(), k) {
            Some(i) => Some(i),
            None => if o.last().0 == k { Some(o.len() - 1) } else { None },
        }
    }
}

/// The value of key `k`, if any.
pub open spec fn obj_get(o: ObjectV, k: Seq<char>) -> Option<ValueV> {
    match obj_find(o, k) {
        Some(i) => Some(o[i].1),
        None => None,
    }
}

/// `o` with `k` set to `v`: an entry with key `k` keeps its place.
pub open spec fn obj_insert(o: ObjectV, k: Seq<char>, v: ValueV) -> ObjectV {
    match obj_find(o, k) {
        Some(i) => o.update(i, (k, v)),
        None => o.push((k, v)),
    }
}

/// `o` with every entry of `p` inserted, in order.
pub open spec fn obj_extend(o: ObjectV, p: ObjectV) -> ObjectV
    decreases p.len(),
{
    if p.len() == 0 {
        o
    } else {
        obj_insert(obj_extend(o, p.drop_last()), p.last().0, p.last().1)
    }
}

pub proof fn lemma_obj_find(o: ObjectV, k: Seq<char>)
    ensures
        obj_find(o, k) matches Some(i) ==> 0 <= i < o.len() && o[i].0 == k
            && forall|j: int| 0 <= j < i ==> (#[trigger] o[j]).0 != k,
        obj_find(o, k) is None ==> forall|j: int| 0 <= j < o.len() ==> (#[trigger] o[j]).0 != k,
    decreases o.len(),
{
    if o.len() > 0 {
        lemma_obj_find(o.drop_last(), k);
        assert forall|j: int| 0 <= j < o.len() - 1 implies o.drop_last()[j] == o[j] by {}
    }
}

pub proof fn lemma_obj_find_first(o: ObjectV, k: Seq<char>, i: int)
    requires
        0 <= i < o.len(),
        o[i].0 == k,
        forall|j: int| 0 <= j < i ==> (#[trigger] o[j]).0 != k,
    ensures
        obj_find(o, k) == Some(i),
    decreases o.len(),
{
    lemma_obj_find(o, k);
    if obj_find(o, k) is None {
        assert(o[i].0 != k);
    } else {
        let f = obj_find(o, k).unwrap();
        if f < i {
            assert(o[f].0 != k);
        } else if f > i {
            assert(o[i].0 != k);
        }
    }
}

pub proof fn lemma_obj_find_none(o: ObjectV, k: Seq<char>)
    requires
        forall|j: int| 0 <= j < o.len() ==> (#[trigger] o[j]).0 != k,
    ensures
        obj_find(o, k) is None,
{
    lemma_obj_find(o, k);
    if obj_find(o, k) is Some {
        let f = obj_find(o, k).unwrap();
        assert(o[f].0 != k);
    }
}

/// The value of `k2` after `k` is set to `v`.
pub proof fn lemma_obj_get_insert(o: ObjectV, k: Seq<char>, v: ValueV, k2: Seq<char>)
    ensures
        obj_get(obj_insert(o, k, v), k2) == if k2 == k { Some(v) } else { obj_get(o, k2) },
{
    lemma_obj_find(o, k);
    lemma_obj_find(o, k2);
    let o2 = obj_insert(o, k, v);
    match obj_find(o, k) {
        Some(i) => {
            assert(o2 == o.update(i, (k, v)));
            if k2 == k {
                lemma_obj_find_first(o2, k2, i);
            } else {
                match obj_find(o, k2) {
                    Some(j) => {
                        assert forall|m: int| 0 <= m < j implies (#[trigger] o2[m]).0 != k2 by {
                            if m != i {
                                assert(o2[m] == o[m]);
                            }
                        }
                        lemma_obj_find_first(o2, k2, j);
                    },
                    None => {
                        assert forall|m: int| 0 <= m < o2.len() implies (#[trigger] o2[m]).0 != k2 by {
                            if m != i {
                                assert(o2[m] == o[m]);
                            }
                        }
                        lemma_obj_find_none(o2, k2);
                    },
                }
            }
        },
        None => {
            assert(o2 == o.push((k, v)));
            if k2 == k {
                assert forall|m: int| 0 <= m < o.len() implies (#[trigger] o2[m]).0 != k2 by {
                    assert(o2[m] == o[m]);
                }
                lemma_obj_find_first(o2, k2, o.len() as int);
            } else {
                match obj_find(o, k2) {
                    Some(j) => {
                        assert forall|m: int| 0 <= m < j implies (#[trigger] o2[m]).0 != k2 by {
                            assert(o2[m] == o[m]);
                        }
                        lemma_obj_find_first(o2, k2, j);
                    },
                    None => {
                        assert forall|m: int| 0 <= m < o2.len() implies (#[trigger] o2[m]).0 != k2 by {
                            if m < o.len() {
                                assert(o2[m] == o[m]);
                            }
                        }
                        lemma_obj_find_none(o2, k2);
                    },
                }
            }
        },
    }
}

/// No two entries of `o` share a key.
pub open spec fn keys_distinct(o: ObjectV) -> bool {
    forall|i: int, j: int| 0 <= i < j < o.len() ==> (#[trigger] o[i]).0 != (#[trigger] o[j]).0
}

/// Setting a key keeps the keys distinct.
pub proof fn lemma_insert_distinct(o: ObjectV, k: Seq<char>, v: ValueV)
    requires
        keys_distinct(o),
    ensures
        keys_distinct(obj_insert(o, k, v)),
{
    lemma_obj_find(o, k);
    let o2 = obj_insert(o, k, v);
    assert forall|i: int, j: int| 0 <= i < j < o2.len() implies (#[trigger] o2[i]).0 != (#[trigger] o2[j]).0 by {
        match obj_find(o, k) {
            Some(f) => {
                assert(o2[i].0 == o[i].0 && o2[j].0 == o[j].0);
            },
            None => {
                if j == o.len() {
                    assert(o2[j].0 == k && o2[i] == o[i]);
                } else {
                    assert(o2[i] == o[i] && o2[j] == o[j]);
                }
            },
        }
    }
}

/// The value of a key after the entries of `p` are set: that of `p` where
/// `p` has the key (and no key twice), else the one before.
pub proof fn lemma_get_extend(a: ObjectV, p: ObjectV, k: Seq<char>)
    ensures
        obj_find(p, k) is None ==> obj_get(obj_extend(a, p), k) == obj_get(a, k),
        keys_distinct(p) && obj_find(p, k) is Some ==> obj_get(obj_extend(a, p), k) == obj_get(p, k),
    decreases p.len(),
{
    if p.len() > 0 {
        let d = p.drop_last();
        lemma_get_extend(a, d, k);
        lemma_obj_get_insert(obj_extend(a, d), p.last().0, p.last().1, k);
        lemma_obj_find(p, k);
        lemma_obj_find(d, k);
        if keys_distinct(p) {
            assert(keys_distinct(d)) by {
                assert forall|i: int, j: int| 0 <= i < j < d.len() implies (#[trigger] d[i]).0 != (#[trigger] d[j]).0 by {
                    assert(d[i] == p[i] && d[j] == p[j]);
                }
            }
            if obj_find(d, k) is Some {
                let i = obj_find(d, k)->Some_0;
                assert(d[i] == p[i]);
                assert(p.last().0 != k);
            }
        }
    }
}

impl Object {
    /// An empty object.
    pub fn new() -> (r: Object)
        ensures
            r@ == Seq::<(Seq<char>, ValueV)>::empty(),
    {
        let r = Object { entries: Vec::new() };
        assert(r.entries@ =~= Seq::<(String, Value)>::empty());
        r
    }

    /// Index of the entry with key `key`, if any.
    pub fn find(&self, key: &str) -> (r: Option<usize>)
        ensures
            match r {
                Some(k) => obj_find(self@, key@) == Some(k as int),
                None => obj_find(self@, key@) is None,
            },
    {
        let n = self.entries.len();
        proof {
            lemma_entries_view_len(self.entries@);
        }
        let mut i: usize = 0;
        while i < n
            invariant
                n == self.entries@.len(),
                n == self@.len(),
                i <= n,
                forall|j: int| 0 <= j < i ==> (#[trigger] self@[j]).0 != key@,
            decreases n - i,
        {
            proof {
                lemma_entries_view_index(self.entries@, i as int);
            }
            if str_eq(self.entries[i].0.as_str(), key) {
                proof {
                    lemma_obj_find_first(self@, key@, i as int);
                }
                return Some(i);
            }
            i = i + 1;
        }
        proof {
            lemma_obj_find_none(self@, key@);
        }
        None
    }

    /// The value of key `key`, if any.
    pub fn get(&self, key: &str) -> (r: Option<&Value>)
        ensures
            match obj_get(self@, key@) {
                Some(v) => r matches Some(x) && x@ == v,
                None => r is None,
            },
    {
        match self.find(key) {
            Some(i) => {
                proof {
                    lemma_obj_find(self@, key@);
                    lemma_entries_view_len(self.entries@);
                    lemma_entries_view_index(self.entries@, i as int);
                }
                Some(&self.entries[i].1)
            },
            None => None,
        }
    }

    /// Sets `key` to `value`; an entry with that key keeps its place.
    pub fn insert(&mut self, key: String, value: Value)
        ensures
            final(self)@ == obj_insert(old(self)@, key@, value@),
    {
        proof {
            lemma_entries_view_len(self.entries@);
        }
        match self.find(key.as_str()) {
            Some(i) => {
                proof {
                    lemma_obj_find(self@, key@);
                    lemma_entries_view_update(self.entries@, i as int, (key, value));
                }
                self.entries.set(i, (key, value));
            },
            None => {
                proof {
                    lemma_entries_view_push(self.entries@, (key, value));
                }
                self.entries.push((key, value));
            },
        }
    }

    /// Inserts every entry of `other`, in order.
    pub fn extend(&mut self, other: Object)
        ensures
            final(self)@ == obj_extend(old(self)@, other@),
    {
        let mut rest = other.entries;
        let ghost all = rest@;
        let ghost start = self@;
        proof {
            lemma_entries_view_len(all);
            assert(all.take(0) =~= Seq::<(String, Value)>::empty());
        }
        let n = rest.len();
        let mut i: usize = 0;
        while i < n
            invariant
                n == all.len(),
                i <= n,
                rest@ =~= all.skip(i as int),
                self@ == obj_extend(start, entries_view(all.take(i as int))),
            decreases n - i,
        {
            let (k, v) = rest.remove(0);
            proof {
                assert(all.take(i + 1) =~= all.take(i as int).push(all[i as int]));
                lemma_entries_view_push(all.take(i as int), all[i as int]);
                assert(entries_view(all.take(i + 1)).drop_last() =~= entries_view(all.take(i as int)));
                lemma_entries_view_len(all.take(i + 1));
                assert(rest@ =~= all.skip(i + 1));
            }
            self.insert(k, v);
            i = i + 1;
        }
        assert(all.take(n as int) =~= all);
    }
}

} // verus!
