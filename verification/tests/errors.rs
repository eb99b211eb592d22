use obj2asterix::error::{Error, InvalidSpec};
use obj2asterix::read_asterix::read_asterix;
use obj2asterix::spec_xml::{
    Bits, Category, Compound, DataItem, DataItemFormat, Explicit, Fixed, Format, Repetitive, Variable, UAP, UAPItem,
};
use obj2asterix::value::{JsonNumber, Number, Object, Value};
use obj2asterix::write_asterix::write_asterix;

fn field(name: &str, from: u32, to: u32) -> Bits {
    Bits {
        bit: None,
        from: Some(from),
        to: Some(to),
        fx: None,
        rep: None,
        encode: None,
        short_name: name.to_string(),
        cons: None,
        name: None,
        values: vec![],
        unit: None,
        presence: None,
        condition: None,
    }
}

fn one_bit(name: &str, bit: u32) -> Bits {
    Bits { bit: Some(bit), from: None, to: None, ..field(name, 0, 0) }
}

fn fx_bit(bit: u32) -> Bits {
    Bits { fx: Some(1), ..one_bit("FX", bit) }
}

fn fixed(length: u32, bits: Vec<Bits>) -> Format {
    Format::Fixed(Fixed { length, bits })
}

fn item(id: &str, format: Format) -> DataItem {
    DataItem {
        id: id.to_string(),
        rule: None,
        name: String::new(),
        definition: String::new(),
        format: DataItemFormat { desc: None, format },
        note: None,
    }
}

/// A category of data items under a UAP of `(frn, name)` pairs.
fn category(id: u8, data_items: Vec<DataItem>, uap: &[(&str, &str)]) -> Category {
    let items = uap
        .iter()
        .map(|(frn, name)| UAPItem { bit: 0, frn: frn.to_string(), len: None, name: name.to_string() })
        .collect();
    Category {
        id,
        name: String::new(),
        ver: String::new(),
        data_items,
        uaps: vec![UAP { use_if_bit_set: None, use_if_byte_nr: None, is_set_to: None, items }],
    }
}

/// A category of one item `I` at FRN 1 with the given format.
fn cat_with(format: Format) -> Category {
    category(48, vec![item("I", format)], &[("1", "I")])
}

fn uint(u: u64) -> Value {
    Value::Number(JsonNumber { n: Number::PosInt(u), by_scale: vec![] })
}

fn obj(entries: Vec<(&str, Value)>) -> Object {
    Object { entries: entries.into_iter().map(|(k, v)| (k.to_string(), v)).collect() }
}

fn record(key: &str, value: Value) -> Object {
    obj(vec![("CAT", uint(48)), (key, value)])
}

fn write(cat: &Category, json: &Object) -> Result<Vec<u8>, Error> {
    let mut out = Vec::new();
    write_asterix(&mut out, cat, json)?;
    Ok(out)
}

fn read(cat: &Category, input: &[u8]) -> Result<Object, Error> {
    let mut reader: &[u8] = input;
    read_asterix(&mut reader, cat)
}

fn spec_error(r: Result<impl std::fmt::Debug, Error>) -> InvalidSpec {
    match r {
        Err(Error::InvalidSpec { child }) => child,
        other => panic!("expected an error of the specification, got {:?}", other),
    }
}

fn x_object(x: u64) -> Value {
    Value::Object(obj(vec![("X", uint(x))]))
}

#[test]
fn too_many_repetitive_items() {
    let cat = cat_with(Format::Repetitive(Repetitive { formats: vec![fixed(1, vec![field("X", 8, 1)])] }));
    let items = Value::Array((0..256).map(|_| x_object(0)).collect());
    assert!(matches!(
        write(&cat, &record("I", items)),
        Err(Error::TooManyRepetitiveItems { count: 256, limit: 256 })
    ));
}

#[test]
fn too_many_bytes_written() {
    let cat = cat_with(Format::Repetitive(Repetitive { formats: vec![fixed(1, vec![field("X", 8, 1)])] }));
    let one = || Value::Object(obj(vec![("I", Value::Array((0..255).map(|_| x_object(0)).collect()))]));
    let records = Value::Array((0..260).map(|_| one()).collect());
    let json = obj(vec![("CAT", uint(48)), ("records", records)]);
    let mut out = vec![7u8];
    let r = write_asterix(&mut out, &cat, &json);
    // every record takes an FSPEC byte, the count and 255 items
    assert!(matches!(r, Err(Error::TooManyBytesWritten { written: 66823, limit: 65536 })));
    // the header keeps its zero length, and the records stay written
    assert_eq!(out.len(), 1 + 66823);
    assert_eq!(&out[..4], &[7, 48, 0, 0]);
}

#[test]
fn too_many_bytes_in_an_explicit_item() {
    let bits = || (0..8).map(|k| field(&format!("X{k}"), 64 - 8 * k, 57 - 8 * k)).collect::<Vec<Bits>>();
    let formats = (0..32).map(|_| fixed(8, bits())).collect();
    let cat = cat_with(Format::Explicit(Explicit { formats }));
    let value = Value::Object(obj(vec![]));
    assert!(matches!(
        write(&cat, &record("I", value)),
        Err(Error::TooManyBytesWritten { written: 257, limit: 256 })
    ));
}

#[test]
fn explicit_with_data_left() {
    let cat = cat_with(Format::Explicit(Explicit { formats: vec![fixed(1, vec![field("X", 8, 1)])] }));
    assert!(matches!(read(&cat, &[48, 0, 7, 0x80, 3, 5, 9]), Err(Error::ExplicitHasDataLeft)));
}

#[test]
fn frn_not_a_number() {
    let cat = category(48, vec![item("I", fixed(1, vec![field("X", 8, 1)]))], &[("one", "I")]);
    assert!(matches!(spec_error(read(&cat, &[48, 0, 4, 0x80])), InvalidSpec::FrnNotANumber { field } if field == "I"));
    assert!(matches!(spec_error(write(&cat, &record("I", x_object(1)))), InvalidSpec::FrnNotANumber { field } if field == "I"));
}

#[test]
fn frn_is_zero() {
    let cat = category(48, vec![item("I", fixed(1, vec![field("X", 8, 1)]))], &[("0", "I")]);
    assert!(matches!(spec_error(read(&cat, &[48, 0, 4, 0x80])), InvalidSpec::FrnIsZero { field } if field == "I"));
    assert!(matches!(spec_error(write(&cat, &record("I", x_object(1)))), InvalidSpec::FrnIsZero { field } if field == "I"));
}

#[test]
fn missing_data_item() {
    let cat = category(48, vec![item("I", fixed(1, vec![field("X", 8, 1)]))], &[("1", "J")]);
    assert!(matches!(spec_error(read(&cat, &[48, 0, 4, 0x80])), InvalidSpec::MissingDataItem { field } if field == "J"));
    assert!(matches!(spec_error(write(&cat, &record("J", x_object(1)))), InvalidSpec::MissingDataItem { field } if field == "J"));
}

#[test]
fn fx_used_twice() {
    let cat = cat_with(Format::Variable(Variable {
        formats: vec![fixed(1, vec![field("X", 8, 3), fx_bit(2), fx_bit(1)])],
    }));
    assert!(matches!(spec_error(read(&cat, &[48, 0, 5, 0x80, 0x04])), InvalidSpec::FxUsedTwice));
    let items = Value::Array(vec![x_object(1)]);
    assert!(matches!(spec_error(write(&cat, &record("I", items))), InvalidSpec::FxUsedTwice));
}

#[test]
fn fx_not_used() {
    let cat = cat_with(Format::Variable(Variable {
        formats: vec![fixed(1, vec![field("X", 8, 1)]), fixed(1, vec![field("Y", 8, 1)])],
    }));
    assert!(matches!(spec_error(read(&cat, &[48, 0, 5, 0x80, 0x04])), InvalidSpec::FxNotUsed));
    assert!(matches!(spec_error(write(&cat, &record("I", x_object(1)))), InvalidSpec::FxNotUsed));
}

#[test]
fn expected_fixed_in_variable() {
    let rep = Format::Repetitive(Repetitive { formats: vec![fixed(1, vec![field("X", 8, 1)])] });
    let cat = cat_with(Format::Variable(Variable { formats: vec![rep] }));
    assert!(matches!(spec_error(read(&cat, &[48, 0, 5, 0x80, 0x00])), InvalidSpec::ExpectedFixedInVariable));
    let items = Value::Array(vec![x_object(1)]);
    assert!(matches!(spec_error(write(&cat, &record("I", items))), InvalidSpec::ExpectedFixedInVariable));
}

#[test]
fn expected_variable_in_compound() {
    let cat = cat_with(Format::Compound(Compound { formats: vec![fixed(1, vec![field("X", 8, 1)])] }));
    assert!(matches!(spec_error(read(&cat, &[48, 0, 5, 0x80, 0x00])), InvalidSpec::ExpectedVariableInCompound));
    let value = Value::Object(obj(vec![]));
    assert!(matches!(spec_error(write(&cat, &record("I", value))), InvalidSpec::ExpectedVariableInCompound));
}

#[test]
fn bad_bit_combination() {
    let bad = Bits { bit: Some(3), ..field("X", 8, 1) };
    let cat = cat_with(fixed(1, vec![bad]));
    assert!(matches!(
        spec_error(read(&cat, &[48, 0, 5, 0x80, 0x00])),
        InvalidSpec::BadBitCombination { bit: Some(3), from: Some(8), to: Some(1) }
    ));
    assert!(matches!(
        spec_error(write(&cat, &record("I", x_object(1)))),
        InvalidSpec::BadBitCombination { bit: Some(3), from: Some(8), to: Some(1) }
    ));
}

fn compound_of(head: Vec<Bits>) -> Category {
    cat_with(Format::Compound(Compound {
        formats: vec![Format::Variable(Variable { formats: vec![fixed(1, head)] }), fixed(1, vec![field("X", 8, 1)])],
    }))
}

#[test]
fn invalid_compound_subitem() {
    // a subitem named by a range of bits, not by one bit
    let cat = compound_of(vec![field("S", 8, 2), fx_bit(1)]);
    assert!(matches!(spec_error(read(&cat, &[48, 0, 6, 0x80, 0x80, 0x05])), InvalidSpec::InvalidCompoundSubitem));
    let value = Value::Object(obj(vec![("S", x_object(5))]));
    assert!(matches!(spec_error(write(&cat, &record("I", value))), InvalidSpec::InvalidCompoundSubitem));
    // a subitem with no place among the formats
    let cat = compound_of(vec![one_bit("S", 8), field("spare", 7, 2), fx_bit(1)]);
    assert!(matches!(spec_error(read(&cat, &[48, 0, 6, 0x80, 0x80, 0x05])), InvalidSpec::InvalidCompoundSubitem));
    let value = Value::Object(obj(vec![("S", x_object(5))]));
    assert!(matches!(spec_error(write(&cat, &record("I", value))), InvalidSpec::InvalidCompoundSubitem));
}

#[test]
fn compound_subitem_out_of_range() {
    let cat = compound_of(vec![Bits { presence: Some(5), ..one_bit("S", 8) }, field("spare", 7, 2), fx_bit(1)]);
    assert!(matches!(spec_error(read(&cat, &[48, 0, 6, 0x80, 0x80, 0x05])), InvalidSpec::CompoundSubitemOob));
    let value = Value::Object(obj(vec![("S", x_object(5))]));
    assert!(matches!(spec_error(write(&cat, &record("I", value))), InvalidSpec::CompoundSubitemOob));
}

#[test]
fn uap_index_out_of_range() {
    let mut cat = cat_with(fixed(1, vec![field("X", 8, 1)]));
    cat.uaps.clear();
    assert!(matches!(spec_error(read(&cat, &[48, 0, 5, 0x80, 0x05])), InvalidSpec::UapIndexOob));
}
