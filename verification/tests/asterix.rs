use obj2asterix::error::{Error, InvalidSpec};
use obj2asterix::read_asterix::read_asterix;
use obj2asterix::spec_xml::{
    Bits, BitsCondition, BitsUnit, Category, Compound, DataItem, DataItemFormat, Encode, Explicit, Fixed, Format,
    Repetitive, Variable, UAP, UAPItem,
};
use obj2asterix::unit::Unit;
use obj2asterix::value::{JsonNumber, Number, Object, Quantity, Scaled, Value};
use obj2asterix::write_asterix::write_asterix;

const QUARTER: u64 = 0x3fd0_0000_0000_0000; // 0.25_f64

fn field(name: &str, from: u32, to: u32) -> Bits {
    Bits {
        bit: None,
        from: Some(from),
        to: Some(to),
        fx: None,
        rep: None,
        encode: None,
        short_name: name.to_string(),
        cons: None,
        name: None,
        values: vec![],
        unit: None,
        presence: None,
        condition: None,
    }
}

fn one_bit(name: &str, bit: u32) -> Bits {
    Bits { bit: Some(bit), from: None, to: None, ..field(name, 0, 0) }
}

fn fx_bit() -> Bits {
    Bits { fx: Some(1), ..one_bit("FX", 1) }
}

fn encoded(name: &str, from: u32, to: u32, encode: Encode) -> Bits {
    Bits { encode: Some(encode), ..field(name, from, to) }
}

fn scaled(name: &str, from: u32, to: u32, scale: u64) -> Bits {
    Bits {
        encode: Some(Encode::Signed),
        unit: Some(BitsUnit { min: None, max: None, scale: Some(scale), unit: Unit::Meter }),
        ..field(name, from, to)
    }
}

fn fixed(length: u32, bits: Vec<Bits>) -> Format {
    Format::Fixed(Fixed { length, bits })
}

fn item(id: &str, format: Format) -> DataItem {
    DataItem {
        id: id.to_string(),
        rule: None,
        name: String::new(),
        definition: String::new(),
        format: DataItemFormat { desc: None, format },
        note: None,
    }
}

fn uap_item(frn: &str, name: &str) -> UAPItem {
    UAPItem { bit: 0, frn: frn.to_string(), len: None, name: name.to_string() }
}

fn category(id: u8, data_items: Vec<DataItem>, names: &[&str]) -> Category {
    let mut items = Vec::new();
    for (i, name) in names.iter().enumerate() {
        items.push(uap_item(&(i + 1).to_string(), name));
    }
    Category {
        id,
        name: String::new(),
        ver: String::new(),
        data_items,
        uaps: vec![UAP { use_if_bit_set: None, use_if_byte_nr: None, is_set_to: None, items }],
    }
}

/// Item 010 (SAC/SIC) at FRN 1 and item 210 (Ax/Ay, signed, 0.25) at FRN 8.
fn cat062() -> Category {
    category(
        62,
        vec![
            item("010", fixed(2, vec![field("SAC", 16, 9), field("SIC", 8, 1)])),
            item("210", fixed(2, vec![scaled("Ax", 16, 9, QUARTER), scaled("Ay", 8, 1, QUARTER)])),
        ],
        &["010", "-", "015", "070", "105", "100", "185", "210"],
    )
}

/// A category of one item `I` at FRN 1 with the given format.
fn cat_with(format: Format) -> Category {
    category(48, vec![item("I", format)], &["I"])
}

fn uint(u: u64) -> Value {
    Value::Number(JsonNumber { n: Number::PosInt(u), by_scale: vec![] })
}

fn obj(entries: Vec<(&str, Value)>) -> Object {
    Object { entries: entries.into_iter().map(|(k, v)| (k.to_string(), v)).collect() }
}

fn record(cat: u64, key: &str, value: Value) -> Object {
    obj(vec![("CAT", uint(cat)), (key, value)])
}

fn write(cat: &Category, json: &Object) -> Result<Vec<u8>, Error> {
    let mut out = Vec::new();
    write_asterix(&mut out, cat, json)?;
    Ok(out)
}

#[test]
fn reads_the_readme_example() {
    let cat = cat062();
    let input: Vec<u8> = vec![0x3E, 0x00, 0x06, 0x80, 0xB0, 0xB1];
    let mut reader: &[u8] = &input;
    let value = read_asterix(&mut reader, &cat).unwrap();
    assert!(reader.is_empty());
    assert_eq!(value.get("CAT"), Some(&uint(62)));
    assert_eq!(
        value.get("010"),
        Some(&Value::Object(obj(vec![("SAC", uint(176)), ("SIC", uint(177))])))
    );
    // writing the value back gives the same bytes
    assert_eq!(write(&cat, &value).unwrap(), input);
}

#[test]
fn reads_scaled_signed_fields() {
    let cat = cat062();
    let input: Vec<u8> = vec![62, 0, 9, 129, 128, 176, 177, 136, 153];
    let mut reader: &[u8] = &input;
    let value = read_asterix(&mut reader, &cat).unwrap();
    let expect_210 = obj(vec![
        ("Ax", Value::Quantity(Quantity { raw: -120, scale: QUARTER })),
        ("Ay", Value::Quantity(Quantity { raw: -103, scale: QUARTER })),
    ]);
    assert_eq!(value.get("210"), Some(&Value::Object(expect_210)));
    assert_eq!(write(&cat, &value).unwrap(), input);
}

#[test]
fn writes_numbers_by_their_quotients() {
    let cat = cat062();
    let ax = Value::Number(JsonNumber {
        n: Number::Float((-30.0f64).to_bits()),
        by_scale: vec![Scaled { scale: QUARTER, raw: -120 }],
    });
    let ay = Value::Number(JsonNumber {
        n: Number::Float((-25.75f64).to_bits()),
        by_scale: vec![Scaled { scale: QUARTER, raw: -103 }],
    });
    let json = obj(vec![
        ("010", Value::Object(obj(vec![("SAC", uint(176)), ("SIC", uint(177))]))),
        ("210", Value::Object(obj(vec![("Ax", ax), ("Ay", ay)]))),
        ("CAT", uint(62)),
    ]);
    assert_eq!(write(&cat, &json).unwrap(), vec![62, 0, 9, 129, 128, 176, 177, 136, 153]);
}

#[test]
fn write_appends_to_the_writer() {
    let cat = cat062();
    let json = record(62, "010", Value::Object(obj(vec![("SAC", uint(1)), ("SIC", uint(2))])));
    let mut out = vec![0xaa];
    write_asterix(&mut out, &cat, &json).unwrap();
    assert_eq!(out, vec![0xaa, 62, 0, 6, 0x80, 1, 2]);
}

#[test]
fn writes_several_records() {
    let cat = cat062();
    let r1 = Value::Object(obj(vec![("010", Value::Object(obj(vec![("SAC", uint(1)), ("SIC", uint(2))])))]));
    let r2 = Value::Object(obj(vec![("010", Value::Object(obj(vec![("SAC", uint(3))])))]));
    let json = obj(vec![("CAT", uint(62)), ("records", Value::Array(vec![r1, r2]))]);
    assert_eq!(write(&cat, &json).unwrap(), vec![62, 0, 9, 0x80, 1, 2, 0x80, 3, 0]);
}

#[test]
fn write_errors() {
    let cat = cat062();
    let sac = Value::Object(obj(vec![("SAC", uint(1))]));
    let no_cat = obj(vec![("010", sac)]);
    assert!(matches!(write(&cat, &no_cat), Err(Error::MismatchedCategory { category: 62, got: None })));
    let other = record(48, "010", Value::Object(obj(vec![])));
    assert!(matches!(write(&cat, &other), Err(Error::MismatchedCategory { category: 62, got: Some(48) })));
    match write(&cat, &record(62, "999", uint(1))) {
        Err(Error::InvalidCategoryField { category, field }) => {
            assert_eq!(category, 62);
            assert_eq!(field, "999");
        }
        other => panic!("unexpected {other:?}"),
    }
    assert!(matches!(write(&cat, &record(62, "010", uint(1))), Err(Error::ExpectedMap)));
    let text = Value::Object(obj(vec![("SAC", Value::Str("x".to_string()))]));
    match write(&cat, &record(62, "010", text)) {
        Err(Error::ExpectedNumber { field }) => assert_eq!(field, "SAC"),
        other => panic!("unexpected {other:?}"),
    }
    let json = obj(vec![("CAT", uint(62)), ("records", Value::Array(vec![uint(3)]))]);
    assert!(matches!(write(&cat, &json), Err(Error::ExpectedMap)));
}

#[test]
fn read_errors() {
    let cat = cat062();
    let short: Vec<u8> = vec![62, 0];
    let mut reader: &[u8] = &short;
    assert!(matches!(read_asterix(&mut reader, &cat), Err(Error::ReadingOob)));
    let wrong: Vec<u8> = vec![48, 0, 4, 0];
    let mut reader: &[u8] = &wrong;
    assert!(matches!(
        read_asterix(&mut reader, &cat),
        Err(Error::MismatchedCategory { category: 62, got: Some(48) })
    ));
    let too_long: Vec<u8> = vec![62, 0, 9, 0x80];
    let mut reader: &[u8] = &too_long;
    assert!(matches!(read_asterix(&mut reader, &cat), Err(Error::ReadingOob)));
    // FRN 2 is a spare position
    let unknown: Vec<u8> = vec![62, 0, 4, 0x40];
    let mut reader: &[u8] = &unknown;
    assert!(matches!(
        read_asterix(&mut reader, &cat),
        Err(Error::UnknownFspecField { byte: 0x40, index: 0 })
    ));
}

#[test]
fn octal_fields() {
    let cat = cat_with(fixed(2, vec![field("spare", 16, 13), encoded("M3A", 12, 1, Encode::Octal)]));
    let json = record(48, "I", Value::Object(obj(vec![("M3A", uint(1234))])));
    assert_eq!(write(&cat, &json).unwrap(), vec![48, 0, 6, 0x80, 0x02, 0x9c]);
    let bad = record(48, "I", Value::Object(obj(vec![("M3A", uint(1289))])));
    assert!(matches!(write(&cat, &bad), Err(Error::InvalidOcatlCode { code: 1289 })));
    let five = cat_with(fixed(1, vec![field("spare", 8, 6), encoded("C", 5, 1, Encode::Octal)]));
    let json = record(48, "I", Value::Object(obj(vec![("C", uint(73))])));
    assert_eq!(write(&five, &json).unwrap(), vec![48, 0, 5, 0x80, 0x1f]);
    let bad = record(48, "I", Value::Object(obj(vec![("C", uint(74))])));
    assert!(matches!(write(&five, &bad), Err(Error::InvalidOcatlCode { code: 74 })));
}

#[test]
fn ascii_fields() {
    let cat = cat_with(fixed(2, vec![encoded("CS", 16, 1, Encode::Ascii)]));
    let json = record(48, "I", Value::Object(obj(vec![("CS", Value::Str("A".to_string()))])));
    assert_eq!(write(&cat, &json).unwrap(), vec![48, 0, 6, 0x80, 0x41, 0x20]);
    let long = record(48, "I", Value::Object(obj(vec![("CS", Value::Str("ABC".to_string()))])));
    assert!(matches!(write(&cat, &long), Err(Error::AsciiStringTooLong { .. })));
    let tab = record(48, "I", Value::Object(obj(vec![("CS", Value::Str("\t".to_string()))])));
    assert!(matches!(write(&cat, &tab), Err(Error::InvalidAsciiChar { chr: '\t', .. })));
    let num = record(48, "I", Value::Object(obj(vec![("CS", uint(1))])));
    assert!(matches!(write(&cat, &num), Err(Error::ExpectedStringForAscii { .. })));
    let odd = cat_with(fixed(2, vec![field("spare", 16, 13), encoded("CS", 12, 1, Encode::Ascii)]));
    assert!(matches!(
        write(&odd, &json),
        Err(Error::InvalidSpec { child: InvalidSpec::BadAsciiLength { .. } })
    ));
}

#[test]
fn six_bit_character_fields() {
    let cat = cat_with(fixed(6, vec![encoded("ID", 48, 1, Encode::SixBitsChar)]));
    let json = record(48, "I", Value::Object(obj(vec![("ID", Value::Str("AB1".to_string()))])));
    let code = obj2asterix::ais_code::encode_ais("AB1", 8).unwrap();
    let mut expected = vec![48, 0, 10, 0x80];
    expected.extend_from_slice(&code.to_be_bytes()[2..]);
    assert_eq!(write(&cat, &json).unwrap(), expected);
}

fn two_part_variable() -> Format {
    Format::Variable(Variable {
        formats: vec![
            fixed(1, vec![field("A", 8, 2), fx_bit()]),
            fixed(1, vec![field("B", 8, 2), fx_bit()]),
        ],
    })
}

#[test]
fn variable_items() {
    let cat = cat_with(two_part_variable());
    let first = record(48, "I", Value::Object(obj(vec![("A", uint(1))])));
    assert_eq!(write(&cat, &first).unwrap(), vec![48, 0, 5, 0x80, 0x02]);
    let second = record(48, "I", Value::Object(obj(vec![("B", uint(3))])));
    let bytes = write(&cat, &second).unwrap();
    assert_eq!(bytes, vec![48, 0, 6, 0x80, 0x01, 0x06]);
    let mut reader: &[u8] = &bytes;
    let value = read_asterix(&mut reader, &cat).unwrap();
    assert_eq!(value.get("I"), Some(&Value::Object(obj(vec![("A", uint(0)), ("B", uint(3))]))));
    let none = record(48, "I", Value::Object(obj(vec![("C", uint(3))])));
    assert_eq!(write(&cat, &none).unwrap(), vec![48, 0, 4, 0x80]);

    let repeated = cat_with(Format::Variable(Variable { formats: vec![fixed(1, vec![field("A", 8, 2), fx_bit()])] }));
    let arr = || Value::Array(vec![Value::Object(obj(vec![("A", uint(1))])), Value::Object(obj(vec![("A", uint(2))]))]);
    let bytes = write(&repeated, &record(48, "I", arr())).unwrap();
    assert_eq!(bytes, vec![48, 0, 6, 0x80, 0x03, 0x04]);
    let mut reader: &[u8] = &bytes;
    let value = read_asterix(&mut reader, &repeated).unwrap();
    assert_eq!(value.get("I"), Some(&arr()));
    assert!(matches!(write(&repeated, &record(48, "I", uint(1))), Err(Error::ExpectedArray)));
}

#[test]
fn fx_outside_a_variable_is_refused() {
    let cat = cat_with(fixed(1, vec![field("A", 8, 2), fx_bit()]));
    let json = record(48, "I", Value::Object(obj(vec![("A", uint(1))])));
    assert!(matches!(
        write(&cat, &json),
        Err(Error::InvalidSpec { child: InvalidSpec::FxOutsideVariable })
    ));
}

#[test]
fn repetitive_and_explicit_items() {
    let rep = cat_with(Format::Repetitive(Repetitive { formats: vec![fixed(1, vec![field("X", 8, 1)])] }));
    let arr = || Value::Array(vec![Value::Object(obj(vec![("X", uint(7))])), Value::Object(obj(vec![("X", uint(9))]))]);
    let bytes = write(&rep, &record(48, "I", arr())).unwrap();
    assert_eq!(bytes, vec![48, 0, 7, 0x80, 2, 7, 9]);
    let mut reader: &[u8] = &bytes;
    assert_eq!(read_asterix(&mut reader, &rep).unwrap().get("I"), Some(&arr()));
    assert!(matches!(write(&rep, &record(48, "I", uint(1))), Err(Error::RepetitiveExpectsArray)));

    let exp = cat_with(Format::Explicit(Explicit { formats: vec![fixed(1, vec![field("X", 8, 1)])] }));
    let json = record(48, "I", Value::Object(obj(vec![("X", uint(5))])));
    // the length byte counts itself, in writing and in reading
    let bytes = write(&exp, &json).unwrap();
    assert_eq!(bytes, vec![48, 0, 6, 0x80, 2, 5]);
    let mut reader: &[u8] = &bytes;
    let value = read_asterix(&mut reader, &exp).unwrap();
    assert_eq!(value.entries.len(), 2);
    assert_eq!(value.get("CAT"), Some(&uint(48)));
    assert_eq!(value.get("I"), json.get("I"));
    assert!(reader.is_empty());
}

#[test]
fn blocks_of_several_records_are_read_as_records() {
    let cat = cat_with(fixed(1, vec![field("X", 8, 1)]));
    let rec = |x: u64| Value::Object(obj(vec![("I", Value::Object(obj(vec![("X", uint(x))])))]));
    let json = obj(vec![("CAT", uint(48)), ("records", Value::Array(vec![rec(1), rec(2)]))]);
    let bytes = write(&cat, &json).unwrap();
    assert_eq!(bytes, vec![48, 0, 7, 0x80, 1, 0x80, 2]);
    let mut reader: &[u8] = &bytes;
    assert_eq!(read_asterix(&mut reader, &cat).unwrap(), json);
    assert!(reader.is_empty());
    // a block with no record
    let empty = obj(vec![("CAT", uint(48)), ("records", Value::Array(vec![]))]);
    let mut reader: &[u8] = &[48, 0, 3];
    assert_eq!(read_asterix(&mut reader, &cat).unwrap(), empty);
}

#[test]
fn compound_items() {
    let compound = Format::Compound(Compound {
        formats: vec![
            Format::Variable(Variable {
                formats: vec![fixed(1, vec![
                    Bits { presence: Some(1), ..one_bit("S1", 8) },
                    Bits { presence: Some(2), ..one_bit("S2", 7) },
                    field("spare", 6, 2),
                    fx_bit(),
                ])],
            }),
            fixed(1, vec![field("X", 8, 1)]),
            fixed(1, vec![field("Y", 8, 1)]),
        ],
    });
    let cat = cat_with(compound);
    let sub = || Value::Object(obj(vec![("S2", Value::Object(obj(vec![("Y", uint(5))])))]));
    let bytes = write(&cat, &record(48, "I", sub())).unwrap();
    assert_eq!(bytes, vec![48, 0, 6, 0x80, 0x40, 0x05]);
    // the presence bit of `bit` 7 is read where it was written
    let mut reader: &[u8] = &bytes;
    let value = read_asterix(&mut reader, &cat).unwrap();
    assert_eq!(value.get("I"), Some(&sub()));
    assert!(reader.is_empty());
    assert_eq!(write(&cat, &value).unwrap(), bytes);
}

#[test]
fn bds_is_not_implemented() {
    let cat = cat_with(Format::BDS);
    assert!(matches!(write(&cat, &record(48, "I", uint(1))), Err(Error::BdsNotImplemented)));
    let input: Vec<u8> = vec![48, 0, 4, 0x80];
    let mut reader: &[u8] = &input;
    assert!(matches!(read_asterix(&mut reader, &cat), Err(Error::BdsNotImplemented)));
}

#[test]
fn plain_fields_are_read_back() {
    let cat = cat_with(fixed(3, vec![
        encoded("S", 24, 17, Encode::Signed),
        encoded("H", 16, 9, Encode::Hex),
        field("spare", 8, 5),
        field("U", 4, 1),
    ]));
    let neg = || Value::Number(JsonNumber { n: Number::NegInt(-5), by_scale: vec![] });
    let item = || Value::Object(obj(vec![("H", uint(0xab)), ("S", neg()), ("U", uint(9))]));
    let bytes = write(&cat, &record(48, "I", item())).unwrap();
    assert_eq!(bytes, vec![48, 0, 7, 0x80, 0xfb, 0xab, 0x09]);
    let mut reader: &[u8] = &bytes;
    let value = read_asterix(&mut reader, &cat).unwrap();
    let expect = obj(vec![("S", neg()), ("H", uint(0xab)), ("U", uint(9))]);
    assert_eq!(value.get("I"), Some(&Value::Object(expect)));
}

#[test]
fn variable_and_repetitive_items_are_read_back() {
    let var = Format::Variable(Variable { formats: vec![fixed(1, vec![field("A", 8, 2), fx_bit()])] });
    let rep = Format::Repetitive(Repetitive { formats: vec![fixed(1, vec![field("B", 8, 1)])] });
    let cat = category(48, vec![item("V", var), item("R", rep)], &["V", "R"]);
    let parts = || Value::Array(vec![
        Value::Object(obj(vec![("A", uint(3))])),
        Value::Object(obj(vec![("A", uint(4))])),
    ]);
    let reps = || Value::Array(vec![
        Value::Object(obj(vec![("B", uint(1))])),
        Value::Object(obj(vec![("B", uint(2))])),
    ]);
    let json = obj(vec![("CAT", uint(48)), ("V", parts()), ("R", reps())]);
    let bytes = write(&cat, &json).unwrap();
    assert_eq!(bytes, vec![48, 0, 9, 0xc0, 0x07, 0x08, 2, 1, 2]);
    let mut reader: &[u8] = &bytes;
    let value = read_asterix(&mut reader, &cat).unwrap();
    assert_eq!(value.get("V"), Some(&parts()));
    assert_eq!(value.get("R"), Some(&reps()));
    assert_eq!(value.get("CAT"), Some(&uint(48)));
}

#[test]
fn blocks_read_are_written_back() {
    let cat = category(
        48,
        vec![
            item("A", fixed(1, vec![field("X", 8, 5), field("spare", 4, 1)])),
            item("B", fixed(2, vec![encoded("S", 16, 9, Encode::Signed), encoded("H", 8, 1, Encode::Hex)])),
        ],
        &["A", "-", "B"],
    );
    // FRNs 1 and 3: bits 0x80 and 0x20 of the FSPEC
    let input: Vec<u8> = vec![48, 0, 7, 0xa0, 0xd0, 0x9c, 0x7f, 0xee];
    let mut reader: &[u8] = &input[..];
    let value = read_asterix(&mut reader, &cat).unwrap();
    assert_eq!(reader, &[0xee][..]);
    let neg = Value::Number(JsonNumber { n: Number::NegInt(-100), by_scale: vec![] });
    assert_eq!(value.get("B"), Some(&Value::Object(obj(vec![("S", neg), ("H", uint(0x7f))]))));
    assert_eq!(write(&cat, &value).unwrap(), input[..7].to_vec());
}

#[test]
fn variable_and_repetitive_blocks_are_written_back() {
    let var = Format::Variable(Variable { formats: vec![fixed(1, vec![field("A", 8, 2), fx_bit()])] });
    let rep = Format::Repetitive(Repetitive {
        formats: vec![fixed(1, vec![field("B", 8, 1)]), fixed(1, vec![field("C", 8, 5), field("spare", 4, 1)])],
    });
    let cat = category(48, vec![item("V", var), item("R", rep)], &["V", "R"]);
    let input: Vec<u8> = vec![48, 0, 12, 0xc0, 0x07, 0x09, 0x0a, 2, 1, 0x10, 2, 0xf0];
    let mut reader: &[u8] = &input;
    let value = read_asterix(&mut reader, &cat).unwrap();
    let parts = Value::Array(vec![
        Value::Object(obj(vec![("A", uint(3))])),
        Value::Object(obj(vec![("A", uint(4))])),
        Value::Object(obj(vec![("A", uint(5))])),
    ]);
    let reps = Value::Array(vec![
        Value::Object(obj(vec![("B", uint(1)), ("C", uint(1))])),
        Value::Object(obj(vec![("B", uint(2)), ("C", uint(15))])),
    ]);
    assert_eq!(value.get("V"), Some(&parts));
    assert_eq!(value.get("R"), Some(&reps));
    assert_eq!(write(&cat, &value).unwrap(), input);
}

#[test]
fn two_part_variables_are_written_back() {
    let cat = cat_with(two_part_variable());
    let mut reader: &[u8] = &[48, 0, 6, 0x80, 0x0b, 0x06];
    let value = read_asterix(&mut reader, &cat).unwrap();
    assert_eq!(write(&cat, &value).unwrap(), vec![48, 0, 6, 0x80, 0x0b, 0x06]);
}

#[test]
fn explicit_items_and_record_lists_are_written_back() {
    let exp = Format::Explicit(Explicit {
        formats: vec![fixed(1, vec![field("P", 8, 1)]), fixed(1, vec![field("Q", 8, 3), field("spare", 2, 1)])],
    });
    let cat = cat_with(exp);
    // two records, each an Explicit item of three bytes: length, P, Q
    let input: Vec<u8> = vec![48, 0, 11, 0x80, 3, 7, 0x0c, 0x80, 3, 9, 0xfc];
    let mut reader: &[u8] = &input;
    let value = read_asterix(&mut reader, &cat).unwrap();
    assert!(reader.is_empty());
    let rec = |p: u64, q: u64| Value::Object(obj(vec![("I", Value::Object(obj(vec![("P", uint(p)), ("Q", uint(q))])))]));
    assert_eq!(value.get("records"), Some(&Value::Array(vec![rec(7, 3), rec(9, 63)])));
    assert_eq!(write(&cat, &value).unwrap(), input);
}

#[test]
fn conditional_fields_are_read_back() {
    let when = |name: &str, val: u8| Bits {
        condition: Some(BitsCondition { key: "T".to_string(), val }),
        ..field(name, 7, 1)
    };
    let cat = cat_with(fixed(1, vec![field("T", 8, 8), when("A", 1), when("B", 0)]));
    let a = || Value::Object(obj(vec![("T", uint(1)), ("A", uint(5))]));
    let bytes = write(&cat, &record(48, "I", a())).unwrap();
    assert_eq!(bytes, vec![48, 0, 5, 0x80, 0x85]);
    let mut reader: &[u8] = &bytes;
    assert_eq!(read_asterix(&mut reader, &cat).unwrap().get("I"), Some(&a()));
    let b = || Value::Object(obj(vec![("T", uint(0)), ("B", uint(9))]));
    let bytes = write(&cat, &record(48, "I", b())).unwrap();
    assert_eq!(bytes, vec![48, 0, 5, 0x80, 0x09]);
    let mut reader: &[u8] = &bytes;
    assert_eq!(read_asterix(&mut reader, &cat).unwrap().get("I"), Some(&b()));
}

#[test]
fn category_one_reads_with_the_uap_it_was_written_with() {
    let mut cat = category(
        1,
        vec![item("010", fixed(1, vec![field("TYP", 8, 8), field("V", 7, 1)])), item("X", fixed(1, vec![field("X", 8, 1)]))],
        &["010", "X"],
    );
    let second = vec![uap_item("1", "010"), uap_item("2", "-"), uap_item("3", "X")];
    cat.uaps.push(UAP { use_if_bit_set: None, use_if_byte_nr: None, is_set_to: None, items: second });
    for typ in [0u64, 1] {
        let rec = obj(vec![
            ("CAT", uint(1)),
            ("010", Value::Object(obj(vec![("TYP", uint(typ)), ("V", uint(3))]))),
            ("X", Value::Object(obj(vec![("X", uint(7))]))),
        ]);
        let bytes = write(&cat, &rec).unwrap();
        // TYP 1 picks the first UAP (FRNs 1 and 2), TYP 0 the second (FRNs 1 and 3)
        let fspec = if typ == 1 { 0xc0 } else { 0xa0 };
        assert_eq!(bytes, vec![1, 0, 6, fspec, ((typ as u8) << 7) | 3, 7]);
        let mut reader: &[u8] = &bytes;
        let value = read_asterix(&mut reader, &cat).unwrap();
        assert_eq!(value.get("010"), rec.get("010"));
        assert_eq!(value.get("X"), rec.get("X"));
        // and what was read is written back as the same bytes
        assert_eq!(write(&cat, &value).unwrap(), bytes);
    }
}
