use obj2asterix::ais_code::{decode_ais, encode_ais};
use obj2asterix::error::Error;
use obj2asterix::spec_xml::{Encode, Rule};
use obj2asterix::unit::Unit;

#[test]
fn ais_encodes_call_signs() {
    // "A" is 1, "B" 2, "1" 49, padding spaces are 32
    let v = encode_ais("AB1", 8).unwrap();
    let expected = [1u64, 2, 49, 32, 32, 32, 32, 32].iter().fold(0u64, |acc, c| (acc << 6) | c);
    assert_eq!(v, expected);
    assert_eq!(decode_ais(v, 8).unwrap(), "AB1     ");
}

#[test]
fn ais_roundtrip() {
    let v = encode_ais("KLM123", 8).unwrap();
    assert_eq!(decode_ais(v, 8).unwrap(), "KLM123  ");
}

#[test]
fn ais_rejects_long_and_bad_strings() {
    assert!(matches!(encode_ais("ABCDEFGHI", 9), Err(Error::AisTooLong { .. })));
    assert!(matches!(encode_ais("ABC", 2), Err(Error::AisTooLong { .. })));
    match encode_ais("AbC", 8) {
        Err(Error::InvalidAisChar { chr, string }) => {
            assert_eq!(chr, 'b');
            assert_eq!(string, "AbC");
        }
        other => panic!("unexpected {other:?}"),
    }
    // code 0 is no character
    assert!(matches!(decode_ais(0, 1), Err(Error::InvalidAisCode { code: 0 })));
}

#[test]
fn units_roundtrip() {
    for u in [Unit::Unitless, Unit::Degree, Unit::KBytesPerSecond, Unit::FeetPerMinute, Unit::dBuV] {
        assert_eq!(Unit::parse_str(u.to_str()).unwrap(), u);
    }
    assert_eq!(Unit::parse_str("deg/sec").unwrap(), Unit::DegreePerSecond);
    assert_eq!(Unit::parse_str("* 2^(-6+f)").unwrap(), Unit::NauticalMile);
    assert_eq!(Unit::parse_str("m /Note: see above").unwrap(), Unit::Meter);
    assert!(Unit::parse_str("furlong").is_err());
    assert_eq!("°C".parse::<Unit>().unwrap(), Unit::Celsius);
}

#[test]
fn rules_and_encodings_roundtrip() {
    for r in [Rule::Mandatory, Rule::Optional, Rule::Unknown] {
        assert_eq!(Rule::parse_str(r.to_str()).unwrap(), r);
    }
    for e in [Encode::Unsigned, Encode::Signed, Encode::MsbSign, Encode::Octal, Encode::Hex, Encode::SixBitsChar, Encode::Ascii] {
        assert_eq!(Encode::parse_str(e.to_str()).unwrap(), e);
    }
    assert!(Rule::parse_str("sometimes").is_err());
    assert!(Encode::parse_str("bcd").is_err());
    assert_eq!(Rule::default(), Rule::Unknown);
    assert_eq!(Encode::default(), Encode::Unsigned);
}

#[test]
fn ais_trailing_spaces_are_padding() {
    assert_eq!(encode_ais("AB  ", 8).unwrap(), encode_ais("AB", 8).unwrap());
    assert_eq!(encode_ais("AB      ", 8).unwrap(), encode_ais("AB", 8).unwrap());
}

#[test]
fn ais_decoded_call_signs_encode_again() {
    let v = encode_ais("KLM1", 8).unwrap();
    let decoded = decode_ais(v, 8).unwrap();
    assert_eq!(encode_ais(&decoded, 8).unwrap(), v);
}

#[test]
fn unit_notes_are_ignored() {
    assert_eq!(Unit::parse_str("kt /Note: anything at all").unwrap(), Unit::Knot);
    assert_eq!(Unit::parse_str("ft/min /Note:").unwrap(), Unit::FeetPerMinute);
    assert_eq!(Unit::parse_str("m /Note: a /Note: b").unwrap(), Unit::Meter);
}
