//! The six-bit character code of AIS call signs ("6bitschar" fields).
use vstd::prelude::*;
use vstd::string::*;
use crate::error::{Error, ErrorV};
use crate::strings::push_char;

verus! {

/// Six-bit code of one byte: `A`..`Z` are 1..26, `0`..`9` are 48..57, space is 32.
pub open spec fn ais_code_of(b: u8) -> Option<u8> {
    if 65 <= b && b <= 90 {
        Some((b - 65 + 1) as u8)
    } else if 48 <= b && b <= 57 {
        Some(b)
    } else if b == 32 {
        Some(32u8)
    } else {
        None
    }
}

/// Byte of one six-bit code, the inverse of `ais_code_of`.
pub open spec fn ais_byte_of(code: u8) -> Option<u8> {
    if 1 <= code && code <= 26 {
        Some((code - 1 + 65) as u8)
    } else if 48 <= code && code <= 57 {
        Some(code)
    } else if code == 32 {
        Some(32u8)
    } else {
        None
    }
}

/// Codes packed six bits each, the first code in the highest bits.
pub open spec fn ais_pack(codes: Seq<u8>) -> u64
    decreases codes.len(),
{
    if codes.len() == 0 {
        0
    } else {
        (ais_pack(codes.drop_last()) << 6u64) | (codes.last() as u64)
    }
}

/// The six-bit digit at position `pos`, counted from the lowest digit.
pub open spec fn ais_digit(bits: u64, pos: nat) -> u8 {
    ((bits >> ((pos * 6) as u64)) & 63u64) as u8
}

/// A call sign padded with spaces up to eight characters.
pub open spec fn ais_padded(bytes: Seq<u8>) -> Seq<u8> {
    bytes + Seq::new((8 - bytes.len()) as nat, |i: int| 32u8)
}

/// Index of the first byte that has no six-bit code, if any.
pub open spec fn first_bad_ais_byte(bytes: Seq<u8>) -> Option<int>
    decreases bytes.len(),
{
    if bytes.len() == 0 {
        None
    } else {
        match first_bad_ais_byte(bytes.drop_last()) {
            Some(i) => Some(i),
            None => if ais_code_of(bytes.last()) is None {
                Some(bytes.len() - 1)
            } else {
                None
            },
        }
    }
}

/// The codes of bytes that all have one.
pub open spec fn ais_codes(bytes: Seq<u8>) -> Seq<u8> {
    bytes.map_values(|b: u8| ais_code_of(b).unwrap())
}

/// The most characters an AIS field of `length` characters takes.
pub open spec fn ais_max_len(length: u32) -> int {
    if length < 8 { length as int } else { 8 }
}

/// Index, counted from the highest digit, of the first digit that is no code, if any.
pub open spec fn first_bad_ais_digit(bits: u64, count: nat) -> Option<int>
    decreases count,
{
    if count == 0 {
        None
    } else if ais_byte_of(ais_digit(bits, (count - 1) as nat)) is None {
        Some(0)
    } else {
        match first_bad_ais_digit(bits, (count - 1) as nat) {
            Some(i) => Some(i + 1),
            None => None,
        }
    }
}

/// The characters of the `count` digits of `bits`, the highest digit first.
pub open spec fn ais_decoded(bits: u64, count: nat) -> Seq<char> {
    Seq::new(count, |i: int| ais_byte_of(ais_digit(bits, (count - 1 - i) as nat)).unwrap() as char)
}

proof fn lemma_first_bad_byte(bytes: Seq<u8>)
    ensures
        first_bad_ais_byte(bytes) matches Some(i) ==> 0 <= i < bytes.len() && ais_code_of(bytes[i]) is None
            && forall|j: int| 0 <= j < i ==> ais_code_of(#[trigger] bytes[j]) is Some,
        first_bad_ais_byte(bytes) is None ==> forall|j: int| 0 <= j < bytes.len() ==> ais_code_of(#[trigger] bytes[j]) is Some,
    decreases bytes.len(),
{
    if bytes.len() > 0 {
        lemma_first_bad_byte(bytes.drop_last());
        assert forall|j: int| 0 <= j < bytes.len() - 1 implies bytes.drop_last()[j] == bytes[j] by {}
    }
}

proof fn lemma_first_bad_prefix(bytes: Seq<u8>, i: int)
    requires
        0 <= i < bytes.len(),
        forall|j: int| 0 <= j < i ==> ais_code_of(#[trigger] bytes[j]) is Some,
        ais_code_of(bytes[i]) is None,
    ensures
        first_bad_ais_byte(bytes) == Some(i),
    decreases bytes.len(),
{
    if i < bytes.len() - 1 {
        assert(bytes.drop_last()[i] == bytes[i]);
        assert forall|j: int| 0 <= j < i implies ais_code_of(#[trigger] bytes.drop_last()[j]) is Some by {
            assert(bytes.drop_last()[j] == bytes[j]);
        }
        lemma_first_bad_prefix(bytes.drop_last(), i);
    } else {
        lemma_first_bad_byte(bytes.drop_last());
        if first_bad_ais_byte(bytes.drop_last()) is Some {
            let k = first_bad_ais_byte(bytes.drop_last()).unwrap();
            assert(bytes.drop_last()[k] == bytes[k]);
        }
    }
}

proof fn lemma_pack_step(x: u64, c: u64, m: u64)
    requires
        m < 10,
        x < (1u64 << (6 * m)),
        c < 64,
    ensures
        ((x << 6u64) | c) < (1u64 << (6 * (m + 1))),
        ((x << 6u64) | c) >> 6u64 == x,
        ((x << 6u64) | c) & 63u64 == c,
{
    assert(((x << 6u64) | c) < (1u64 << (6 * (m + 1)))) by (bit_vector)
        requires m < 10, x < (1u64 << (6 * m)), c < 64;
    assert(((x << 6u64) | c) >> 6u64 == x) by (bit_vector)
        requires m < 10, x < (1u64 << (6 * m)), c < 64;
    assert(((x << 6u64) | c) & 63u64 == c) by (bit_vector)
        requires c < 64;
}

/// Packing at most ten codes below 64 stays below `2^(6 * len)`.
proof fn lemma_pack_bound(codes: Seq<u8>)
    requires
        codes.len() <= 10,
        forall|i: int| 0 <= i < codes.len() ==> #[trigger] codes[i] < 64,
    ensures
        ais_pack(codes) < (1u64 << (6 * codes.len()) as u64),
    decreases codes.len(),
{
    if codes.len() == 0 {
        assert((1u64 << 0u64) == 1) by (bit_vector);
    } else {
        let p = codes.drop_last();
        lemma_pack_bound(p);
        lemma_pack_step(ais_pack(p), codes.last() as u64, p.len() as u64);
    }
}

proof fn lemma_digit_shift(x: u64, k: u64)
    requires
        k < 10,
    ensures
        (x >> (((k + 1) * 6) as u64)) & 63u64 == ((x >> 6u64) >> ((k * 6) as u64)) & 63u64,
{
    assert((x >> (((k + 1) * 6) as u64)) & 63u64 == ((x >> 6u64) >> ((k * 6) as u64)) & 63u64) by (bit_vector)
        requires k < 10;
}

/// The digits of packed codes are the codes, the last code lowest.
pub proof fn lemma_pack_digits(codes: Seq<u8>)
    requires
        codes.len() <= 10,
        forall|i: int| 0 <= i < codes.len() ==> #[trigger] codes[i] < 64,
    ensures
        forall|k: nat| k < codes.len() ==> #[trigger] ais_digit(ais_pack(codes), k) == codes[codes.len() - 1 - k],
    decreases codes.len(),
{
    if codes.len() > 0 {
        let p = codes.drop_last();
        lemma_pack_digits(p);
        lemma_pack_bound(p);
        let x = ais_pack(codes);
        lemma_pack_step(ais_pack(p), codes.last() as u64, p.len() as u64);
        assert forall|k: nat| k < codes.len() implies #[trigger] ais_digit(x, k) == codes[codes.len() - 1 - k] by {
            if k == 0 {
                assert((x >> 0u64) == x) by (bit_vector);
            } else {
                let k1 = (k - 1) as nat;
                lemma_digit_shift(x, k1 as u64);
                assert(ais_digit(ais_pack(p), k1) == p[p.len() - 1 - k1]);
            }
        }
    }
}

/// What `encode_ais` gives for a call sign of characters `s`.
pub open spec fn spec_encode_ais(s: Seq<char>, length: u32) -> Result<u64, ErrorV> {
    let bytes = vstd::utf8::encode_utf8(s);
    if bytes.len() > ais_max_len(length) {
        Err(ErrorV::AisTooLong { string: s })
    } else if first_bad_ais_byte(bytes) is Some {
        Err(ErrorV::InvalidAisChar { chr: bytes[first_bad_ais_byte(bytes).unwrap()] as char, string: s })
    } else {
        Ok(ais_pack(ais_codes(ais_padded(bytes))))
    }
}

/// Encodes an AIS call sign of at most `min(8, length)` characters into eight
/// six-bit codes, padded with spaces.
pub fn encode_ais(s: &str, length: u32) -> (r: Result<u64, Error>)
    ensures
        ({
            let bytes = s.spec_bytes();
            if bytes.len() > ais_max_len(length) {
                r matches Err(Error::AisTooLong { string }) && string@ == s@
            } else if first_bad_ais_byte(bytes) is Some {
                r matches Err(Error::InvalidAisChar { chr, string }) && string@ == s@
                    && chr == bytes[first_bad_ais_byte(bytes).unwrap()] as char
            } else {
                r == Ok::<u64, Error>(ais_pack(ais_codes(ais_padded(bytes))))
            }
        }),
        match spec_encode_ais(s@, length) {
            Ok(v) => r == Ok::<u64, Error>(v),
            Err(e) => r matches Err(x) && x@ == e,
        },
{
    let bytes = s.as_bytes();
    let limit: usize = if length < 8 { length as usize } else { 8 };
    if s.len() > limit {
        return Err(Error::AisTooLong { string: s.to_string() });
    }
    let ghost padded = ais_padded(bytes@);
    let ghost codes = ais_codes(padded);
    let mut rv: u64 = 0;
    let mut i: usize = 0;
    while i < bytes.len()
        invariant
            bytes@ == s.spec_bytes(),
            bytes.len() <= 8,
            bytes.len() <= ais_max_len(length),
            padded == ais_padded(bytes@),
            codes == ais_codes(padded),
            i <= bytes.len(),
            forall|j: int| 0 <= j < i ==> ais_code_of(#[trigger] bytes@[j]) is Some,
            rv == ais_pack(codes.take(i as int)),
        decreases bytes.len() - i,
    {
        let chr = bytes[i];
        let out: u8 = if 65 <= chr && chr <= 90 {
            chr - 65 + 1
        } else if 48 <= chr && chr <= 57 {
            chr - 48 + 48
        } else if chr == 32 {
            32
        } else {
            proof {
                lemma_first_bad_prefix(bytes@, i as int);
                assert(first_bad_ais_byte(bytes@) == Some(i as int));
                assert(chr == bytes@[i as int]);
            }
            let string = s.to_string();
            let c = chr as char;
            return Err(Error::InvalidAisChar { chr: c, string });
        };
        assert(codes.take(i + 1).drop_last() == codes.take(i as int));
        assert(padded[i as int] == chr);
        rv = (rv << 6u64) | (out as u64);
        i = i + 1;
    }
    proof {
        lemma_first_bad_byte(bytes@);
    }
    while i < 8
        invariant
            bytes.len() <= i <= 8,
            padded == ais_padded(bytes@),
            codes == ais_codes(padded),
            padded.len() == 8,
            rv == ais_pack(codes.take(i as int)),
        decreases 8 - i,
    {
        assert(codes.take(i + 1).drop_last() == codes.take(i as int));
        assert(padded[i as int] == 32u8);
        rv = (rv << 6u64) | 32u64;
        i = i + 1;
    }
    assert(codes.take(8) == codes);
    Ok(rv)
}

/// Decodes the `count` lowest six-bit codes of `bits`, the highest first.
pub fn decode_ais(bits: u64, count: u32) -> (r: Result<String, Error>)
    requires
        count <= 11,
    ensures
        match first_bad_ais_digit(bits, count as nat) {
            Some(i) => r matches Err(Error::InvalidAisCode { code }) && code == ais_digit(bits, (count - 1 - i) as nat),
            None => r matches Ok(s) && s@ == ais_decoded(bits, count as nat),
        },
{
    let mut rv = String::new();
    let mut pos = count;
    while pos > 0
        invariant
            pos <= count <= 11,
            rv@.len() == count - pos,
            forall|j: int| 0 <= j < count - pos ==> #[trigger] rv@[j] == ais_decoded(bits, count as nat)[j],
            forall|j: int| 0 <= j < count - pos ==> ais_byte_of(#[trigger] ais_digit(bits, (count - 1 - j) as nat)) is Some,
        decreases pos,
    {
        pos = pos - 1;
        assert((1u64 << 6u64) == 64) by (bit_vector);
        let mask: u64 = (1u64 << 6u64) - 1;
        let shifted = bits >> (pos * 6) as u64;
        assert(shifted & 63u64 < 64) by (bit_vector);
        let code = (shifted & mask) as u8;
        assert(code == ais_digit(bits, pos as nat));
        let chr: u8 = if 1 <= code && code <= 26 {
            code - 1 + 65
        } else if 48 <= code && code <= 57 {
            code - 48 + 48
        } else if code == 32 {
            32
        } else {
            proof {
                lemma_first_bad_digit_at(bits, count as nat, (count - 1 - pos) as int);
            }
            return Err(Error::InvalidAisCode { code });
        };
        push_char(&mut rv, chr as char);
    }
    proof {
        lemma_no_bad_digit(bits, count as nat);
    }
    assert(rv@ =~= ais_decoded(bits, count as nat));
    Ok(rv)
}

/// Decoding the eight codes of an encoded call sign gives back the call sign,
/// padded with spaces to eight characters.
pub proof fn lemma_ais_roundtrip(bytes: Seq<u8>)
    requires
        bytes.len() <= 8,
        first_bad_ais_byte(bytes) is None,
    ensures
        first_bad_ais_digit(ais_pack(ais_codes(ais_padded(bytes))), 8) is None,
        ais_decoded(ais_pack(ais_codes(ais_padded(bytes))), 8) =~= ais_padded(bytes).map_values(|b: u8| b as char),
{
    lemma_first_bad_byte(bytes);
    let padded = ais_padded(bytes);
    let codes = ais_codes(padded);
    assert forall|i: int| 0 <= i < 8 implies ais_code_of(#[trigger] padded[i]) is Some by {
        if i < bytes.len() {
            assert(padded[i] == bytes[i]);
        }
    }
    assert forall|i: int| 0 <= i < codes.len() implies #[trigger] codes[i] < 64 by {
        assert(ais_code_of(padded[i]) is Some);
    }
    lemma_pack_digits(codes);
    let v = ais_pack(codes);
    assert forall|j: int| 0 <= j < 8 implies ais_byte_of(#[trigger] ais_digit(v, (8 - 1 - j) as nat)) == Some(padded[j]) by {
        assert(ais_digit(v, (8 - 1 - j) as nat) == codes[codes.len() - 1 - (8 - 1 - j)]);
        assert(ais_code_of(padded[j]) is Some);
    }
    lemma_no_bad_digit(v, 8);
}

proof fn lemma_first_bad_digit_at(bits: u64, count: nat, i: int)
    requires
        0 <= i < count,
        forall|j: int| 0 <= j < i ==> ais_byte_of(#[trigger] ais_digit(bits, (count - 1 - j) as nat)) is Some,
        ais_byte_of(ais_digit(bits, (count - 1 - i) as nat)) is None,
    ensures
        first_bad_ais_digit(bits, count) == Some(i),
    decreases count,
{
    if i > 0 {
        assert forall|j: int| 0 <= j < i - 1 implies ais_byte_of(#[trigger] ais_digit(bits, ((count - 1) - 1 - j) as nat)) is Some by {
            assert(ais_byte_of(ais_digit(bits, (count - 1 - (j + 1)) as nat)) is Some);
        }
        assert(ais_byte_of(ais_digit(bits, (count - 1 - 0) as nat)) is Some);
        lemma_first_bad_digit_at(bits, (count - 1) as nat, i - 1);
    }
}

proof fn lemma_no_bad_digit(bits: u64, count: nat)
    requires
        forall|j: int| 0 <= j < count ==> ais_byte_of(#[trigger] ais_digit(bits, (count - 1 - j) as nat)) is Some,
    ensures
        first_bad_ais_digit(bits, count) is None,
    decreases count,
{
    if count > 0 {
        assert(ais_byte_of(ais_digit(bits, (count - 1 - 0) as nat)) is Some);
        assert forall|j: int| 0 <= j < count - 1 implies ais_byte_of(#[trigger] ais_digit(bits, ((count - 1) - 1 - j) as nat)) is Some by {
            assert(ais_byte_of(ais_digit(bits, (count - 1 - (j + 1)) as nat)) is Some);
        }
        lemma_no_bad_digit(bits, (count - 1) as nat);
    }
}

/// `n` spaces.
pub open spec fn spaces(n: nat) -> Seq<u8> {
    Seq::new(n, |i: int| 32u8)
}

/// Trailing spaces cannot be told from the padding: a call sign with spaces
/// after it has the same bad byte, if any, and is padded to the same eight
/// bytes, so it is encoded the same wherever it is short enough.
pub proof fn lemma_ais_trailing_spaces(bytes: Seq<u8>, n: nat)
    requires
        bytes.len() + n <= 8,
    ensures
        first_bad_ais_byte(bytes + spaces(n)) == first_bad_ais_byte(bytes),
        ais_padded(bytes + spaces(n)) == ais_padded(bytes),
    decreases n,
{
    if n == 0 {
        assert(bytes + spaces(n) =~= bytes);
    } else {
        lemma_ais_trailing_spaces(bytes, (n - 1) as nat);
        assert((bytes + spaces(n)).drop_last() =~= bytes + spaces((n - 1) as nat));
        assert((bytes + spaces(n)).last() == 32u8);
    }
    assert(ais_padded(bytes + spaces(n)) =~= ais_padded(bytes));
}

/// Decoding the eight codes of an encoded call sign and encoding the
/// characters decoded gives back the same codes.
pub proof fn lemma_ais_reencode(bytes: Seq<u8>)
    requires
        bytes.len() <= 8,
        first_bad_ais_byte(bytes) is None,
    ensures
        first_bad_ais_digit(ais_pack(ais_codes(ais_padded(bytes))), 8) is None,
        spec_encode_ais(ais_decoded(ais_pack(ais_codes(ais_padded(bytes))), 8), 8)
            == Ok::<u64, ErrorV>(ais_pack(ais_codes(ais_padded(bytes)))),
{
    lemma_ais_roundtrip(bytes);
    lemma_first_bad_byte(bytes);
    let p = ais_padded(bytes);
    let d = ais_decoded(ais_pack(ais_codes(p)), 8);
    assert(d =~= p.map_values(|b: u8| b as char));
    assert forall|i: int| 0 <= i < 8 implies ais_code_of(#[trigger] p[i]) is Some by {
        if i < bytes.len() {
            assert(p[i] == bytes[i]);
        }
    }
    assert(vstd::utf8::is_ascii_chars(d)) by {
        assert forall|i: int| 0 <= i < d.len() implies '\0' <= #[trigger] d[i] <= '\u{7f}' by {
            assert(ais_code_of(p[i]) is Some);
            assert(d[i] == p[i] as char);
        }
    }
    vstd::utf8::is_ascii_chars_encode_utf8(d);
    assert forall|i: int| 0 <= i < 8 implies #[trigger] vstd::utf8::encode_utf8(d)[i] == p[i] by {
        assert(d[i] == p[i] as char);
        assert(ais_code_of(p[i]) is Some);
        assert(d[i] as u8 == p[i]);
    }
    assert(vstd::utf8::encode_utf8(d) =~= p);
    lemma_ais_trailing_spaces(bytes, (8 - bytes.len()) as nat);
    assert(bytes + spaces((8 - bytes.len()) as nat) =~= p);
    lemma_ais_trailing_spaces(p, 0);
    assert(ais_padded(p) =~= p);
}

} // verus!
