//! A category specification, as the XML specifications describe it: data
//! items, their formats, and the user application profiles (UAPs).
//!
//! Floating-point attributes (the scale and the bounds of a unit) are kept as
//! the bit patterns of their `f64` values: this library never computes with
//! them, it only hands them on.
use vstd::prelude::*;
use crate::strings::str_eq;
use crate::unit::Unit;

verus! {

/// An ASTERIX category: its data items and its UAPs.
#[derive(Debug)]
pub struct Category {
    /// The category number.
    pub id: u8,
    /// The category name.
    pub name: String,
    /// The specification version.
    pub ver: String,
    /// The data items of the category.
    pub data_items: Vec<DataItem>,
    /// The user application profiles.
    pub uaps: Vec<UAP>,
}

/// A data item of a category.
#[derive(Debug)]
pub struct DataItem {
    /// The item id, such as `010`.
    pub id: String,
    /// Whether the item is mandatory.
    pub rule: Option<Rule>,
    /// The item name.
    pub name: String,
    /// The item definition.
    pub definition: String,
    /// The item format.
    pub format: DataItemFormat,
    /// A note on the item.
    pub note: Option<String>,
}

/// Whether a data item is mandatory.
#[derive(Debug, Clone, Copy, PartialEq, Eq, Structural)]
pub enum Rule {
    /// The item must be present.
    Mandatory,
    /// The item may be present.
    Optional,
    /// Not stated.
    Unknown,
}

/// The name a rule is written with.
pub open spec fn rule_name(r: Rule) -> &'static str {
    match r {
        Rule::Mandatory => "mandatory",
        Rule::Optional => "optional",
        Rule::Unknown => "unknown",
    }
}

/// The rule written `s`, if any.
pub open spec fn rule_of_name(s: Seq<char>) -> Option<Rule> {
    if s == "mandatory"@ {
        Some(Rule::Mandatory)
    } else if s == "optional"@ {
        Some(Rule::Optional)
    } else if s == "unknown"@ {
        Some(Rule::Unknown)
    } else {
        None
    }
}

impl Rule {
    /// Parses a rule attribute.
    pub fn parse_str(s: &str) -> (r: Result<Rule, &'static str>)
        ensures
            match rule_of_name(s@) {
                Some(v) => r == Ok::<Rule, &'static str>(v),
                None => r matches Err(m) && m@ == "bad DataItem rule attribute"@,
            },
    {
        if str_eq(s, "mandatory") {
            Ok(Rule::Mandatory)
        } else if str_eq(s, "optional") {
            Ok(Rule::Optional)
        } else if str_eq(s, "unknown") {
            Ok(Rule::Unknown)
        } else {
            Err("bad DataItem rule attribute")
        }
    }

    /// The name the rule is written with.
    pub fn to_str(&self) -> (r: &'static str)
        ensures
            r@ == rule_name(*self)@,
    {
        match self {
            Rule::Mandatory => "mandatory",
            Rule::Optional => "optional",
            Rule::Unknown => "unknown",
        }
    }
}

impl Default for Rule {
    fn default() -> (r: Rule)
        ensures
            r == Rule::Unknown,
    {
        Rule::Unknown
    }
}

impl std::str::FromStr for Rule {
    type Err = &'static str;

    fn from_str(s: &str) -> (r: Result<Self, Self::Err>)
        ensures
            match rule_of_name(s@) {
                Some(v) => r == Ok::<Rule, &'static str>(v),
                None => r matches Err(m) && m@ == "bad DataItem rule attribute"@,
            },
    {
        Rule::parse_str(s)
    }
}

/// A rule written by `to_str` parses back to itself.
pub proof fn lemma_rule_name_roundtrip(r: Rule)
    ensures
        rule_of_name(rule_name(r)@) == Some(r),
{
    reveal_strlit("mandatory");
    reveal_strlit("optional");
    reveal_strlit("unknown");
    match r {
        Rule::Mandatory => {

        },
        Rule::Optional => {
            assert("mandatory"@.len() == 9);
            assert("optional"@.len() == 8);
            assert("mandatory"@ != "optional"@);
        },
        Rule::Unknown => {
            assert("mandatory"@.len() == 9);
            assert("unknown"@.len() == 7);
            assert("mandatory"@ != "unknown"@);
            assert("optional"@.len() == 8);
            assert("unknown"@.len() == 7);
            assert("optional"@ != "unknown"@);
        },
    }
}

/// The format of a data item.
#[derive(Debug)]
pub struct DataItemFormat {
    /// A description of the format.
    pub desc: Option<String>,
    /// The format.
    pub format: Format,
}

/// The formats of ASTERIX items.
#[derive(Debug)]
#[allow(clippy::upper_case_acronyms)]
pub enum Format {
    /// A fixed number of bytes holding bit fields.
    Fixed(Fixed),
    /// Fixed parts chained by their FX bits.
    Variable(Variable),
    /// Items preceded by their length in bytes.
    Explicit(Explicit),
    /// Items repeated a counted number of times.
    Repetitive(Repetitive),
    /// Subitems announced by a presence field.
    Compound(Compound),
    /// A BDS register.
    BDS,
}

/// A Variable format: its Fixed parts.
#[derive(Debug)]
pub struct Variable {
    /// The parts.
    pub formats: Vec<Format>,
}

/// An Explicit format: its items.
#[derive(Debug)]
pub struct Explicit {
    /// The items.
    pub formats: Vec<Format>,
}

/// A Repetitive format: the items of one repetition.
#[derive(Debug)]
pub struct Repetitive {
    /// The items.
    pub formats: Vec<Format>,
}

/// A Compound format: a Variable presence field, then the subitems.
#[derive(Debug)]
pub struct Compound {
    /// The presence field, then the subitems.
    pub formats: Vec<Format>,
}

/// A Fixed format: its length in bytes and its bit fields.
#[derive(Debug)]
pub struct Fixed {
    /// Length in bytes.
    pub length: u32,
    /// The bit fields, first to last.
    pub bits: Vec<Bits>,
}

/// A bit field of a Fixed format.
#[derive(Debug)]
pub struct Bits {
    /// A one-bit field: its bit.
    pub bit: Option<u32>,
    /// A range field: its first bit.
    pub from: Option<u32>,
    /// A range field: its last bit.
    pub to: Option<u32>,
    /// `Some(1)` for an FX (extension) bit.
    pub fx: Option<u64>,
    /// Repetition attribute.
    pub rep: Option<u64>,
    /// How the field is encoded.
    pub encode: Option<Encode>,
    /// The field's short name, its key in values.
    pub short_name: String,
    /// A constant value.
    pub cons: Option<String>,
    /// The field's name.
    pub name: Option<String>,
    /// Named values of the field.
    pub values: Vec<BitsValue>,
    /// The unit of the field.
    pub unit: Option<BitsUnit>,
    /// For a Compound presence bit: the index of its subitem.
    pub presence: Option<usize>,
    /// A condition on another field for this field to be present.
    pub condition: Option<BitsCondition>,
}

/// How a bit field is encoded.
#[derive(Debug, Clone, Copy, PartialEq, Eq, Structural)]
pub enum Encode {
    /// An unsigned number.
    Unsigned,
    /// A two's complement number.
    Signed,
    /// A sign bit, then the magnitude.
    MsbSign,
    /// Octal digits, three bits each.
    Octal,
    /// Hexadecimal.
    Hex,
    /// Six-bit characters.
    SixBitsChar,
    /// ASCII characters.
    Ascii,
}

/// The name an encoding is written with.
pub open spec fn encode_name(e: Encode) -> &'static str {
    match e {
        Encode::Unsigned => "unsigned",
        Encode::Signed => "signed",
        Encode::MsbSign => "msbsign",
        Encode::Octal => "octal",
        Encode::Hex => "hex",
        Encode::SixBitsChar => "6bitschar",
        Encode::Ascii => "ascii",
    }
}

/// The encoding written `s`, if any.
pub open spec fn encode_of_name(s: Seq<char>) -> Option<Encode> {
    if s == "unsigned"@ {
        Some(Encode::Unsigned)
    } else if s == "signed"@ {
        Some(Encode::Signed)
    } else if s == "msbsign"@ {
        Some(Encode::MsbSign)
    } else if s == "octal"@ {
        Some(Encode::Octal)
    } else if s == "hex"@ {
        Some(Encode::Hex)
    } else if s == "6bitschar"@ {
        Some(Encode::SixBitsChar)
    } else if s == "ascii"@ {
        Some(Encode::Ascii)
    } else {
        None
    }
}

impl Encode {
    /// Parses an encode attribute.
    pub fn parse_str(s: &str) -> (r: Result<Encode, &'static str>)
        ensures
            match encode_of_name(s@) {
                Some(v) => r == Ok::<Encode, &'static str>(v),
                None => r matches Err(m) && m@ == "bad Bits encode attr"@,
            },
    {
        if str_eq(s, "unsigned") {
            Ok(Encode::Unsigned)
        } else if str_eq(s, "signed") {
            Ok(Encode::Signed)
        } else if str_eq(s, "msbsign") {
            Ok(Encode::MsbSign)
        } else if str_eq(s, "octal") {
            Ok(Encode::Octal)
        } else if str_eq(s, "hex") {
            Ok(Encode::Hex)
        } else if str_eq(s, "6bitschar") {
            Ok(Encode::SixBitsChar)
        } else if str_eq(s, "ascii") {
            Ok(Encode::Ascii)
        } else {
            Err("bad Bits encode attr")
        }
    }

    /// The name the encoding is written with.
    pub fn to_str(&self) -> (r: &'static str)
        ensures
            r@ == encode_name(*self)@,
    {
        match self {
            Encode::Unsigned => "unsigned",
            Encode::Signed => "signed",
            Encode::MsbSign => "msbsign",
            Encode::Octal => "octal",
            Encode::Hex => "hex",
            Encode::SixBitsChar => "6bitschar",
            Encode::Ascii => "ascii",
        }
    }
}

impl Default for Encode {
    fn default() -> (r: Encode)
        ensures
            r == Encode::Unsigned,
    {
        Encode::Unsigned
    }
}

impl std::str::FromStr for Encode {
    type Err = &'static str;

    fn from_str(s: &str) -> (r: Result<Self, Self::Err>)
        ensures
            match encode_of_name(s@) {
                Some(v) => r == Ok::<Encode, &'static str>(v),
                None => r matches Err(m) && m@ == "bad Bits encode attr"@,
            },
    {
        Encode::parse_str(s)
    }
}

/// An encoding written by `to_str` parses back to itself.
pub proof fn lemma_encode_name_roundtrip(e: Encode)
    ensures
        encode_of_name(encode_name(e)@) == Some(e),
{
    reveal_strlit("unsigned");
    reveal_strlit("signed");
    reveal_strlit("msbsign");
    reveal_strlit("octal");
    reveal_strlit("hex");
    reveal_strlit("6bitschar");
    reveal_strlit("ascii");
    match e {
        Encode::Unsigned => {

        },
        Encode::Signed => {
            assert("unsigned"@.len() == 8);
            assert("signed"@.len() == 6);
            assert("unsigned"@ != "signed"@);
        },
        Encode::MsbSign => {
            assert("unsigned"@.len() == 8);
            assert("msbsign"@.len() == 7);
            assert("unsigned"@ != "msbsign"@);
            assert("signed"@.len() == 6);
            assert("msbsign"@.len() == 7);
            assert("signed"@ != "msbsign"@);
        },
        Encode::Octal => {
            assert("unsigned"@.len() == 8);
            assert("octal"@.len() == 5);
            assert("unsigned"@ != "octal"@);
            assert("signed"@.len() == 6);
            assert("octal"@.len() == 5);
            assert("signed"@ != "octal"@);
            assert("msbsign"@.len() == 7);
            assert("octal"@.len() == 5);
            assert("msbsign"@ != "octal"@);
        },
        Encode::Hex => {
            assert("unsigned"@.len() == 8);
            assert("hex"@.len() == 3);
            assert("unsigned"@ != "hex"@);
            assert("signed"@.len() == 6);
            assert("hex"@.len() == 3);
            assert("signed"@ != "hex"@);
            assert("msbsign"@.len() == 7);
            assert("hex"@.len() == 3);
            assert("msbsign"@ != "hex"@);
            assert("octal"@.len() == 5);
            assert("hex"@.len() == 3);
            assert("octal"@ != "hex"@);
        },
        Encode::SixBitsChar => {
            assert("unsigned"@.len() == 8);
            assert("6bitschar"@.len() == 9);
            assert("unsigned"@ != "6bitschar"@);
            assert("signed"@.len() == 6);
            assert("6bitschar"@.len() == 9);
            assert("signed"@ != "6bitschar"@);
            assert("msbsign"@.len() == 7);
            assert("6bitschar"@.len() == 9);
            assert("msbsign"@ != "6bitschar"@);
            assert("octal"@.len() == 5);
            assert("6bitschar"@.len() == 9);
            assert("octal"@ != "6bitschar"@);
            assert("hex"@.len() == 3);
            assert("6bitschar"@.len() == 9);
            assert("hex"@ != "6bitschar"@);
        },
        Encode::Ascii => {
            assert("unsigned"@.len() == 8);
            assert("ascii"@.len() == 5);
            assert("unsigned"@ != "ascii"@);
            assert("signed"@.len() == 6);
            assert("ascii"@.len() == 5);
            assert("signed"@ != "ascii"@);
            assert("msbsign"@.len() == 7);
            assert("ascii"@.len() == 5);
            assert("msbsign"@ != "ascii"@);
            assert("octal"@[0] == 'o');
            assert("ascii"@[0] == 'a');
            assert("octal"@ != "ascii"@);
            assert("hex"@.len() == 3);
            assert("ascii"@.len() == 5);
            assert("hex"@ != "ascii"@);
            assert("6bitschar"@.len() == 9);
            assert("ascii"@.len() == 5);
            assert("6bitschar"@ != "ascii"@);
        },
    }
}

/// A named value of a bit field.
#[derive(Debug)]
pub struct BitsValue {
    /// The value.
    pub val: u64,
    /// Its meaning.
    pub desc: String,
}

/// The unit of a bit field; its bounds and scale are `f64` values, kept as
/// their bit patterns.
#[derive(Debug)]
pub struct BitsUnit {
    /// Lower bound, as the bits of an `f64`.
    pub min: Option<u64>,
    /// Upper bound, as the bits of an `f64`.
    pub max: Option<u64>,
    /// Scale of one step of the field, as the bits of an `f64`.
    pub scale: Option<u64>,
    /// The unit.
    pub unit: Unit,
}

/// The bits of the `f64` value 1.0, the scale of a unit that states none.
pub open spec fn one_scale() -> u64 {
    0x3ff0_0000_0000_0000u64
}

/// The scale of a unit, 1.0 where it states none.
pub open spec fn unit_scale(u: BitsUnit) -> u64 {
    match u.scale {
        Some(s) => s,
        None => one_scale(),
    }
}

impl BitsUnit {
    /// The scale of the unit, 1.0 where it states none.
    pub fn scale_or_one(&self) -> (r: u64)
        ensures
            r == unit_scale(*self),
    {
        match self.scale {
            Some(s) => s,
            None => 0x3ff0_0000_0000_0000u64,
        }
    }
}

/// A condition on another field of the same Fixed item.
#[derive(Debug)]
pub struct BitsCondition {
    /// The other field's short name.
    pub key: String,
    /// The value it must have.
    pub val: u8,
}

/// A user application profile: the order of the data items in a record.
#[derive(Debug)]
#[allow(clippy::upper_case_acronyms)]
pub struct UAP {
    /// Selection attribute.
    pub use_if_bit_set: Option<u64>,
    /// Selection attribute.
    pub use_if_byte_nr: Option<u64>,
    /// Selection attribute.
    pub is_set_to: Option<u8>,
    /// The items, in FSPEC order.
    pub items: Vec<UAPItem>,
}

/// An item of a UAP.
#[derive(Debug)]
#[allow(clippy::upper_case_acronyms)]
pub struct UAPItem {
    /// The FSPEC bit.
    pub bit: u64,
    /// The field reference number, as written.
    pub frn: String,
    /// The length, as written.
    pub len: Option<String>,
    /// The data item id, `-` for a spare position.
    pub name: String,
}

/// The scales of the fields with a unit among `bits`, in order.
pub open spec fn bits_scales(bits: Seq<Bits>) -> Seq<u64>
    decreases bits.len(),
{
    if bits.len() == 0 {
        Seq::empty()
    } else {
        bits_scales(bits.drop_last()) + match bits.last().unit {
            Some(u) => seq![unit_scale(u)],
            None => Seq::empty(),
        }
    }
}

/// The scales of the fields with a unit in a format, in order.
pub open spec fn format_scales(f: Format) -> Seq<u64>
    decreases f, 0nat,
{
    match f {
        Format::Fixed(fixed) => bits_scales(fixed.bits@),
        Format::Variable(v) => formats_scales(v.formats@, v.formats@.len()),
        Format::Explicit(e) => formats_scales(e.formats@, e.formats@.len()),
        Format::Repetitive(r) => formats_scales(r.formats@, r.formats@.len()),
        Format::Compound(c) => formats_scales(c.formats@, c.formats@.len()),
        Format::BDS => Seq::empty(),
    }
}

/// The scales of the first `n` formats, in order.
pub open spec fn formats_scales(fs: Seq<Format>, n: nat) -> Seq<u64>
    decreases fs, n,
{
    if n == 0 || n > fs.len() {
        Seq::empty()
    } else {
        formats_scales(fs, (n - 1) as nat) + format_scales(fs[n - 1])
    }
}

/// The scales of the fields with a unit in the first `n` data items.
pub open spec fn items_scales(items: Seq<DataItem>, n: nat) -> Seq<u64>
    decreases n,
{
    if n == 0 || n > items.len() {
        Seq::empty()
    } else {
        items_scales(items, (n - 1) as nat) + format_scales(items[n - 1].format.format)
    }
}

fn push_bits_scales(out: &mut Vec<u64>, bits: &Vec<Bits>)
    ensures
        final(out)@ == old(out)@ + bits_scales(bits@),
{
    let mut i: usize = 0;
    assert(bits@.take(0) =~= Seq::<Bits>::empty());
    assert(old(out)@ + Seq::<u64>::empty() =~= old(out)@);
    while i < bits.len()
        invariant
            i <= bits@.len(),
            out@ == old(out)@ + bits_scales(bits@.take(i as int)),
        decreases bits.len() - i,
    {
        assert(bits@.take(i + 1).drop_last() =~= bits@.take(i as int));
        assert(bits@.take(i + 1).last() == bits@[i as int]);
        match &bits[i].unit {
            Some(u) => {
                out.push(u.scale_or_one());
                assert(out@ =~= old(out)@ + bits_scales(bits@.take(i + 1)));
            },
            None => {
                assert(out@ =~= old(out)@ + bits_scales(bits@.take(i + 1)));
            },
        }
        i = i + 1;
    }
    assert(bits@.take(bits@.len() as int) =~= bits@);
}

fn push_formats_scales(out: &mut Vec<u64>, formats: &Vec<Format>)
    ensures
        final(out)@ == old(out)@ + formats_scales(formats@, formats@.len()),
    decreases formats, 1nat,
{
    let mut i: usize = 0;
    assert(old(out)@ + Seq::<u64>::empty() =~= old(out)@);
    while i < formats.len()
        invariant
            i <= formats@.len(),
            out@ == old(out)@ + formats_scales(formats@, i as nat),
        decreases formats.len() - i,
    {
        push_format_scales(out, &formats[i]);
        assert(out@ =~= old(out)@ + formats_scales(formats@, (i + 1) as nat));
        i = i + 1;
    }
}

fn push_format_scales(out: &mut Vec<u64>, format: &Format)
    ensures
        final(out)@ == old(out)@ + format_scales(*format),
    decreases format, 0nat,
{
    match format {
        Format::Fixed(fixed) => push_bits_scales(out, &fixed.bits),
        Format::Variable(v) => push_formats_scales(out, &v.formats),
        Format::Explicit(e) => push_formats_scales(out, &e.formats),
        Format::Repetitive(r) => push_formats_scales(out, &r.formats),
        Format::Compound(c) => push_formats_scales(out, &c.formats),
        Format::BDS => {
            assert(out@ =~= old(out)@ + Seq::<u64>::empty());
        },
    }
}

impl Category {
    /// The scales of all the fields with a unit, in the order of the data
    /// items and of their fields: a value written from a floating-point
    /// number needs its quotients by these.
    pub fn unit_scales(&self) -> (r: Vec<u64>)
        ensures
            r@ == items_scales(self.data_items@, self.data_items@.len()),
    {
        let mut out: Vec<u64> = Vec::new();
        let mut i: usize = 0;
        assert(out@ =~= Seq::<u64>::empty());
        while i < self.data_items.len()
            invariant
                i <= self.data_items@.len(),
                out@ == items_scales(self.data_items@, i as nat),
            decreases self.data_items.len() - i,
        {
            push_format_scales(&mut out, &self.data_items[i].format.format);
            i = i + 1;
        }
        out
    }
}

} // verus!
