//! The ASTERIX specifications in their JSON form: a basic category with its
//! catalogue of items and its UAP, or an expansion of one item.
//!
//! Floating-point values are kept as the bit patterns of their `f64`.
use vstd::prelude::*;
use crate::unit::Unit;

verus! {

/// A basic category: its items and its UAP.
#[derive(Debug)]
pub struct BasicCategory {
    /// The items.
    pub catalogue: Vec<RecordDefinition>,
    /// Date of the edition.
    pub date: Date,
    /// The edition.
    pub edition: Edition,
    /// The category number.
    pub number: u32,
    /// The preamble.
    pub preamble: String,
    /// The title.
    pub title: String,
    /// The UAP.
    pub uap: Uap,
    /// The type tag.
    pub typ: BasicType,
}

/// The type tag of a basic category.
#[derive(Debug)]
pub enum BasicType {
    /// A basic category.
    Basic,
}

/// An expansion: the format of one item.
#[derive(Debug)]
pub struct ExpansionCategory {
    /// Date of the edition.
    pub date: Date,
    /// The edition.
    pub edition: Edition,
    /// The category number.
    pub number: u32,
    /// The title.
    pub title: String,
    /// The format.
    pub variation: FormatVariation,
    /// The type tag.
    pub typ: ExpansionType,
}

/// The type tag of an expansion.
#[derive(Debug)]
pub enum ExpansionType {
    /// An expansion.
    Expansion,
}

/// An item of a category.
#[derive(Debug)]
pub struct RecordDefinition {
    /// Its definition.
    pub definition: Option<String>,
    /// Its description.
    pub description: Option<String>,
    /// Its name.
    pub name: String,
    /// A remark.
    pub remark: Option<String>,
    /// Whether it is spare.
    pub spare: bool,
    /// Its title.
    pub title: String,
    /// Its format.
    pub variation: FormatVariation,
}

/// The formats of items.
#[derive(Debug)]
pub enum FormatVariation {
    /// A single element of `size` bits.
    Element {
        /// Size in bits.
        size: usize,
        /// How the bits are read.
        rule: FormatRule,
    },
    /// A group of subitems.
    Group {
        /// The subitems.
        items: Vec<DefOrSpare>,
    },
    /// Subitems announced by a presence field.
    Compound {
        /// Size of the presence field, if fixed.
        fspec: Option<u64>,
        /// The subitems, `None` for unused positions.
        items: Vec<Option<DefOrSpare>>,
    },
    /// Parts chained by extension bits.
    Extended {
        /// Size of the further parts.
        extents: usize,
        /// Size of the first part.
        first: usize,
        /// The subitems.
        items: Vec<DefOrSpare>,
    },
    /// A repeated format.
    Repetitive {
        /// Size of the repetition count.
        rep: usize,
        /// The repeated format.
        variation: Box<FormatVariation>,
    },
    /// An item with an explicit length.
    Explicit,
}

/// A subitem: spare bits, or a definition.
#[derive(Debug)]
pub enum DefOrSpare {
    /// Spare bits.
    Spare {
        /// Their number.
        length: usize,
        /// Always set.
        spare: bool,
    },
    /// A definition.
    Definition(RecordDefinition),
}

/// How the bits of an element are read.
#[derive(Debug)]
pub enum FormatRule {
    /// The same way always.
    ContextFree {
        /// The content.
        content: RuleContent,
    },
    /// Depending on other items.
    Dependent {
        /// The items it depends on.
        name: Vec<String>,
        /// The content for each of their values.
        rules: Vec<(u64, RuleContent)>,
    },
}

/// What the bits of an element hold.
#[derive(Debug)]
pub enum RuleContent {
    /// Raw bits.
    Raw,
    /// A BDS register.
    Bds {
        /// Its kind.
        variation: BdsVariation,
    },
    /// A quantity.
    Quantity {
        /// Its bounds.
        constraints: Vec<RuleConstraint>,
        /// Fractional bits of the scaling.
        fractional_bits: u64,
        /// The scaling.
        scaling: QuantityValue,
        /// Whether it is signed.
        signed: bool,
        /// The unit.
        unit: Unit,
    },
    /// An integer.
    Integer {
        /// Its bounds.
        constraints: Vec<RuleConstraint>,
        /// Whether it is signed.
        signed: bool,
    },
    /// Named values.
    Table {
        /// The values and their names.
        values: Vec<(u64, String)>,
    },
    /// A string.
    String {
        /// Its encoding.
        variation: StringVariation,
    },
}

/// A bound on a quantity or integer.
#[derive(Debug)]
pub struct RuleConstraint {
    /// The comparison.
    pub typ: ConstraintType,
    /// The bound.
    pub value: QuantityValue,
}

/// The comparison of a bound.
#[derive(Debug, PartialEq, Eq, Clone, Copy, Structural)]
pub enum ConstraintType {
    /// `<`
    LessThan,
    /// `>`
    GreaterThan,
    /// `<=`
    LessThanOrEqual,
    /// `>=`
    GreaterThanOrEqual,
}

/// A number of a specification.
#[derive(Debug)]
pub enum QuantityValue {
    /// An integer.
    Integer {
        /// The integer.
        value: i64,
    },
    /// A real number, as the bits of its `f64`.
    Real {
        /// The bits of the number.
        value: u64,
    },
}

/// The encoding of a string.
#[derive(Debug)]
pub enum StringVariation {
    /// ASCII characters.
    StringAscii,
    /// Six-bit ICAO characters.
    StringICAO,
    /// Octal digits.
    StringOctal,
}

/// The kind of a BDS register.
#[derive(Debug)]
pub enum BdsVariation {
    /// At an address.
    BdsAt {
        /// The address.
        address: Option<String>,
    },
    /// With its address.
    BdsWithAddress {},
}

/// The UAP of a category.
#[derive(Debug)]
pub enum Uap {
    /// One UAP.
    Uap {
        /// The items, `None` for spare positions.
        items: Vec<Option<String>>,
    },
    /// Several UAPs.
    Uaps {
        /// The UAPs.
        variations: Vec<UapVariation>,
    },
}

/// One of several UAPs.
#[derive(Debug)]
pub struct UapVariation {
    items: Vec<Option<String>>,
    name: String,
}

impl UapVariation {
    /// A UAP named `name` with the given items.
    pub fn new(items: Vec<Option<String>>, name: String) -> (r: Self)
        ensures
            r.items() == items,
            r.name() == name,
    {
        UapVariation { items, name }
    }

    /// The items, `None` for spare positions.
    pub closed spec fn items(&self) -> Vec<Option<String>> {
        self.items
    }

    /// The name.
    pub closed spec fn name(&self) -> String {
        self.name
    }
}

/// A date.
#[derive(Debug)]
pub struct Date {
    /// The day.
    pub day: u8,
    /// The month.
    pub month: u8,
    /// The year.
    pub year: u16,
}

/// An edition.
#[derive(Debug)]
pub struct Edition {
    /// The major number.
    pub major: u32,
    /// The minor number.
    pub minor: u32,
}

} // verus!
