//! Conversion between ASTERIX data blocks and structured values, driven by a
//! category specification.

pub mod ais_code;
pub mod bitstream;
pub mod bit_reader;
pub mod bit_writer;
pub mod error;
pub mod strings;
pub mod unit;
pub mod value;
pub mod fields;
pub mod read_asterix;
pub mod spec_xml;
pub mod spec_json;
pub mod write_asterix;
pub mod roundtrip;
pub mod compound_law;
pub mod record_law;
pub mod rewrite;
