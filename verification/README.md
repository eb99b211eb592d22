# obj2asterix

Conversion between ASTERIX data blocks and structured values, driven by a
category specification, verified with Verus.

- `src/` is the library. `read_asterix` reads a data block into an object,
  `write_asterix` writes an object as a data block; both are stated exactly
  over spec functions of the bytes and values (`spec_read_asterix`,
  `spec_write_asterix`), including every error and the inputs on which the
  conversion would panic, which their `requires` rule out.
  `bit_reader` and `bit_writer` read and write the bit fields of Fixed items,
  `ais_code` encodes six-bit call signs, `spec_xml` and `spec_json` model the
  specifications, `unit` the units of measurement.
- A data block of one record is read as that record with `CAT` added; a
  block of several records (or none) as `{"CAT": ..., "records": [...]}`.
- `roundtrip.rs`, `compound_law.rs`, `record_law.rs` and the proof
  functions of the other modules state what reading gives back of what
  writing wrote: bits, FSPECs, items, whole records and lists of records,
  call signs, and the names of units, rules and encodings. Items of integer
  fields (unsigned, hexadecimal or two's complement, with or without a unit
  or a condition) in Fixed, Variable, Explicit, Repetitive and Compound
  items are covered, in any category where reading picks the UAP that
  writing picked. `rewrite.rs` states the converse: a data block read, of
  any number of records, is written back as the same bytes, for records of
  Fixed items, and Variables, Explicits and Repetitives of Fixed parts, of
  integer fields with or without a unit, in any category where writing
  picks the UAP that reading picked.
- `app/` reads the XML and JSON specifications, and converts the library's
  values to and from `serde_json` values; a floating-point number carries its
  quotients by the scales of the category, computed there.
