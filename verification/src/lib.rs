//! A verified parser for a small tag-delimited markup format describing
//! medical patient records.
//!
//! The library has two components, composed in one direction:
//!
//! * the grammar engine ([`grammar`]): a recursive-descent recognizer for the
//!   tag syntax (`<patient>`, `<name>`, `<age>`, `<visit>`, `<diagnosis>`,
//!   `<temperature>`, `<notes>`), which turns raw text into a typed syntax
//!   tree or a syntax error;
//! * the record extractor ([`extract`]): a walk over that tree which trims
//!   text fields, converts the age to an 8-bit integer, and produces the
//!   ordered sequence of [`Patient`] records or a data error.

pub mod extract;
pub mod grammar;
pub mod laws;
pub mod records;

pub use extract::parse_medical_document;
pub use grammar::Grammar;
pub use grammar::Rule;
pub use records::count_patients;
pub use records::count_total_visits;
pub use records::ParseError;
pub use records::Patient;
pub use records::Visit;
