//! Declarative decoding of binary records: a record's wire layout is an
//! ordered list of field declarations, and one engine walks an input buffer
//! through them, left to right, filling a record value.
pub mod decode;
pub mod engine;
pub mod error;
pub mod laws;
pub mod layout;
pub mod primitive;

pub use error::ByteLayoutParsingError;
pub use layout::{FieldDecl, FieldKind, FieldValue, Record, RecordLayout};
pub use primitive::{Primitive, ToVec};
