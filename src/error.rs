//! The one failure the engine reports: which field of which record type could
//! not be decoded.
use vstd::prelude::*;

verus! {

/// Names the record type and the field whose decoding failed.
#[derive(Debug, PartialEq, Eq)]
pub struct ByteLayoutParsingError {
    pub record_type: String,
    pub field_name: String,
}

/// The mathematical content of a [`ByteLayoutParsingError`].
pub struct ErrorView {
    pub record_type: Seq<char>,
    pub field_name: Seq<char>,
}

impl ByteLayoutParsingError {
    /// The names the error carries, as character sequences.
    pub open spec fn view(&self) -> ErrorView {
        ErrorView { record_type: self.record_type@, field_name: self.field_name@ }
    }
}

} // verus!
