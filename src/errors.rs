//! Error types surfaced by the library.

use vstd::prelude::*;

verus! {

/// Why a field of a response could not be converted to its typed value.
#[derive(Clone, Debug, PartialEq, Eq)]
pub enum ErrorKind {
    /// A required field was not present.
    Missing,
    /// The value was not a decimal integer within the target type's range.
    MalformedInteger,
    /// The value was not a decimal number.
    MalformedFloat,
    /// The value was well-formed but not one that the field may hold.
    InvalidValue(String),
    /// A field appeared where it was not expected.
    UnexpectedField(String),
}

/// A response frame could not be converted to the expected type.
#[derive(Clone, Debug, PartialEq, Eq)]
pub struct TypedResponseError {
    /// The field whose conversion failed.
    pub field: &'static str,
    /// What went wrong.
    pub kind: ErrorKind,
}

/// An error kind as the contracts speak of it.
pub enum KindModel {
    Missing,
    MalformedInteger,
    MalformedFloat,
    InvalidValue(Seq<char>),
    UnexpectedField(Seq<char>),
}

pub open spec fn kind_model(k: ErrorKind) -> KindModel {
    match k {
        ErrorKind::Missing => KindModel::Missing,
        ErrorKind::MalformedInteger => KindModel::MalformedInteger,
        ErrorKind::MalformedFloat => KindModel::MalformedFloat,
        ErrorKind::InvalidValue(v) => KindModel::InvalidValue(v@),
        ErrorKind::UnexpectedField(v) => KindModel::UnexpectedField(v@),
    }
}

/// A conversion error as the contracts speak of it: the field's name and the kind.
pub open spec fn error_model(e: TypedResponseError) -> (Seq<char>, KindModel) {
    (e.field@, kind_model(e.kind))
}

} // verus!
