//! The errors that array operations report.
use crate::dtype::DType;
use vstd::prelude::*;

verus! {

/// What went wrong in an array operation.
#[derive(Debug)]
pub enum VortexError {
    /// The operation (first) is not available for the encoding (second).
    NotImplemented(String, String),
    /// A value of the first type was expected and one of the second came.
    DTypeMismatch(DType, DType),
    /// The index (first) is not below the bound (second).
    OutOfBounds(usize, usize),
    /// A value that is absent would land in a type that admits none.
    NullsInNonNullable,
    /// An arithmetic result does not fit its type.
    ArithmeticOverflow,
    /// The parts of an array do not agree with one another.
    InvalidEncoding(String),
    /// A serialized stream is malformed.
    CorruptStream(String),
    /// A required construction option was not given.
    MissingOption(String),
    /// The byte source failed.
    Io(String),
}

} // verus!
