use crate::types::LogicalType;
use vstd::prelude::*;

verus! {

/// Everything that can go wrong inside the engine core.
#[derive(Debug)]
pub enum DatabaseError {
    /// A value cannot be converted between the two types.
    CastFail { from: LogicalType, to: LogicalType },
    /// An index of that name already exists on the table.
    DuplicateIndex(String),
    /// Bytes that should hold text are not UTF-8.
    FromUtf8Error,
    /// A column is used where its table affiliation is required and missing.
    InvalidColumn(String),
    /// A value has a type that the operation does not accept.
    InvalidType,
    /// A literal that no scalar type can hold.
    InvalidValue(String),
    /// A read ran past the end of the stored bytes.
    Io,
    /// A primary-key component is null.
    NotNull,
    /// A number does not fit the target type.
    OverFlow,
    /// Text that is not `true` or `false`.
    ParseBool,
    /// Text that is no date or time in the expected format.
    ParseDate,
    /// Text that is no decimal number.
    ParseDecimal,
    /// Text that is no integer of the target type.
    ParseInt,
    /// A row carries no primary key.
    PrimaryKeyNotFound,
    /// A primary key nests tuples more than one level deep.
    PrimaryKeyTooManyLayers,
    /// Text or a decimal exceeds the declared length.
    TooLong,
    /// An integer does not fit the target integer type.
    TryFromInt,
    /// A statement or literal form that the core does not handle.
    UnsupportedStmt(String),
}

} // verus!
