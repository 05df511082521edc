//! What can go wrong, and where.

use vstd::prelude::*;

verus! {

/// The variable-precision integer families of the wire format.
#[derive(Clone, Copy, Debug, PartialEq, Eq, Structural)]
pub enum Family {
    Uvint8,
    Uvint16,
    Uvint32,
    Svint12,
    Svint13,
    Svint14,
    Svint16,
    Svint24,
}

/// The fields of an entity state body, in wire order.
#[derive(Clone, Copy, Debug, PartialEq, Eq, Structural)]
pub enum Field {
    FieldsPresent,
    Units,
    FullUpdateFlag,
    EntityId,
    ForceId,
    NumberOfVariableParameters,
    EntityType,
    AlternateEntityType,
    LinearVelocity,
    Location,
    Orientation,
    Appearance,
    DrOther,
    DrLinearAcceleration,
    DrAngularVelocity,
    Marking,
    Capabilities,
}

/// Why one field could not be read.
#[derive(Clone, Copy, Debug, PartialEq, Eq, Structural)]
pub enum ParseError {
    /// The flag code read has no tier in the family's table.
    UnknownTierFlag { family: Family, flag: u8 },
    /// The input ends before the field does.
    EndOfInput,
}

/// Why a value or a body could not be encoded or decoded.
#[derive(Clone, Copy, Debug, PartialEq, Eq, Structural)]
pub enum CdisError {
    /// No tier of the family can hold the value.
    ValueOutOfRange { family: Family, value: i64 },
    /// A full update was asked for and an optional field is absent.
    MissingRequiredField { field: Field },
    /// A field of the body failed to decode.
    MalformedBody { field: Field, cause: ParseError },
    /// The encoding would pass the end of the buffer.
    CapacityExceeded,
}

} // verus!
