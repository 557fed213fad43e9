//! Decode failures of the wire codec. Every parser names the exact
//! condition under which each variant is returned.

use vstd::prelude::*;

verus! {

/// Why a byte string was rejected by a decoder.
#[derive(Debug, Clone, Copy, PartialEq, Eq, Structural)]
pub enum DecodeError {
    /// The input ended before the announced length was reached.
    UnexpectedEnd,
    /// A string field did not hold UTF-8.
    InvalidUtf8,
    /// The version byte is neither the request nor the response form.
    UnknownVersion,
    /// The opcode byte is none of the sixteen known opcodes.
    UnknownOpcode,
    /// The frame carries a flag this codec cannot undo (compression or a
    /// custom payload).
    UnsupportedFlag,
    /// A response arrived on a negative stream id with an opcode other
    /// than `Event`.
    UnexpectedEventOpcode,
    /// The four-byte error code is not in the protocol's taxonomy.
    UnknownErrorCode,
    /// The result kind is not one of the five known kinds.
    UnknownResultKind,
    /// The event type string is not one of the three known events.
    UnknownEventType,
    /// A schema/topology/status change type string is unknown.
    UnknownChangeType,
    /// A schema change target string is unknown.
    UnknownTarget,
    /// An inet address field is neither four nor sixteen bytes long.
    BadInetLength,
    /// A column type id is not in the protocol's table.
    UnknownColType,
    /// A batch kind byte is not logged, unlogged or counter.
    UnknownBatchType,
    /// A length field that may not be negative was negative.
    NegativeLength,
    /// A consistency short is not in the protocol's table.
    UnknownConsistency,
    /// A null (or not-set) column was read as a non-optional value.
    NullValue,
}

impl DecodeError {
    /// A short fixed description of the failure.
    pub fn message(&self) -> (r: &'static str)
    {
        match self {
            DecodeError::UnexpectedEnd => "input ended before the announced length",
            DecodeError::InvalidUtf8 => "string field is not utf-8",
            DecodeError::UnknownVersion => "unknown protocol version byte",
            DecodeError::UnknownOpcode => "unknown opcode byte",
            DecodeError::UnsupportedFlag => "frame flag not supported by this codec",
            DecodeError::UnexpectedEventOpcode => "negative stream id without event opcode",
            DecodeError::UnknownErrorCode => "unknown server error code",
            DecodeError::UnknownResultKind => "unknown result kind",
            DecodeError::UnknownEventType => "unknown event type",
            DecodeError::UnknownChangeType => "unknown change type",
            DecodeError::UnknownTarget => "unknown schema change target",
            DecodeError::BadInetLength => "inet address is neither 4 nor 16 bytes",
            DecodeError::UnknownColType => "unknown column type id",
            DecodeError::UnknownBatchType => "unknown batch kind byte",
            DecodeError::NegativeLength => "negative length where none is allowed",
            DecodeError::UnknownConsistency => "unknown consistency short",
            DecodeError::NullValue => "value is null or non-set",
        }
    }
}

} // verus!
