//! The error type shared by every fallible operation of the engine.

use vstd::prelude::*;
use crate::text::{decimal, push_decimal};

verus! {

/// The error type of the Apache Arrow library, carried through unchanged.
#[verifier::external_type_specification]
#[verifier::external_body]
pub struct ExArrowError(arrow::error::ArrowError);

/// Unified error type for all Argus operations.
#[derive(Debug)]
#[non_exhaustive]
pub enum ArgusError {
    /// The schema version of an incoming batch does not match the version this build expects.
    SchemaVersionMismatch {
        /// The schema version this build expects.
        expected: u16,
        /// The schema version found in the incoming batch.
        actual: u16,
    },
    /// A parameter value is outside its valid domain.
    InvalidParameter {
        /// Name of the invalid parameter.
        name: &'static str,
        /// Human-readable explanation of why the value is invalid.
        reason: String,
    },
    /// An operation requires more observations than are currently available.
    InsufficientData {
        /// Minimum number of observations required.
        needed: u64,
        /// Number of observations currently available.
        have: u64,
    },
    /// An error propagated from the Apache Arrow library.
    Arrow(arrow::error::ArrowError),
    /// An error during data ingestion from an external source.
    DataIngestion {
        /// The data source that produced the error.
        source_name: String,
        /// Human-readable detail about what went wrong.
        detail: String,
    },
    /// The schema structure does not match the canonical Argus schema.
    InvalidSchema(String),
}

/// The text of `ArgusError::Arrow`'s error, as `ArrowError`'s `Display` writes it.
#[verifier::external_body]
fn arrow_error_text(e: &arrow::error::ArrowError) -> String {
    e.to_string()
}

impl ArgusError {
    /// The message of an error of any variant but `Arrow`.
    pub open spec fn message_text(self) -> Seq<char> {
        match self {
            ArgusError::SchemaVersionMismatch { expected, actual } => "schema version mismatch: expected "@
                + decimal(expected as nat) + ", got "@ + decimal(actual as nat),
            ArgusError::InvalidParameter { name, reason } => "invalid parameter `"@ + name@ + "`: "@
                + reason@,
            ArgusError::InsufficientData { needed, have } => "insufficient data: need at least "@
                + decimal(needed as nat) + " observations, have "@ + decimal(have as nat),
            ArgusError::DataIngestion { source_name, detail } => "data ingestion error from "@
                + source_name@ + ": "@ + detail@,
            ArgusError::InvalidSchema(msg) => "invalid schema: "@ + msg@,
            ArgusError::Arrow(_) => "arrow error: "@,
        }
    }

    /// The human-readable message of the error. For `Arrow`, the text of the Arrow
    /// error follows the prefix `arrow error: `.
    pub fn message(&self) -> (s: String)
        ensures
            !(*self is Arrow) ==> s@ == self.message_text(),
            *self is Arrow ==> s@.len() >= 13 && s@.subrange(0, 13) == self.message_text(),
    {
        let mut s = String::new();
        match self {
            ArgusError::SchemaVersionMismatch { expected, actual } => {
                s.append("schema version mismatch: expected ");
                push_decimal(&mut s, *expected as u64);
                s.append(", got ");
                push_decimal(&mut s, *actual as u64);
            },
            ArgusError::InvalidParameter { name, reason } => {
                s.append("invalid parameter `");
                s.append(name);
                s.append("`: ");
                s.append(reason.as_str());
            },
            ArgusError::InsufficientData { needed, have } => {
                s.append("insufficient data: need at least ");
                push_decimal(&mut s, *needed);
                s.append(" observations, have ");
                push_decimal(&mut s, *have);
            },
            ArgusError::Arrow(e) => {
                s.append("arrow error: ");
                proof {
                    reveal_strlit("arrow error: ");
                }
                let text = arrow_error_text(e);
                s.append(text.as_str());
                assert(s@.subrange(0, 13) =~= "arrow error: "@);
            },
            ArgusError::DataIngestion { source_name, detail } => {
                s.append("data ingestion error from ");
                s.append(source_name.as_str());
                s.append(": ");
                s.append(detail.as_str());
            },
            ArgusError::InvalidSchema(msg) => {
                s.append("invalid schema: ");
                s.append(msg.as_str());
            },
        }
        s
    }
}

/// Succeeds when `have` observations are at least the `needed` ones, and otherwise
/// reports `InsufficientData { needed, have }`.
pub fn require_observations(needed: u64, have: u64) -> (r: Result<(), ArgusError>)
    ensures
        r is Ok <==> have >= needed,
        have < needed ==> (r matches Err(ArgusError::InsufficientData { needed: n, have: h })
            && n == needed && h == have),
{
    if have < needed {
        Err(ArgusError::InsufficientData { needed, have })
    } else {
        Ok(())
    }
}

} // verus!
