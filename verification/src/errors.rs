//! The error taxonomy of the data-access layer.
//!
//! Every failure a caller can observe is one of these kinds; codec and
//! cursor errors are never swallowed, and a conditional update that finds
//! no item reports `ConditionFailed`, distinct from a plain `NotFound`.

use vstd::prelude::*;

verus! {

/// A machine-readable failure kind.
#[derive(Clone, Copy, Debug, PartialEq, Eq, Structural)]
pub enum DataError {
    /// An item was absent on a get.
    NotFound,
    /// A stored item, cursor or global id could not be decoded.
    DecodeError,
    /// The existence precondition of a conditional update failed.
    ConditionFailed,
    /// The backend or the network failed; possibly transient.
    TransportError,
    /// The principal does not own the record it tried to act on.
    Unauthorized,
    /// A client-supplied value was malformed.
    ValidationError,
}

impl DataError {
    /// A short stable name for the kind, for logs and API responses.
    pub fn kind_name(&self) -> (r: String)
        ensures
            r@ == self.spec_kind_name(),
    {
        match self {
            DataError::NotFound => String::from_str("NotFound"),
            DataError::DecodeError => String::from_str("DecodeError"),
            DataError::ConditionFailed => String::from_str("ConditionFailed"),
            DataError::TransportError => String::from_str("TransportError"),
            DataError::Unauthorized => String::from_str("Unauthorized"),
            DataError::ValidationError => String::from_str("ValidationError"),
        }
    }

    /// The name that `kind_name` returns.
    pub open spec fn spec_kind_name(&self) -> Seq<char> {
        match self {
            DataError::NotFound => "NotFound"@,
            DataError::DecodeError => "DecodeError"@,
            DataError::ConditionFailed => "ConditionFailed"@,
            DataError::TransportError => "TransportError"@,
            DataError::Unauthorized => "Unauthorized"@,
            DataError::ValidationError => "ValidationError"@,
        }
    }
}

} // verus!
