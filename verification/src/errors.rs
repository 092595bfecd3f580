//! Failure kinds shared by every component.

use vstd::prelude::*;

verus! {

/// What can go wrong in the convergence core or while relaying operations.
#[derive(Debug, Clone, Copy, PartialEq, Eq, Structural)]
pub enum CollaboriError {
    /// A frame did not parse as an operation.
    SerializationError,
    /// A socket read, write or upgrade failed.
    TransportError,
    /// A replica was given a position outside its sequence.
    IndexOutOfRange,
    /// A targeted lookup found nothing.
    OperationNotFound,
    /// Two operations could not be reconciled.
    ConflictDetected,
    /// A queue to or from the relay has been closed.
    Disconnected,
}

impl CollaboriError {
    /// A short human-readable description of the failure.
    pub fn message(&self) -> (text: String)
        ensures
            text@ == self.message_spec(),
    {
        match self {
            CollaboriError::SerializationError => "Serialization error".to_owned(),
            CollaboriError::TransportError => "Transport error".to_owned(),
            CollaboriError::IndexOutOfRange => "Index out of range".to_owned(),
            CollaboriError::OperationNotFound => "Operation not found".to_owned(),
            CollaboriError::ConflictDetected => "Conflict detected".to_owned(),
            CollaboriError::Disconnected => "Disconnected".to_owned(),
        }
    }

    /// The text that [`CollaboriError::message`] returns.
    pub open spec fn message_spec(&self) -> Seq<char> {
        match self {
            CollaboriError::SerializationError => "Serialization error"@,
            CollaboriError::TransportError => "Transport error"@,
            CollaboriError::IndexOutOfRange => "Index out of range"@,
            CollaboriError::OperationNotFound => "Operation not found"@,
            CollaboriError::ConflictDetected => "Conflict detected"@,
            CollaboriError::Disconnected => "Disconnected"@,
        }
    }
}

} // verus!
