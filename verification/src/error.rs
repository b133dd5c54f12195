//! The uniform error taxonomy observed by the host.
//!
//! Every operation of the bridge returns `Result<T, EngineError>`: a native
//! failure is always converted into one of these tagged values and never
//! propagates as an abort.  Each error carries a human-readable message.

use vstd::prelude::*;

verus! {

/// A failure reported across the boundary, tagged by kind, carrying a message.
#[derive(Debug)]
pub enum EngineError {
    /// A dynamic host value could not be resolved to exactly one typed tag.
    Conversion(String),
    /// A handle did not refer to a live registry entry.
    Handle(String),
    /// A handle's capability tag did not match the operation's expectation.
    TypeMismatch(String),
    /// Column count, name or dtype conflict.
    SchemaMismatch(String),
    /// Slice, take or get beyond the length of the data.
    IndexOutOfBounds(String),
    /// A malformed parameter, such as an unknown aggregation name.
    InvalidArgument(String),
    /// A file or buffer read, write or parse failure.
    IOFailure(String),
    /// An engine-internal failure, such as arithmetic overflow.
    ComputationFailure(String),
}

/// The kind tag of an `EngineError`, without its message.
#[derive(Clone, Copy, PartialEq, Eq, Structural, Debug)]
pub enum ErrorKind {
    Conversion,
    Handle,
    TypeMismatch,
    SchemaMismatch,
    IndexOutOfBounds,
    InvalidArgument,
    IOFailure,
    ComputationFailure,
}

impl EngineError {
    /// The kind tag of this error.
    pub open spec fn spec_kind(&self) -> ErrorKind {
        match self {
            EngineError::Conversion(_) => ErrorKind::Conversion,
            EngineError::Handle(_) => ErrorKind::Handle,
            EngineError::TypeMismatch(_) => ErrorKind::TypeMismatch,
            EngineError::SchemaMismatch(_) => ErrorKind::SchemaMismatch,
            EngineError::IndexOutOfBounds(_) => ErrorKind::IndexOutOfBounds,
            EngineError::InvalidArgument(_) => ErrorKind::InvalidArgument,
            EngineError::IOFailure(_) => ErrorKind::IOFailure,
            EngineError::ComputationFailure(_) => ErrorKind::ComputationFailure,
        }
    }

    /// The message carried by this error.
    pub open spec fn spec_message(&self) -> Seq<char> {
        match self {
            EngineError::Conversion(m) => m@,
            EngineError::Handle(m) => m@,
            EngineError::TypeMismatch(m) => m@,
            EngineError::SchemaMismatch(m) => m@,
            EngineError::IndexOutOfBounds(m) => m@,
            EngineError::InvalidArgument(m) => m@,
            EngineError::IOFailure(m) => m@,
            EngineError::ComputationFailure(m) => m@,
        }
    }

    /// Returns the kind tag, which the host can match on.
    pub fn kind(&self) -> (k: ErrorKind)
        ensures
            k == self.spec_kind(),
    {
        match self {
            EngineError::Conversion(_) => ErrorKind::Conversion,
            EngineError::Handle(_) => ErrorKind::Handle,
            EngineError::TypeMismatch(_) => ErrorKind::TypeMismatch,
            EngineError::SchemaMismatch(_) => ErrorKind::SchemaMismatch,
            EngineError::IndexOutOfBounds(_) => ErrorKind::IndexOutOfBounds,
            EngineError::InvalidArgument(_) => ErrorKind::InvalidArgument,
            EngineError::IOFailure(_) => ErrorKind::IOFailure,
            EngineError::ComputationFailure(_) => ErrorKind::ComputationFailure,
        }
    }

    /// Returns a copy of the human-readable message.
    pub fn message(&self) -> (m: String)
        ensures
            m@ == self.spec_message(),
    {
        match self {
            EngineError::Conversion(m) => m.clone(),
            EngineError::Handle(m) => m.clone(),
            EngineError::TypeMismatch(m) => m.clone(),
            EngineError::SchemaMismatch(m) => m.clone(),
            EngineError::IndexOutOfBounds(m) => m.clone(),
            EngineError::InvalidArgument(m) => m.clone(),
            EngineError::IOFailure(m) => m.clone(),
            EngineError::ComputationFailure(m) => m.clone(),
        }
    }
}

} // verus!
