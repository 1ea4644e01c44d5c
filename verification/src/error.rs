//! Error kinds surfaced by the engine.

use vstd::prelude::*;

verus! {

/// The kind of a failure.
///
/// `Sql`, `InvalidOption` and `Unavailable` reach the host synchronously.
/// The foreign I/O kinds arise in worker tasks and trigger a retry.
/// `Internal` marks a violated invariant.
#[derive(Clone, Copy, Debug, PartialEq, Eq, Structural)]
pub enum SpringError {
    /// A statement is malformed or semantically wrong.
    Sql,
    /// An option bag holds an unknown key or a bad value.
    InvalidOption,
    /// A transient condition: a queue is missing or a worker is overloaded.
    Unavailable,
    /// The remote peer sent malformed data or went away.
    ForeignIo,
    /// A foreign source did not deliver a row in time.
    ForeignSourceTimeout,
    /// A foreign sink did not accept a row in time.
    ForeignSinkTimeout,
    /// An invariant of the engine was violated.
    Internal,
}

impl SpringError {
    /// Whether a worker answers this failure by backing off and retrying.
    pub open spec fn is_foreign(self) -> bool {
        self == SpringError::ForeignIo || self == SpringError::ForeignSourceTimeout || self
            == SpringError::ForeignSinkTimeout
    }

    /// Tells the foreign I/O kinds from the rest.
    pub fn is_foreign_io(&self) -> (res: bool)
        ensures
            res == self.is_foreign(),
    {
        match self {
            SpringError::ForeignIo => true,
            SpringError::ForeignSourceTimeout => true,
            SpringError::ForeignSinkTimeout => true,
            _ => false,
        }
    }

    /// A short name of the kind, for messages.
    pub fn kind_name(&self) -> (res: &'static str)
        ensures
            res@ == Self::kind_text(*self),
    {
        match self {
            SpringError::Sql => "Sql",
            SpringError::InvalidOption => "InvalidOption",
            SpringError::Unavailable => "Unavailable",
            SpringError::ForeignIo => "ForeignIo",
            SpringError::ForeignSourceTimeout => "ForeignSourceTimeout",
            SpringError::ForeignSinkTimeout => "ForeignSinkTimeout",
            SpringError::Internal => "Internal",
        }
    }

    /// The text that `kind_name` gives for each kind.
    pub open spec fn kind_text(e: SpringError) -> Seq<char> {
        match e {
            SpringError::Sql => "Sql"@,
            SpringError::InvalidOption => "InvalidOption"@,
            SpringError::Unavailable => "Unavailable"@,
            SpringError::ForeignIo => "ForeignIo"@,
            SpringError::ForeignSourceTimeout => "ForeignSourceTimeout"@,
            SpringError::ForeignSinkTimeout => "ForeignSinkTimeout"@,
            SpringError::Internal => "Internal"@,
        }
    }
}

} // verus!
