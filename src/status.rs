use vstd::prelude::*;
use crate::version::Version;

verus! {

/// Why the history is inconsistent.
#[derive(Debug, Clone)]
pub enum MigrationFailure {
    /// A SQL script started earlier and never finished.
    DirtyVersion,
    /// An applied SQL script no longer has the checksum it was applied with.
    ChecksumMismatch { description: String, expected: Vec<u8>, actual: Vec<u8> },
}

/// What a walk over the steps found or did.
#[derive(Debug, Clone)]
pub enum MigrationStatus {
    /// Every step up to the target is applied; the version is the last one walked over.
    UpToDate(Version),
    /// A step is pending: the last applied SQL version, if any, and the pending step's version.
    Todo(Option<Version>, Version),
    /// The history is inconsistent at the given version.
    Failed(Version, MigrationFailure),
}

/// A hard error of the engine.
#[derive(Debug, Clone)]
pub enum MigrationError {
    /// Two steps of one family carry the same version.
    DuplicateVersion(Version),
    /// An applied SQL script changed after it was applied.
    ChecksumMismatch { version: Version, description: String },
    /// The history shows a failure, found while planning a migration.
    PreviouslyFailed(Version, MigrationFailure),
    /// The backend offers no exclusive lock that the engine knows of.
    LockUnavailable,
    /// The clock reading cannot be stored as a timestamp.
    ClockError(u64),
    /// An operation on the database reported an error; the caller holds its cause.
    Interrupted,
}

/// Mathematical form of a [`MigrationFailure`].
pub enum FailureModel {
    DirtyVersion,
    ChecksumMismatch { description: Seq<char>, expected: Seq<u8>, actual: Seq<u8> },
}

/// Mathematical form of a [`MigrationStatus`].
pub enum StatusModel {
    UpToDate(i64),
    Todo(Option<i64>, i64),
    Failed(i64, FailureModel),
}

/// Mathematical form of a [`MigrationError`].
pub enum ErrorModel {
    DuplicateVersion(i64),
    ChecksumMismatch { version: i64, description: Seq<char> },
    PreviouslyFailed(i64, FailureModel),
    LockUnavailable,
    ClockError(u64),
    Interrupted,
}

/// Mathematical form of a result of the engine.
pub enum Outcome {
    Done(StatusModel),
    Error(ErrorModel),
}

impl View for MigrationFailure {
    type V = FailureModel;

    open spec fn view(&self) -> FailureModel {
        match self {
            MigrationFailure::DirtyVersion => FailureModel::DirtyVersion,
            MigrationFailure::ChecksumMismatch { description, expected, actual } => {
                FailureModel::ChecksumMismatch {
                    description: description@,
                    expected: expected@,
                    actual: actual@,
                }
            },
        }
    }
}

impl View for MigrationStatus {
    type V = StatusModel;

    open spec fn view(&self) -> StatusModel {
        match self {
            MigrationStatus::UpToDate(v) => StatusModel::UpToDate(v.0),
            MigrationStatus::Todo(l, n) => StatusModel::Todo(
                match l {
                    Some(x) => Some(x.0),
                    None => None,
                },
                n.0,
            ),
            MigrationStatus::Failed(v, f) => StatusModel::Failed(v.0, f@),
        }
    }
}

impl View for MigrationError {
    type V = ErrorModel;

    open spec fn view(&self) -> ErrorModel {
        match self {
            MigrationError::DuplicateVersion(v) => ErrorModel::DuplicateVersion(v.0),
            MigrationError::ChecksumMismatch { version, description } => {
                ErrorModel::ChecksumMismatch { version: version.0, description: description@ }
            },
            MigrationError::PreviouslyFailed(v, f) => ErrorModel::PreviouslyFailed(v.0, f@),
            MigrationError::LockUnavailable => ErrorModel::LockUnavailable,
            MigrationError::ClockError(s) => ErrorModel::ClockError(*s),
            MigrationError::Interrupted => ErrorModel::Interrupted,
        }
    }
}

/// Mathematical form of a result of the engine.
pub open spec fn outcome_of(r: Result<MigrationStatus, MigrationError>) -> Outcome {
    match r {
        Ok(s) => Outcome::Done(s@),
        Err(e) => Outcome::Error(e@),
    }
}

} // verus!
