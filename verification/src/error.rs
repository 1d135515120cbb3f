//! Error taxonomy of the download engine.
//!
//! Failures during a transfer are captured into the owning task's `error`
//! field; failures of direct operations are returned to the caller.

use vstd::prelude::*;

verus! {

#[derive(Debug)]
pub enum DownloadError {
    /// The metadata probe for a new task could not complete.
    ProbeFailed,
    /// An operation referenced an id that is not in the store.
    TaskNotFound(String),
    /// Connect failure, timeout or non-success HTTP status during transfer.
    NetworkError(String),
    /// File open, seek or write failure.
    IoFailure(String),
    /// The digest of the downloaded file disagrees with the expected one.
    ChecksumMismatch { algorithm: String, expected: String, actual: String },
    /// The transfer's execution unit terminated abnormally.
    WorkerFailure(String),
}

/// The rendered message of each error, as a sequence of characters.
pub open spec fn error_message_view(e: DownloadError) -> Seq<char> {
    match e {
        DownloadError::ProbeFailed => "HEAD request failed"@,
        DownloadError::TaskNotFound(id) => "Task not found: "@ + id@,
        DownloadError::NetworkError(m) => m@,
        DownloadError::IoFailure(m) => m@,
        DownloadError::ChecksumMismatch { algorithm, expected, actual } => algorithm@
            + " mismatch: expected "@ + expected@ + ", got "@ + actual@,
        DownloadError::WorkerFailure(m) => "Task join error: "@ + m@,
    }
}

impl DownloadError {
    /// Render the error as the diagnostic text stored on a failed task.
    pub fn message(&self) -> (msg: String)
        ensures
            msg@ == error_message_view(*self),
    {
        match self {
            DownloadError::ProbeFailed => {
                let mut s = String::new();
                s.append("HEAD request failed");
                assert(s@ =~= error_message_view(*self));
                s
            },
            DownloadError::TaskNotFound(id) => {
                let mut s = String::new();
                s.append("Task not found: ");
                s.append(id.as_str());
                assert(s@ =~= error_message_view(*self));
                s
            },
            DownloadError::NetworkError(m) => m.clone(),
            DownloadError::IoFailure(m) => m.clone(),
            DownloadError::ChecksumMismatch { algorithm, expected, actual } => {
                let mut s = String::new();
                s.append(algorithm.as_str());
                s.append(" mismatch: expected ");
                s.append(expected.as_str());
                s.append(", got ");
                s.append(actual.as_str());
                assert(s@ =~= error_message_view(*self));
                s
            },
            DownloadError::WorkerFailure(m) => {
                let mut s = String::new();
                s.append("Task join error: ");
                s.append(m.as_str());
                assert(s@ =~= error_message_view(*self));
                s
            },
        }
    }
}

} // verus!
