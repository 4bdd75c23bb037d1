//! Failures of writing pdata.

use vstd::prelude::*;
use vstd::string::*;

use crate::payload::PayloadType;
use crate::pdata_id::{id_text, uuid_text, PdataId};

verus! {

/// The kinds of failures of the local file system that are told apart.
#[derive(Clone, Copy, Debug, PartialEq, Eq, Structural)]
pub enum LocalErrorKind {
    /// A file or directory is not there.
    NotFound,
    /// The permissions do not suffice.
    PermissionDenied,
    /// A file of that name is there.
    AlreadyExists,
    /// What was asked for makes no sense.
    InvalidInput,
    /// Anything else.
    Other,
}

/// A failure of writing to the local file system.
#[derive(Debug, PartialEq, Eq)]
pub struct LocalError {
    /// The kind of the failure.
    pub kind: LocalErrorKind,
    /// What went wrong.
    pub message: String,
}

/// A failure of writing to the local file system, with its message as a sequence.
pub struct LocalErrorView {
    pub kind: LocalErrorKind,
    pub message: Seq<char>,
}

impl View for LocalError {
    type V = LocalErrorView;

    open spec fn view(&self) -> LocalErrorView {
        LocalErrorView { kind: self.kind, message: self.message@ }
    }
}

impl Clone for LocalError {
    fn clone(&self) -> (copy: Self)
        ensures
            copy@ == self@,
    {
        LocalError { kind: self.kind, message: self.message.clone() }
    }
}

/// Failure returned while preparing or uploading pdata. What went wrong underneath is kept as a
/// message.
#[derive(Debug)]
#[allow(inconsistent_fields)]
pub enum ArrowWriterError {
    /// The configured object store could not be constructed.
    ConfigureStorage {
        /// Underlying object-store configuration error.
        source: String,
    },
    /// A pdata idempotency key is not a usable UUIDv7.
    InvalidIdempotencyKey {
        /// Invalid pdata idempotency key.
        idempotency_key: PdataId,
    },
    /// A rendered object path is invalid.
    InvalidObjectPath {
        /// Rendered object path.
        path: String,
        /// Object-store path validation error.
        source: String,
    },
    /// An OTAP pdata payload could not be encoded as Arrow IPC.
    Encode {
        /// OTAP payload type that could not be encoded.
        payload_type: PayloadType,
        /// Underlying Arrow encoding error.
        source: String,
    },
    /// An atomic object upload failed.
    Upload {
        /// Object-store location that failed.
        location: String,
        /// Underlying object-store error.
        source: String,
    },
    /// A local Arrow IPC object could not be written or synced.
    LocalUpload {
        /// Local destination path that failed.
        path: String,
        /// Underlying filesystem error.
        source: LocalError,
    },
    /// The blocking local upload task failed.
    LocalUploadTask {
        /// Object-store location being written.
        location: String,
        /// Blocking-task failure.
        source: String,
    },
}

impl ArrowWriterError {
    /// The message of the failure.
    pub open spec fn text(self) -> Seq<char> {
        match self {
            ArrowWriterError::ConfigureStorage { source } =>
                "failed to configure Arrow IPC object storage: "@ + source@,
            ArrowWriterError::InvalidIdempotencyKey { idempotency_key } =>
                "pdata idempotency key "@ + uuid_text(idempotency_key.value)
                    + " has no valid UUIDv7 timestamp"@,
            ArrowWriterError::InvalidObjectPath { path, source } =>
                "object path template produced invalid path "@ + path@ + ": "@ + source@,
            ArrowWriterError::Encode { payload_type, source } => "failed to encode pdata payload "@
                + payload_type@.label + " as Arrow IPC: "@ + source@,
            ArrowWriterError::Upload { location, source } =>
                "failed to upload Arrow IPC object "@ + location@ + ": "@ + source@,
            ArrowWriterError::LocalUpload { path, source } =>
                "failed to write local Arrow IPC object "@ + path@ + ": "@ + source.message@,
            ArrowWriterError::LocalUploadTask { location, source } =>
                "local Arrow IPC upload task failed for "@ + location@ + ": "@ + source@,
        }
    }

    /// Returns the message of the failure.
    pub fn message(&self) -> (message: String)
        ensures
            message@ == self.text(),
    {
        match self {
            ArrowWriterError::ConfigureStorage { source } => {
                let mut message = "failed to configure Arrow IPC object storage: ".to_owned();
                message.append(source.as_str());
                message
            },
            ArrowWriterError::InvalidIdempotencyKey { idempotency_key } => {
                let mut message = "pdata idempotency key ".to_owned();
                let id = id_text(*idempotency_key);
                message.append(id.as_str());
                message.append(" has no valid UUIDv7 timestamp");
                message
            },
            ArrowWriterError::InvalidObjectPath { path, source } => about(
                "object path template produced invalid path ",
                path.as_str(),
                ": ",
                source.as_str(),
            ),
            ArrowWriterError::Encode { payload_type, source } => about(
                "failed to encode pdata payload ",
                payload_type.label(),
                " as Arrow IPC: ",
                source.as_str(),
            ),
            ArrowWriterError::Upload { location, source } => about(
                "failed to upload Arrow IPC object ",
                location.as_str(),
                ": ",
                source.as_str(),
            ),
            ArrowWriterError::LocalUpload { path, source } => about(
                "failed to write local Arrow IPC object ",
                path.as_str(),
                ": ",
                source.message.as_str(),
            ),
            ArrowWriterError::LocalUploadTask { location, source } => about(
                "local Arrow IPC upload task failed for ",
                location.as_str(),
                ": ",
                source.as_str(),
            ),
        }
    }
}

/// Joins what failed, the subject of it and the reason to a message.
fn about(failure: &str, subject: &str, separator: &str, reason: &str) -> (message: String)
    ensures
        message@ == failure@ + subject@ + separator@ + reason@,
{
    let mut message = failure.to_owned();
    message.append(subject);
    message.append(separator);
    message.append(reason);
    message
}

} // verus!
