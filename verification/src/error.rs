//! What the store refuses, and how it says so.
use crate::text::{decimal_text, signed_decimal};
use vstd::prelude::*;

verus! {

/// A refusal of the store.
#[derive(Clone, Debug)]
pub enum StoreError {
    /// The object does not exist.
    NotFound { path: String },
    /// A create found an object under the key.
    AlreadyExists { path: String },
    /// An update named an ETag that is not the current one.
    Precondition { path: String },
    /// A conditional read found another ETag or a later modification; the text
    /// says which.
    ConditionFailed { path: String, reason: String },
    /// A conditional read found the version that the reader already has; the text
    /// says which.
    NotModified { path: String, reason: String },
    /// The key is not a canonical object path; the text says why.
    InvalidPath { path: String, reason: String },
    /// The byte range cannot be served; the text says why.
    BadRange { reason: String },
    /// An attribute that the stored form has no name for.
    UnsupportedAttribute,
    /// A stored attribute whose name is not known.
    UnknownAttribute { kind: String },
    /// The stored attributes could not be read; the text says why.
    UnreadableAttributes { reason: String },
    /// The database was written by a later version.
    NewerFormat { version: i64 },
    /// No further ETag can be allocated.
    SequenceExhausted,
    /// A position lies in no part of the object.
    BadLayout,
    /// A chunk holds fewer bytes than its part promises.
    Truncated,
    /// A completion while parts are missing.
    MissingParts,
    /// The parts add up to more than a size can say.
    SizeOverflow,
    /// The upload is no longer open for data.
    UploadGone,
    /// The upload handle takes no more parts.
    UploadFull,
    /// The upload handle was already completed or aborted.
    UploadClosed,
}

/// How the standard library shows a text in quotes with escapes.
pub uninterp spec fn quoted_text(text: Seq<char>) -> Seq<char>;

/// The `Debug` form of a `str`: the text in double quotes, with escapes. Which
/// characters are escaped, and how, is left to the name of the result.
#[verifier::external_body]
pub(crate) fn quoted(text: &str) -> (shown: String)
    ensures
        shown@ == quoted_text(text@),
{
    format!("{text:?}")
}

impl StoreError {
    /// The words that go with a refusal.
    pub open spec fn words(self) -> Seq<char> {
        match self {
            StoreError::NotFound { .. } => "the object does not exist"@,
            StoreError::AlreadyExists { .. } => "the object already exists"@,
            StoreError::Precondition { .. } => "the ETag does not match"@,
            StoreError::ConditionFailed { reason, .. } => reason@,
            StoreError::NotModified { reason, .. } => reason@,
            StoreError::InvalidPath { reason, .. } => "Encountered object with invalid path: "@
                + reason@,
            StoreError::BadRange { reason } => reason@,
            StoreError::UnsupportedAttribute =>
                "the development store does not support this attribute"@,
            StoreError::UnknownAttribute { kind } => "unknown stored attribute "@ + quoted_text(
                kind@,
            ),
            StoreError::UnreadableAttributes { reason } => reason@,
            StoreError::NewerFormat { version } => "local store format "@ + signed_decimal(
                version as int,
            ) + " is newer than this Celld supports"@,
            StoreError::SequenceExhausted => "no ETag is left to allocate"@,
            StoreError::BadLayout => "invalid object chunk layout"@,
            StoreError::Truncated => "truncated object chunk"@,
            StoreError::MissingParts =>
                "multipart completion requires every part to finish successfully"@,
            StoreError::SizeOverflow => "object size overflow"@,
            StoreError::UploadGone => "multipart upload was completed, aborted, or expired"@,
            StoreError::UploadFull => "multipart upload closed or part limit exceeded"@,
            StoreError::UploadClosed => "multipart upload already closed"@,
        }
    }

    /// The message that goes with a refusal.
    pub fn message(&self) -> (text: String)
        ensures
            text@ == self.words(),
    {
        match self {
            StoreError::NotFound { .. } => "the object does not exist".to_owned(),
            StoreError::AlreadyExists { .. } => "the object already exists".to_owned(),
            StoreError::Precondition { .. } => "the ETag does not match".to_owned(),
            StoreError::ConditionFailed { reason, .. } => reason.clone(),
            StoreError::NotModified { reason, .. } => reason.clone(),
            StoreError::InvalidPath { reason, .. } => {
                let mut text = "Encountered object with invalid path: ".to_owned();
                text.append(reason.as_str());
                text
            },
            StoreError::BadRange { reason } => reason.clone(),
            StoreError::UnsupportedAttribute =>
                "the development store does not support this attribute".to_owned(),
            StoreError::UnknownAttribute { kind } => {
                let mut text = "unknown stored attribute ".to_owned();
                text.append(quoted(kind.as_str()).as_str());
                text
            },
            StoreError::UnreadableAttributes { reason } => reason.clone(),
            StoreError::NewerFormat { version } => {
                let mut text = "local store format ".to_owned();
                text.append(decimal_text(*version).as_str());
                text.append(" is newer than this Celld supports");
                text
            },
            StoreError::SequenceExhausted => "no ETag is left to allocate".to_owned(),
            StoreError::BadLayout => "invalid object chunk layout".to_owned(),
            StoreError::Truncated => "truncated object chunk".to_owned(),
            StoreError::MissingParts =>
                "multipart completion requires every part to finish successfully".to_owned(),
            StoreError::SizeOverflow => "object size overflow".to_owned(),
            StoreError::UploadGone =>
                "multipart upload was completed, aborted, or expired".to_owned(),
            StoreError::UploadFull => "multipart upload closed or part limit exceeded".to_owned(),
            StoreError::UploadClosed => "multipart upload already closed".to_owned(),
        }
    }
}

} // verus!
