//! The words of every refusal.
use crate::error::{quoted_text, StoreError};
use crate::local_storage::SpecError;
use crate::text::signed_decimal;
use crate::transfer::failure::TransferError;
use crate::transfer::options::UsageError;
use vstd::prelude::*;

verus! {

/// The words of what the store refuses: each names what it is about.
pub proof fn words_of_the_store(error: StoreError)
    ensures
        error is NotFound ==> error.words() == "the object does not exist"@,
        error is AlreadyExists ==> error.words() == "the object already exists"@,
        error is Precondition ==> error.words() == "the ETag does not match"@,
        error matches StoreError::ConditionFailed { reason, .. } ==> error.words() == reason@,
        error matches StoreError::NotModified { reason, .. } ==> error.words() == reason@,
        error matches StoreError::InvalidPath { reason, .. } ==> error.words()
            == "Encountered object with invalid path: "@ + reason@,
        error matches StoreError::BadRange { reason } ==> error.words() == reason@,
        error is UnsupportedAttribute ==> error.words()
            == "the development store does not support this attribute"@,
        error matches StoreError::UnknownAttribute { kind } ==> error.words()
            == "unknown stored attribute "@ + quoted_text( kind@, ),
        error matches StoreError::UnreadableAttributes { reason } ==> error.words() == reason@,
        error matches StoreError::NewerFormat { version } ==> error.words()
            == "local store format "@ + signed_decimal( version as int, ) + " is newer than this Celld supports"@,
        error is SequenceExhausted ==> error.words() == "no ETag is left to allocate"@,
        error is BadLayout ==> error.words() == "invalid object chunk layout"@,
        error is Truncated ==> error.words() == "truncated object chunk"@,
        error is MissingParts ==> error.words()
            == "multipart completion requires every part to finish successfully"@,
        error is SizeOverflow ==> error.words() == "object size overflow"@,
        error is UploadGone ==> error.words()
            == "multipart upload was completed, aborted, or expired"@,
        error is UploadFull ==> error.words() == "multipart upload closed or part limit exceeded"@,
        error is UploadClosed ==> error.words() == "multipart upload already closed"@,
{
}

/// The words of a specification that is refused.
pub proof fn words_of_a_specification(error: SpecError)
    ensures
        error is NoAuthorityMarker ==> error.words()
            == "local storage requires sqlite:///absolute/path/objects.sqlite3"@,
        error is NoPlainPath ==> error.words()
            == "local storage requires sqlite:///absolute/path/objects.sqlite3 without an authority, URI escapes, query or fragment"@,
{
}

/// The words of a command line that is refused: each names the option or the argument.
pub proof fn words_of_a_command_line(error: UsageError)
    ensures
        error matches UsageError::UnknownCommand { command } ==> error.words()
            == "unknown command "@ + quoted_text(command@) + "; use --help"@,
        error matches UsageError::MissingValue { option } ==> error.words()
            == option@ + " requires a value"@,
        error matches UsageError::UnknownOption { argument } ==> error.words()
            == "unknown option "@ + quoted_text(argument@) + "; use --help"@,
        error is NotQuiesced ==> error.words()
            == "copy requires --quiesced; stop both namespaces' writers first"@,
        error is ResumeOnVerify ==> error.words() == "--resume applies only to copy"@,
        error matches UsageError::MissingOption { option } ==> error.words()
            == "missing "@ + option@,
        error is AuditUsage ==> error.words() == "usage: celld-store-copy audit --source SPEC"@,
{
}

/// The words of what stops a transfer: each names the object that it is about.
pub proof fn words_of_a_transfer(error: TransferError)
    ensures
        error is SameSpecs ==> error.words() == "source and destination must differ"@,
        error is UnsupportedStore ==> error.words()
            == "only az:// and sqlite:// stores are supported"@,
        error matches TransferError::BadSpec { error } ==> error.words() == error.words(),
        error matches TransferError::SourceMissing { path } ==> error.words()
            == "source SQLite database does not exist: "@ + path@,
        error is Overlap ==> error.words() == "source and destination namespaces overlap"@,
        error is DestinationNotEmpty ==> error.words()
            == "destination is not empty; use --resume only with this copy's existing manifest"@,
        error is ManifestExists ==> error.words()
            == "manifest already exists; use --resume or choose a fresh manifest"@,
        error is ManifestFormat ==> error.words() == "unsupported manifest format"@,
        error is ManifestForeign ==> error.words()
            == "manifest belongs to different source/destination specifications"@,
        error is EmptySource ==> error.words()
            == "source namespace is empty; refusing a likely wrong source"@,
        error is DuplicateRecords ==> error.words() == "duplicate manifest keys"@,
        error matches TransferError::UnexpectedKey { key } ==> error.words()
            == "unexpected destination key "@ + quoted_text(key@),
        error matches TransferError::ContentMismatch { key } ==> error.words()
            == "content mismatch for "@ + quoted_text(key@) + "; destination is never overwritten"@,
        error matches TransferError::AttributeMismatch { key } ==> error.words()
            == "attribute mismatch for "@ + quoted_text(key@) + "; destination is never overwritten"@,
        error matches TransferError::KeysetDiffers { source } ==> error.words()
            == (if source { "source keyset differs from manifest"@ } else { "destination keyset differs from manifest"@ }),
        error matches TransferError::GenerationChanged { key } ==> error.words()
            == "source generation changed for "@ + quoted_text(key@) + "; re-establish a quiescent snapshot"@,
        error is KeysetChanged ==> error.words() == "namespace keyset changed during verification"@,
        error matches TransferError::ObjectChanged { key } ==> error.words()
            == "object changed during verification: "@ + quoted_text(key@),
        error matches TransferError::SourceChanged { key } ==> error.words()
            == "source changed before copying "@ + quoted_text(key@),
        error matches TransferError::SourceExceeded { key } ==> error.words()
            == "source exceeded expected size for "@ + quoted_text(key@),
        error matches TransferError::SourceContent { key } ==> error.words()
            == "source content changed for "@ + quoted_text(key@),
        error matches TransferError::DestinationExists { key } ==> error.words()
            == "destination key exists or could not be checked: "@ + quoted_text(key@),
        error matches TransferError::SizeMismatch { key } ==> error.words()
            == "size mismatch reading "@ + quoted_text(key@),
        error is OutsideNamespace ==> error.words()
            == "store listed an object outside the requested namespace"@,
        error is EmptyKey ==> error.words()
            == "namespace contains an object with an empty logical key"@,
        error matches TransferError::DuplicateKey { key } ==> error.words()
            == "duplicate listed key "@ + quoted_text(key@),
        error matches TransferError::InvalidPath { reason, .. } ==> error.words() == reason@,
        error matches TransferError::UnsupportedAttribute { shown } ==> error.words()
            == "unsupported object attribute "@ + shown@ + "; refusing lossy copy"@,
        error matches TransferError::LargeNodeRecord { key } ==> error.words()
            == "unexpectedly large node record "@ + quoted_text(key@),
{
    reveal_strlit("");
}

} // verus!
