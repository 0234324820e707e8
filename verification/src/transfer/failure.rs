//! Why a transfer is refused, and how it says so.
use crate::error::{quoted, quoted_text};
use crate::local_storage::SpecError;
use vstd::prelude::*;

verus! {

/// A refusal of a transfer.
#[derive(Clone, Debug)]
pub enum TransferError {
    /// The source is the destination.
    SameSpecs,
    /// The specification names another kind of store.
    UnsupportedStore,
    /// The specification of a local store is refused.
    BadSpec { error: SpecError },
    /// The source database is not there.
    SourceMissing { path: String },
    /// One namespace lies in the other.
    Overlap,
    /// A fresh copy found objects at the destination.
    DestinationNotEmpty,
    /// A fresh copy found a manifest.
    ManifestExists,
    /// The manifest is of another format.
    ManifestFormat,
    /// The manifest is of another transfer.
    ManifestForeign,
    /// The source holds nothing.
    EmptySource,
    /// The manifest names a key twice.
    DuplicateRecords,
    /// The destination holds a key that the manifest does not name.
    UnexpectedKey { key: String },
    /// An object has other bytes than the manifest says.
    ContentMismatch { key: String },
    /// An object has other attributes than the manifest says.
    AttributeMismatch { key: String },
    /// A namespace holds other keys than the manifest.
    KeysetDiffers { source: bool },
    /// A source object has been written again.
    GenerationChanged { key: String },
    /// Keys came or went while they were verified.
    KeysetChanged,
    /// An object was written while it was verified.
    ObjectChanged { key: String },
    /// A source object is not the one of the manifest.
    SourceChanged { key: String },
    /// A source object has more bytes than its record.
    SourceExceeded { key: String },
    /// A source object has other bytes than its record.
    SourceContent { key: String },
    /// The destination may hold the key already.
    DestinationExists { key: String },
    /// An object gave another number of bytes than its size.
    SizeMismatch { key: String },
    /// A listing left the namespace.
    OutsideNamespace,
    /// An object has the key of the namespace itself.
    EmptyKey,
    /// A listing named a key twice.
    DuplicateKey { key: String },
    /// A key is not a canonical path; the text says why.
    InvalidPath { path: String, reason: String },
    /// An object has an attribute that cannot be recorded.
    UnsupportedAttribute { shown: String },
    /// A node record is far larger than one can be.
    LargeNodeRecord { key: String },
}

/// Two texts around a third in quotes.
fn around(head: &str, text: &str, tail: &str) -> (words: String)
    ensures
        words@ == head@ + quoted_text(text@) + tail@,
{
    let mut words = head.to_owned();
    words.append(quoted(text).as_str());
    words.append(tail);
    words
}

impl TransferError {
    /// The words that go with a refusal.
    pub open spec fn words(self) -> Seq<char> {
        match self {
            TransferError::SameSpecs => "source and destination must differ"@,
            TransferError::UnsupportedStore => "only az:// and sqlite:// stores are supported"@,
            TransferError::BadSpec { error } => error.words(),
            TransferError::SourceMissing { path } => "source SQLite database does not exist: "@ + path@,
            TransferError::Overlap => "source and destination namespaces overlap"@,
            TransferError::DestinationNotEmpty => "destination is not empty; use --resume only with this copy's existing manifest"@,
            TransferError::ManifestExists => "manifest already exists; use --resume or choose a fresh manifest"@,
            TransferError::ManifestFormat => "unsupported manifest format"@,
            TransferError::ManifestForeign => "manifest belongs to different source/destination specifications"@,
            TransferError::EmptySource => "source namespace is empty; refusing a likely wrong source"@,
            TransferError::DuplicateRecords => "duplicate manifest keys"@,
            TransferError::UnexpectedKey { key } => "unexpected destination key "@ + quoted_text(key@) + ""@,
            TransferError::ContentMismatch { key } => "content mismatch for "@ + quoted_text(key@) + "; destination is never overwritten"@,
            TransferError::AttributeMismatch { key } => "attribute mismatch for "@ + quoted_text(key@) + "; destination is never overwritten"@,
            TransferError::KeysetDiffers { source } => if source {
                "source keyset differs from manifest"@
            } else {
                "destination keyset differs from manifest"@
            },
            TransferError::GenerationChanged { key } => "source generation changed for "@ + quoted_text(key@) + "; re-establish a quiescent snapshot"@,
            TransferError::KeysetChanged => "namespace keyset changed during verification"@,
            TransferError::ObjectChanged { key } => "object changed during verification: "@ + quoted_text(key@) + ""@,
            TransferError::SourceChanged { key } => "source changed before copying "@ + quoted_text(key@) + ""@,
            TransferError::SourceExceeded { key } => "source exceeded expected size for "@ + quoted_text(key@) + ""@,
            TransferError::SourceContent { key } => "source content changed for "@ + quoted_text(key@) + ""@,
            TransferError::DestinationExists { key } => "destination key exists or could not be checked: "@ + quoted_text(key@) + ""@,
            TransferError::SizeMismatch { key } => "size mismatch reading "@ + quoted_text(key@) + ""@,
            TransferError::OutsideNamespace => "store listed an object outside the requested namespace"@,
            TransferError::EmptyKey => "namespace contains an object with an empty logical key"@,
            TransferError::DuplicateKey { key } => "duplicate listed key "@ + quoted_text(key@) + ""@,
            TransferError::InvalidPath { reason, .. } => reason@,
            TransferError::UnsupportedAttribute { shown } => "unsupported object attribute "@ + shown@ + "; refusing lossy copy"@,
            TransferError::LargeNodeRecord { key } => "unexpectedly large node record "@ + quoted_text(key@) + ""@,
        }
    }

    /// The message that goes with a refusal.
    pub fn message(&self) -> (text: String)
        ensures
            text@ == self.words(),
    {
        match self {
            TransferError::SameSpecs => "source and destination must differ".to_owned(),
            TransferError::UnsupportedStore => "only az:// and sqlite:// stores are supported".to_owned(),
            TransferError::BadSpec { error } => error.message(),
            TransferError::SourceMissing { path } => {
                let mut text = "source SQLite database does not exist: ".to_owned();
                text.append(path.as_str());
                text
            },
            TransferError::Overlap => "source and destination namespaces overlap".to_owned(),
            TransferError::DestinationNotEmpty => "destination is not empty; use --resume only with this copy's existing manifest".to_owned(),
            TransferError::ManifestExists => "manifest already exists; use --resume or choose a fresh manifest".to_owned(),
            TransferError::ManifestFormat => "unsupported manifest format".to_owned(),
            TransferError::ManifestForeign => "manifest belongs to different source/destination specifications".to_owned(),
            TransferError::EmptySource => "source namespace is empty; refusing a likely wrong source".to_owned(),
            TransferError::DuplicateRecords => "duplicate manifest keys".to_owned(),
            TransferError::UnexpectedKey { key } => around("unexpected destination key ", key.as_str(), ""),
            TransferError::ContentMismatch { key } => around("content mismatch for ", key.as_str(), "; destination is never overwritten"),
            TransferError::AttributeMismatch { key } => around("attribute mismatch for ", key.as_str(), "; destination is never overwritten"),
            TransferError::KeysetDiffers { source } => if *source {
                "source keyset differs from manifest".to_owned()
            } else {
                "destination keyset differs from manifest".to_owned()
            },
            TransferError::GenerationChanged { key } => around("source generation changed for ", key.as_str(), "; re-establish a quiescent snapshot"),
            TransferError::KeysetChanged => "namespace keyset changed during verification".to_owned(),
            TransferError::ObjectChanged { key } => around("object changed during verification: ", key.as_str(), ""),
            TransferError::SourceChanged { key } => around("source changed before copying ", key.as_str(), ""),
            TransferError::SourceExceeded { key } => around("source exceeded expected size for ", key.as_str(), ""),
            TransferError::SourceContent { key } => around("source content changed for ", key.as_str(), ""),
            TransferError::DestinationExists { key } => around("destination key exists or could not be checked: ", key.as_str(), ""),
            TransferError::SizeMismatch { key } => around("size mismatch reading ", key.as_str(), ""),
            TransferError::OutsideNamespace => "store listed an object outside the requested namespace".to_owned(),
            TransferError::EmptyKey => "namespace contains an object with an empty logical key".to_owned(),
            TransferError::DuplicateKey { key } => around("duplicate listed key ", key.as_str(), ""),
            TransferError::InvalidPath { reason, .. } => reason.clone(),
            TransferError::UnsupportedAttribute { shown } => {
                let mut text = "unsupported object attribute ".to_owned();
                text.append(shown.as_str());
                text.append("; refusing lossy copy");
                text
            },
            TransferError::LargeNodeRecord { key } => around("unexpectedly large node record ", key.as_str(), ""),
        }
    }
}

} // verus!
