//! One stored object: the row that describes it and what readers are told.
use crate::error::StoreError;
use crate::path::{canonical, parse_path, path_fault};
use crate::text::{decimal_text, signed_decimal};
use vstd::prelude::*;

verus! {

/// The metadata columns of one object row.
#[derive(Clone, Debug)]
pub struct StoredObject {
    pub key: String,
    pub size: u64,
    pub etag: i64,
    pub modified_ms: i64,
    pub attributes: String,
    pub content_id: Option<i64>,
}

/// A stored object with its texts as character sequences.
#[verifier::ext_equal]
pub struct StoredObjectView {
    pub key: Seq<char>,
    pub size: u64,
    pub etag: i64,
    pub modified_ms: i64,
    pub attributes: Seq<char>,
    pub content_id: Option<i64>,
}

impl View for StoredObject {
    type V = StoredObjectView;

    open spec fn view(&self) -> StoredObjectView {
        StoredObjectView {
            key: self.key@,
            size: self.size,
            etag: self.etag,
            modified_ms: self.modified_ms,
            attributes: self.attributes@,
            content_id: self.content_id,
        }
    }
}

/// What a reader is told of an object.
#[derive(Clone, Debug)]
pub struct ObjectMeta {
    pub location: String,
    /// Milliseconds after the Unix epoch.
    pub last_modified_ms: u64,
    pub size: u64,
    pub e_tag: String,
}

/// Object metadata with its texts as character sequences.
#[verifier::ext_equal]
pub struct ObjectMetaView {
    pub location: Seq<char>,
    pub last_modified_ms: u64,
    pub size: u64,
    pub e_tag: Seq<char>,
}

impl View for ObjectMeta {
    type V = ObjectMetaView;

    open spec fn view(&self) -> ObjectMetaView {
        ObjectMetaView {
            location: self.location@,
            last_modified_ms: self.last_modified_ms,
            size: self.size,
            e_tag: self.e_tag@,
        }
    }
}

/// A time that is never before the epoch.
pub open spec fn clamped_ms(modified_ms: i64) -> u64 {
    if modified_ms < 0 {
        0
    } else {
        modified_ms as u64
    }
}

/// The metadata of a stored object, where its key is a canonical path.
pub open spec fn meta_of(object: StoredObjectView) -> Option<ObjectMetaView> {
    match canonical(object.key) {
        None => None,
        Some(location) => Some(
            ObjectMetaView {
                location,
                last_modified_ms: clamped_ms(object.modified_ms),
                size: object.size,
                e_tag: signed_decimal(object.etag as int),
            },
        ),
    }
}

/// The error refuses a path that is not canonical.
pub open spec fn refuses_path(error: StoreError, path: Seq<char>) -> bool {
    error matches StoreError::InvalidPath { path: shown, reason } && shown@ == path && reason@
        == path_fault(path)
}

/// The metadata of a stored object.
pub fn object_meta(object: &StoredObject) -> (meta: Result<ObjectMeta, StoreError>)
    ensures
        match meta {
            Ok(meta) => meta_of(object@) == Some(meta@),
            Err(error) => meta_of(object@) is None && refuses_path(error, object.key@),
        },
{
    match parse_path(object.key.as_str()) {
        Err(reason) => Err(StoreError::InvalidPath { path: object.key.clone(), reason }),
        Ok(location) => Ok(
            ObjectMeta {
                location,
                last_modified_ms: if object.modified_ms < 0 {
                    0
                } else {
                    object.modified_ms as u64
                },
                size: object.size,
                e_tag: decimal_text(object.etag),
            },
        ),
    }
}

} // verus!
