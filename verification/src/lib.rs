//! The decisions of a single-machine object store, and of offline transfers between
//! object-store namespaces.
#![verifier::loop_isolation(false)]

pub mod attributes;
pub mod clock;
pub mod contents;
pub mod error;
pub mod laws;
pub mod listing;
pub mod local_storage;
pub mod local_storage_laws;
pub mod memory;
pub mod memory_laws;
pub mod model;
pub mod model_laws;
pub mod object;
pub mod page;
pub mod page_laws;
pub mod path;
pub mod path_laws;
pub mod qualify;
pub mod qualify_laws;
pub mod read;
pub mod storage;
pub mod store_laws;
pub mod stream;
pub mod text;
pub mod text_laws;
pub mod transfer;
pub mod upload;
pub mod view_laws;
pub mod word_laws;
