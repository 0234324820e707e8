//! Offline, verified transfers of a complete object-store namespace.
pub mod audit;
pub mod audit_laws;
pub mod buffer;
pub mod copy;
pub mod digest;
pub mod failure;
pub mod namespace;
pub mod namespace_laws;
pub mod option_laws;
pub mod options;
pub mod record;
pub mod record_laws;
pub mod run;
pub mod steps;
pub mod verify;
