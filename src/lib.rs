//! Upload ingestion for a submission's working set: a ledger of file objects
//! and their submission links, driven by lifecycle events of a resumable-upload
//! proxy.

pub mod config;
pub mod event;
pub mod ids;
pub mod laws;
pub mod ingest;
pub mod ledger;
pub mod text;
