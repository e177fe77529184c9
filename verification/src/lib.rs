//! Bootstrap for a content-addressed storage repository: a signed
//! repository identity, the marker document that persists it, and the
//! catalog database schema that future ingestion layers build on.
pub mod error;
pub mod filesystem;
