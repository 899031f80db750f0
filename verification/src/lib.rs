//! A verified core for a directory-backed evidence store: person records as
//! JSON documents, extension-based evidence classification, collision-safe
//! file naming, and a portable zip archive of a whole store.
pub mod archive;
pub mod backend;
pub mod chars;
pub mod errors;
pub mod file_manager;
pub mod fresh;
pub mod json;
pub mod json_laws;
pub mod models;
pub mod paths;
pub mod record;
