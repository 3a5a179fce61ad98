//! Safety rules of a C drive cleaner: which locations may be cleaned, how
//! duplicate and large files are judged, and how cleanup requests are
//! checked before anything is moved to the recycle bin.
pub mod ids;
pub mod order;
pub mod text;
pub mod v2;
pub mod models;
pub mod errors;
pub mod admin;
pub mod analytics;
pub mod rules;
pub mod paths;
pub mod scan;
pub mod cleanup;
pub mod config_refs;
pub mod processes;
pub mod drive;
pub mod timestamps;
