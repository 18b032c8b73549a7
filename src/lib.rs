//! Scan and cache engine for project digests: file filtering and language
//! detection, the scan session with its sampling plan and aggregation, the
//! cancellation registry, progress telemetry and the caches; with the
//! project picker's rules, git output parsing and the reading of model
//! replies that build on a digest.

pub mod text;
pub mod strmap;
pub mod lang;
pub mod walkrules;
pub mod bytes;
pub mod digest;
pub mod process;
pub mod aggregate;
pub mod scan;
pub mod session;
pub mod progress;
pub mod cancel;
pub mod cache;
pub mod filecount;
pub mod projects;
pub mod insights;
pub mod gitlog;
pub mod suggest;
pub mod response;
