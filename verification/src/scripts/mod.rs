//! Script engine: small interactive recipes run per host. This holds the
//! data model, the bookkeeping of the saved scripts and of the run history,
//! and the pure decisions of the runner (the end-of-command marker and when
//! output is still pending).
pub mod fanout;
pub mod host;
pub mod library;
pub mod registry;
pub mod resolve;
pub mod runner;
pub mod types;
