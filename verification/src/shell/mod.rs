//! Shell integration of the local console.
pub mod launch;
pub mod scripts;
