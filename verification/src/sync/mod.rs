//! Cloud synchronisation: the merged state and the pure parts of the
//! backends and of the OAuth flow.
pub mod config;
pub mod crypto;
pub mod oauth;
pub mod remote;
pub mod state;
pub mod webdav;
