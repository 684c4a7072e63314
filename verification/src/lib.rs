//! Verified core of a terminal/SSH client: the tmux control-mode stack, the
//! `${...}` template engine and the pure decisions of file transfers.
pub mod codec;
pub mod scripts;
pub mod sessions;
pub mod sftp;
pub mod socks;
pub mod shell;
pub mod ssh;
pub mod store;
pub mod subst;
pub mod sync;
pub mod text;
pub mod tmux;
pub mod transfer;
