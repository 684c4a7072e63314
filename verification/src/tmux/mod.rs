//! tmux control mode (`tmux -CC`): the protocol, layout strings, command
//! correlation, the pane/window model and the bridge to the transport, all
//! free of I/O.
pub mod bridge;
pub mod client;
pub mod layout;
pub mod manager;
pub mod protocol;
