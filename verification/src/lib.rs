//! Core of a Wayland clipboard-history daemon.
//!
//! The daemon mirrors the compositor's clipboard: it keeps a bounded,
//! most-recent-first history of clipboard items, classifies their content,
//! re-publishes externally observed selections under its own ownership, and
//! answers history requests from UI clients over a line-delimited JSON
//! protocol.  Everything here is pure state and computation; the Wayland
//! connection, the sockets and the pipes live in the surrounding binary,
//! which drives these functions and performs the I/O they decide on.

pub mod backend_state;
pub mod data;
pub mod decimal;
pub mod ipc_server;
pub mod json;
pub mod selection;
pub mod strutil;
pub mod timefmt;
