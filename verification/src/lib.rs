//! Core of a terminal IRC client: the wire-protocol codec, the per-channel
//! message store with its bounded history, the shared session state, and the
//! routing rules that decide where every inbound and outbound message goes.
//!
//! Everything here is pure computation over plain values; the surrounding
//! binary owns the socket, the terminal and the log files and feeds this
//! library one line or one event at a time.

pub mod channel;
pub mod command;
pub mod connection;
pub mod interface;
pub mod text;
pub mod thread_tools;
pub mod ui;
