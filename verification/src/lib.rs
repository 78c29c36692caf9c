//! Core of a LAN text-chat utility: CRLF line framing over a byte stream,
//! bounded per-connection outbound queues, a registry of named peers, a
//! bounded history of recent chat lines, and the broadcast router that ties
//! them together. All I/O stays outside; this crate holds the verified logic.
use vstd::prelude::*;

pub mod actor;
pub mod bytebuf;
pub mod codec;
pub mod commands;
pub mod console;
pub mod history;
pub mod queue;
pub mod registry;
pub mod router;
pub mod sideband;
pub mod text;

verus! {

/// Port of the chat (line) protocol.
pub const SERVER_PORT_TEXT: u16 = 49494;

/// Port of the file sideband.
pub const SERVER_PORT_FILE: u16 = 49495;

/// Capacity of each connection's outbound queue.
pub const CHANNEL_BUFF_SIZE: usize = 1024;

/// How many queued outbound frames one scheduling tick may move into a
/// connection's write buffer.
pub const LINES_PER_TICK: usize = 10;

/// Capacity of the broadcast history buffer.
pub const HISTORY_SIZE: usize = 16;

} // verus!
