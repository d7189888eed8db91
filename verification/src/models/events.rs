//! Messages of the file-change notification stream and of the terminal
//! protocol.

use vstd::prelude::*;

verus! {

/// A change to a Markdown file under a watched directory.
#[derive(Debug, Clone, PartialEq, Eq)]
pub enum FileEvent {
    Created { path: String, mtime: i64 },
    Modified { path: String, mtime: i64 },
    Deleted { path: String },
}

/// The first message of a terminal session.
#[derive(Debug, Clone, PartialEq, Eq)]
pub struct TerminalHandshake {
    pub session_id: String,
    pub cols: u16,
    pub rows: u16,
}

/// What a terminal client sends.
#[derive(Debug, Clone, PartialEq, Eq)]
pub enum TerminalClientMessage {
    /// Keyboard input, base64-encoded.
    Input { data: String },
    Resize { cols: u16, rows: u16 },
}

/// What the server sends to a terminal client.
#[derive(Debug, Clone, PartialEq, Eq)]
pub enum TerminalServerMessage {
    Handshake(TerminalHandshake),
    /// Terminal output, base64-encoded.
    Output { data: String },
    Exit { code: i32 },
}

} // verus!
