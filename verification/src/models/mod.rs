//! The values the service hands to its clients.

pub mod events;
pub mod file;

pub use events::{FileEvent, TerminalClientMessage, TerminalHandshake, TerminalServerMessage};
pub use file::{FileInfo, TreeNode};
