//! Verified core of a service that exposes Markdown directories over HTTP and
//! WebSocket: configuration lookup, directory filtering and ordering, the
//! directory tree walk, file-change classification and the terminal and
//! notification session protocols.

pub mod api;
pub mod config;
pub mod ignore_rules;
pub mod listing;
pub mod models;
pub mod order;
pub mod session;
pub mod text;
pub mod tree;
pub mod watch;
