//! A line-based chat: the wire protocol, the server's handling of each
//! connection and of the set of connected users, and the client's handling
//! of what the user types and what the server sends.
pub mod text;
pub mod clock;
pub mod registry;
pub mod server;
pub mod client;
pub mod gui;
pub mod launch;
pub mod framing;
pub mod laws;
