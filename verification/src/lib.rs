//! Weaver: the verified core of a local command-execution service.
//!
//! A long-lived daemon accepts shell commands from interactive clients over a
//! local stream socket, spawns them as child processes, and streams their
//! output back to every connected client while keeping the authoritative
//! command history.  This crate holds the parts of that system that are pure
//! logic: the message data model, the wire codec, the command history and its
//! update rules, the client-side state replica, and the daemon-side broker
//! core that assigns ids, applies notices to the history and fans them out to
//! per-client queues.  The socket plumbing and process handling around it are
//! ordinary I/O and live outside this crate.

pub mod messages;
pub mod history;
pub mod codec;
pub mod client;
pub mod daemon;

pub use client::WeaverState;
pub use client::WeaverNotification;

pub use messages::CommandId;
pub use messages::WeaverCommand;
pub use messages::ClientRequest;
pub use messages::ClientMessage;
pub use messages::ServerNotice;
pub use messages::ServerMessage;
