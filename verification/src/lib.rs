//! The background engine of a desktop Twitter client.
//!
//! The crate holds the decisions that the client makes off the UI thread:
//! the ordered, duplicate-free list of tweets, the table of images that are
//! being loaded, the login handshake, and the dispatch of the messages that
//! the UI sends.  Everything that waits (the network, the clock, the window)
//! is left to the caller, who performs the effects that the engine asks for
//! and reports what came of them.

pub mod background;
pub mod config;
pub mod image;
pub mod selection;
pub mod timeline;
pub mod twitter;
pub mod version;
