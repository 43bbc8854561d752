//! Verified core of a push-connection registry and its broadcast dispatcher.
//!
//! The crate tracks which connection identifiers are live, decides what a
//! broadcast does with each of them, and evicts the ones a gateway reports as
//! gone. Network and storage calls are left to the caller: the library turns
//! what those calls returned into the next thing to do.

pub mod connections;
pub mod dispatch;
pub mod fallback;
pub mod ids;
pub mod json;
pub mod push;
pub mod registry;
pub mod response;
pub mod send;
pub mod trigger;
