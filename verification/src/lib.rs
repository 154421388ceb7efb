//! A serverless chat for one network segment: peers that find each other by
//! local discovery and pass topic-scoped messages on by flooding.
//!
//! The library holds the decisions of such a node: the wire form of a chat
//! message, the membership view that discovery events maintain, the flood
//! router with its bounded cache of recent messages, and the event loop's
//! state machine. Sockets, timers and the console stay with the caller.

pub mod varint;
pub mod wire;
pub mod peer;
pub mod membership;
pub mod cache;
pub mod router;
pub mod event_loop;
pub mod options;
