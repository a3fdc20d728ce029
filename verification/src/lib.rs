//! Core of a real-time chat relay.
//!
//! Clients connect over a message-framed transport under a user name; a
//! message addressed to a user is delivered to every live session of that
//! user, and a message a session sends is echoed to the sender's other
//! sessions. The relay's state lives in three kinds of owning units: one
//! registry, one aggregator per user, one bridge per connection. This
//! library holds each unit's state and decision logic as verified
//! functions; an unverified driver owns the mailboxes and the transport
//! and feeds events in.

pub mod aggregator;
pub mod bridge;
pub mod codec;
pub mod msg;
pub mod registry;
