//! A real-time event fan-out hub.
//!
//! The hub accepts subscribers (one per streaming connection), broadcasts
//! chat and paste events to every live subscriber, replays a bounded
//! history of recent events to new joiners, and drops any subscriber whose
//! outbox overflows rather than ever blocking a publisher.
//!
//! Transport, authentication and persistence live outside this crate; the
//! hub works purely on plain values handed to it.

pub mod event;
pub mod frame;
pub mod history;
pub mod outbox;
pub mod hub;
pub mod laws;
