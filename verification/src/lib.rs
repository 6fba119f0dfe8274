//! Scheduled task-reminder logic: selecting tasks due inside a time window,
//! rendering them into a structured notification, and deciding which messages
//! to send when publishing or reconciling previously posted reminders.
//!
//! All decisions are made over plain values; the surrounding application owns
//! the task store, the clock and the chat transport, and hands snapshots in.

pub mod laws;
pub mod model;
pub mod plan;
pub mod render;
pub mod select;
