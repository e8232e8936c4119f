//! Command extraction, dispatch and update-cursor tracking for a polling chat bot.
//!
//! The messaging platform delivers updates, each carrying an optional message
//! whose text is annotated with entity spans. This crate slices the command
//! tokens out of such messages, resolves them against a registry of handlers,
//! and tracks the cursor that tells the platform which updates were already
//! seen. Every function carries a contract that Verus proves.

pub mod entity;
pub mod executor;
pub mod poll;
pub mod registry;
pub mod text;
