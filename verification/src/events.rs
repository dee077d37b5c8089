//! Decisions taken on X events.
pub mod window;
pub mod client;
pub mod input;
