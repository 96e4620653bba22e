//! Talking to Herdr: the plugin context, the request and response envelopes, and the overlay
//! that labels a pane.

pub mod client;
pub mod context;
pub mod json;
pub mod socket;

pub use client::{HerdrClient, Overlay, Placement};
pub use context::HerdrContext;
