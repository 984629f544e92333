//! A pipeline engine that chains requests to AI text providers.
//!
//! A pipeline is written in a small DSL (`provider:action -> provider:action`),
//! parsed into steps, and executed one step at a time against registered
//! providers, threading a shared conversational [`providers::Context`] through
//! the run and applying per-step response transforms.

pub mod strutil;
pub mod strmap;
pub mod clock;
pub mod auth;
pub mod cli;
pub mod providers;
pub mod pipeline;
