//! A verified core for a terminal container inspector.
//!
//! The library parses the container engine's line-delimited JSON listing into
//! typed records, builds the command lines for lifecycle actions, and runs the
//! interactive state machine that reconciles asynchronous command results with
//! live key input and a fuzzy-search filter.  All host interaction (running
//! commands, rendering) is described by plain values that a thin shell around
//! the library carries out.

pub mod container;
pub mod docker;
pub mod search;
pub mod render;
pub mod state;
mod strutil;

pub use container::Container;
