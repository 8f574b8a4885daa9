//! Which font variants does a subtitle script need?
//!
//! The crate reads the text of one script, isolates its style and event
//! sections, and resolves for every event line the font variant that the line
//! ends up with once its inline overrides are applied.

pub mod error;
pub mod font;
pub mod laws;
pub mod locate;
pub mod mux;
pub mod resolve;
pub mod section;
pub mod style;
pub mod tags;
pub mod text;
