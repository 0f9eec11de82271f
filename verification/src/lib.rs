//! Presentation core for an editor front-end: a character grid with per-line
//! dirty tracking, a styled-run itemizer with shaping-result caching, a color
//! resolution policy, and a compositor that turns grid state into an ordered
//! list of drawing commands.

pub mod color;
pub mod context;
pub mod render;
pub mod ui;
pub mod ui_model;
