//! Side-by-side text comparison: line and character diffs, colour and theme
//! configuration, and the window's state machine.

pub mod app_state;
pub mod color;
pub mod diff;
pub mod files;
pub mod labels;
pub mod text;
pub mod theme;
