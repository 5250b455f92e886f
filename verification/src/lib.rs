//! A small line-oriented pattern search: compile a pattern from a few
//! options, scan a text buffer line by line, and render the matching lines
//! either plainly or with terminal colours.

pub mod cli;
pub mod color;
pub mod decimal;
pub mod engine;
pub mod error;
pub mod escape;
pub mod lines;
pub mod render;
pub mod search;
