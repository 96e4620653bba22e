//! Herdr Hop: label the visible panes of a Herdr tab in reading order, draw each label as a
//! pane graphics overlay, and turn one keystroke into a pane to focus.

pub mod action;
pub mod cellsize;
pub mod cli;
pub mod codec;
pub mod herdr;
pub mod model;
pub mod picker;
pub mod render;
