//! Terminal UI: state, markdown and the lines that are drawn.
//!
//! Everything here is a function of plain values; the terminal itself is driven elsewhere.
pub mod app;
pub mod markdown;
pub mod ui;
