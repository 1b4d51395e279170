//! Markdown document model, parsing, layout and rendering for a terminal viewer.
pub mod text;
pub mod width;
pub mod events;

pub mod parser;
pub mod renderer;
pub mod themes;
pub mod config;
pub mod theme;
pub mod app;
pub mod dir;
pub mod keys;
pub mod panels;
pub mod images;
