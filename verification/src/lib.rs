//! poneglyph: the document model, markdown analysis and editor state of a
//! terminal markdown editor, with their contracts.
pub mod text;
pub mod markdown;
pub mod app;
pub mod config;
pub mod width;
pub mod render;
pub mod keys;
pub mod debug_emit;
pub mod ui;
pub mod paths;
pub mod images;
