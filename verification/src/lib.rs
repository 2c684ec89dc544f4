//! The logic of a tiling terminal emulator.

pub mod atlas;
pub mod base64;
pub mod bounds;
pub mod caret;
pub mod cell;
pub mod charmap;
pub mod effects;
pub mod font;
pub mod frame;
pub mod grid;
pub mod input;
pub mod laws;
pub mod model;
pub mod mouse;
pub mod paint;
pub mod pane;
pub mod paste;
pub mod performer;
pub mod pointer;
pub mod preedit;
pub mod reflow;
pub mod rendition;
pub mod rows;
pub mod selection;
pub mod sequences;
pub mod session;
pub mod settings;
pub mod shell;
pub mod shortcut;
pub mod text;
pub mod theme;
pub mod tiling;
pub mod viewport;
pub mod vt;
pub mod width;
