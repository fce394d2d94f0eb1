//! Rendering of widget trees into raster images and their delivery to a
//! thermal receipt printer.

pub mod backlog;
pub mod buffer;
pub mod cells;
pub mod color;
pub mod dither;
pub mod drawer;
pub mod node;
pub mod persistent_printer;
pub mod plugin;
pub mod printer;
pub mod rect;
pub mod render;
pub mod spool;
pub mod tree;
pub mod typst;
pub mod util;
pub mod vec2;
pub mod view;
pub mod widget;
pub mod widgets;
