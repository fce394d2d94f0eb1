//! The widgets that need nothing but a view to draw on.

pub mod background;
pub mod block;
pub mod empty;
pub mod image;
