//! What a node of the tree can draw.

use vstd::prelude::*;
use crate::vec2::Vec2;
use crate::view::View;

verus! {

/// A width and a height.
#[derive(Clone, Copy, Debug, PartialEq, Eq)]
pub struct Size<T> {
    pub width: T,
    pub height: T,
}

/// How much room there is along one axis while a widget is measured.
#[derive(Clone, Copy, Debug, PartialEq, Eq, Structural)]
pub enum AvailableSpace {
    /// This many pixels.
    Definite(i32),
    /// As little as the content can do with.
    MinContent,
    /// As much as the content would like.
    MaxContent,
}

/// Widths of the four sides of a border, in pixels.
#[derive(Clone, Copy, Debug, PartialEq, Eq, Structural)]
pub struct Sides {
    pub left: i32,
    pub right: i32,
    pub top: i32,
    pub bottom: i32,
}

/// Where the layout has put a node.
#[derive(Clone, Copy, Debug, PartialEq, Eq, Structural)]
pub struct Layout {
    /// The node's place among its siblings when they are painted: lower
    /// numbers first.
    pub order: u32,
    /// The north-west corner, counted from that of the parent.
    pub location: Vec2,
    pub size: Vec2,
    pub border: Sides,
}

/// Why no image came out of a tree.
#[derive(Clone, Debug, PartialEq, Eq)]
pub enum RenderError {
    /// A widget failed; the text says how.
    Widget(String),
    /// There is not one layout for each node, or the root is no node of
    /// the tree.
    LayoutMismatch,
    /// The root does not stand at the origin.
    RootNotAtOrigin,
    /// A node has a negative size, or lies outside of what `i32` can count.
    OutOfRange,
}

/// What a widget has to leave alone when it draws: the window, and which
/// buffer the view looks at.
pub open spec fn same_window(before: View, after: View) -> bool {
    &&& after.area == before.area
    &&& after.buffer.spec_size() == before.buffer.spec_size()
}

/// Content of a node. A node without a widget only holds its children
/// together.
pub trait Widget<C> {
    /// The size the widget would like, given the sizes that are already
    /// settled and the room there is. Without content of its own a widget
    /// asks for nothing.
    fn size(
        &mut self,
        ctx: &mut C,
        known: Size<Option<i32>>,
        available: Size<AvailableSpace>,
    ) -> (size: Size<i32>)
        default_ensures
            size.width == 0,
            size.height == 0,
            *final(ctx) == *old(ctx),
    {
        Size { width: 0, height: 0 }
    }

    /// Called before the children are drawn. A widget without children
    /// draws here. A widget that has nothing to draw at this time leaves
    /// the image as it is, and that cannot fail.
    fn draw_below(&mut self, ctx: &mut C, view: &mut View<'_>, layout: &Layout) -> (r: Result<
        (),
        RenderError,
    >)
        ensures
            same_window(*old(view), *final(view)),
            *final(final(view).buffer) == *final(old(view).buffer),
        default_ensures
            r.is_ok(),
            final(view).buffer.pixels() == old(view).buffer.pixels(),
            *final(ctx) == *old(ctx),
    {
        Ok(())
    }

    /// Called after the children are drawn. A widget that has nothing to
    /// draw at this time leaves the image as it is, and that cannot fail.
    fn draw_above(&mut self, ctx: &mut C, view: &mut View<'_>, layout: &Layout) -> (r: Result<
        (),
        RenderError,
    >)
        ensures
            same_window(*old(view), *final(view)),
            *final(final(view).buffer) == *final(old(view).buffer),
        default_ensures
            r.is_ok(),
            final(view).buffer.pixels() == old(view).buffer.pixels(),
            *final(ctx) == *old(ctx),
    {
        Ok(())
    }
}

} // verus!
