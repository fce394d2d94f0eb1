//! A widget that puts a colour behind another widget.

use vstd::prelude::*;
use crate::color::{laid_over, Rgba};
use crate::rect::Rect;
use crate::vec2::Vec2;
use crate::view::View;
use crate::widget::{AvailableSpace, Layout, RenderError, Size, Widget};

verus! {

/// What the buffer's pixel at `q` becomes when the window is filled with
/// `color`: inside the window the colour goes over what was there.
pub open spec fn backed(below: Rgba, color: Rgba, window: Rect, q: Vec2) -> Rgba {
    if 0 <= q.x - window.west() < window.width() && 0 <= q.y - window.north() < window.height() {
        laid_over(color, below)
    } else {
        below
    }
}

/// Fills its area with a colour before the widget inside draws. It takes
/// the size that the widget inside asks for.
#[verifier::reject_recursive_types(C)]
pub struct Background<C> {
    inner: Box<dyn Widget<C>>,
    color: Rgba,
}

impl<C> Background<C> {
    pub closed spec fn color(&self) -> Rgba {
        self.color
    }

    pub fn new(inner: Box<dyn Widget<C>>, color: Rgba) -> (widget: Background<C>)
        ensures
            widget.color() == color,
    {
        Background { inner, color }
    }

    /// Paints the colour over every pixel of the view's window. This is
    /// what the widget inside finds when it is asked to draw.
    pub fn fill(&self, view: &mut View<'_>)
        ensures
            final(view).area == old(view).area,
            final(view).buffer.spec_size() == old(view).buffer.spec_size(),
            *final(final(view).buffer) == *final(old(view).buffer),
            forall|q: Vec2|
                old(view).buffer.in_bounds(q) ==> #[trigger] final(view).buffer.pixel(q) == backed(
                    old(view).buffer.pixel(q),
                    self.color(),
                    old(view).area,
                    q,
                ),
    {
        let area = view.area();
        view.rect(area, self.color);
    }
}

impl<C> Widget<C> for Background<C> {
    fn size(
        &mut self,
        ctx: &mut C,
        known: Size<Option<i32>>,
        available: Size<AvailableSpace>,
    ) -> (size: Size<i32>)
        ensures
            final(self).color() == old(self).color(),
    {
        self.inner.size(ctx, known, available)
    }

    fn draw_below(&mut self, ctx: &mut C, view: &mut View<'_>, layout: &Layout) -> (r: Result<
        (),
        RenderError,
    >)
        ensures
            final(self).color() == old(self).color(),
    {
        self.fill(view);
        self.inner.draw_below(ctx, view, layout)
    }

    fn draw_above(&mut self, ctx: &mut C, view: &mut View<'_>, layout: &Layout) -> (r: Result<
        (),
        RenderError,
    >)
        ensures
            final(self).color() == old(self).color(),
    {
        self.inner.draw_above(ctx, view, layout)
    }
}

} // verus!
