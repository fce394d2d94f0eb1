//! A box with a background and a border.

use vstd::prelude::*;
use crate::color::{laid_over, transparent, Rgba};
use crate::rect::Rect;
use crate::vec2::Vec2;
use crate::view::View;
use crate::widget::{Layout, RenderError, Sides, Widget};

verus! {

/// Fills its area with the background colour and draws the border that
/// the layout has given it on top, all before the children are drawn.
pub struct Block {
    border: Rgba,
    background: Rgba,
}

/// `below` with `color` painted over it, if `hit`.
pub open spec fn painted(below: Rgba, hit: bool, color: Rgba) -> Rgba {
    if hit {
        laid_over(color, below)
    } else {
        below
    }
}

/// Whether the point `(x, y)`, counted from the north-west corner of an
/// area `w` wide and `h` high, lies in the area.
pub open spec fn in_area(w: int, h: int, x: int, y: int) -> bool {
    0 <= x < w && 0 <= y < h
}

/// Whether the point lies in the border's top side, which runs over the
/// full width.
pub open spec fn in_top(w: int, border: Sides, x: int, y: int) -> bool {
    border.top > 0 && 0 <= x < w && 0 <= y < border.top
}

/// Whether the point lies in the border's bottom side, which runs over the
/// full width.
pub open spec fn in_bottom(w: int, h: int, border: Sides, x: int, y: int) -> bool {
    border.bottom > 0 && 0 <= x < w && h - border.bottom <= y < h
}

/// A width that counts: a negative one is no width.
pub open spec fn at_least_zero(v: int) -> int {
    if v < 0 {
        0
    } else {
        v
    }
}

/// Whether the point lies in the border's left side, which fills the rows
/// between the top and the bottom side.
pub open spec fn in_left(h: int, border: Sides, x: int, y: int) -> bool {
    border.left > 0 && 0 <= x < border.left && at_least_zero(border.top as int) <= y < h
        - at_least_zero(border.bottom as int)
}

/// Whether the point lies in the border's right side, which fills the rows
/// between the top and the bottom side.
pub open spec fn in_right(w: int, h: int, border: Sides, x: int, y: int) -> bool {
    border.right > 0 && w - border.right <= x < w && at_least_zero(border.top as int) <= y < h
        - at_least_zero(border.bottom as int)
}

/// What a block makes of the pixel `below` at the point `(x, y)` of its
/// area: the background goes over it, then each side of the border that
/// holds the point.
pub open spec fn block_pixel(
    below: Rgba,
    background: Rgba,
    border_color: Rgba,
    w: int,
    h: int,
    border: Sides,
    x: int,
    y: int,
) -> Rgba {
    let filled = painted(below, in_area(w, h, x, y), background);
    let with_top = painted(filled, in_top(w, border, x, y), border_color);
    let with_bottom = painted(with_top, in_bottom(w, h, border, x, y), border_color);
    let with_left = painted(with_bottom, in_left(h, border, x, y), border_color);
    painted(with_left, in_right(w, h, border, x, y), border_color)
}

/// Whether the point lies in the area and on the ring that the border's
/// sides make along its edge.
pub open spec fn on_ring(w: int, h: int, border: Sides, x: int, y: int) -> bool {
    in_area(w, h, x, y) && (x < border.left || x >= w - border.right || y < border.top || y >= h
        - border.bottom)
}

/// With opaque colours and no negative side, a block shows the border's
/// colour on the ring and the background's colour on the rest of its
/// area, whatever lay below.
pub proof fn lemma_opaque_block(
    below: Rgba,
    background: Rgba,
    border_color: Rgba,
    w: int,
    h: int,
    border: Sides,
    x: int,
    y: int,
)
    requires
        background.is_opaque(),
        border_color.is_opaque(),
        border.left >= 0,
        border.right >= 0,
        border.top >= 0,
        border.bottom >= 0,
        in_area(w, h, x, y),
    ensures
        block_pixel(below, background, border_color, w, h, border, x, y) == if on_ring(
            w,
            h,
            border,
            x,
            y,
        ) {
            border_color
        } else {
            background
        },
{
}

impl Block {
    pub closed spec fn border(&self) -> Rgba {
        self.border
    }

    pub closed spec fn background(&self) -> Rgba {
        self.background
    }

    /// A block that shows nothing until it is given colours.
    pub fn new() -> (b: Block)
        ensures
            b.border() == (Rgba { r: 0, g: 0, b: 0, a: 0 }),
            b.background() == (Rgba { r: 0, g: 0, b: 0, a: 0 }),
    {
        Block { border: transparent(), background: transparent() }
    }

    pub fn with_border(self, color: Rgba) -> (b: Block)
        ensures
            b.border() == color,
            b.background() == self.background(),
    {
        let mut block = self;
        block.border = color;
        block
    }

    pub fn with_background(self, color: Rgba) -> (b: Block)
        ensures
            b.border() == self.border(),
            b.background() == color,
    {
        let mut block = self;
        block.background = color;
        block
    }

    /// Draws the block into the view's window.
    pub fn draw(&self, view: &mut View<'_>, border: Sides)
        ensures
            final(view).area == old(view).area,
            final(view).buffer.spec_size() == old(view).buffer.spec_size(),
            *final(final(view).buffer) == *final(old(view).buffer),
            forall|q: Vec2|
                old(view).buffer.in_bounds(q) ==> #[trigger] final(view).buffer.pixel(q)
                    == block_pixel(
                    old(view).buffer.pixel(q),
                    self.background(),
                    self.border(),
                    old(view).area.width(),
                    old(view).area.height(),
                    border,
                    q.x - old(view).area.west(),
                    q.y - old(view).area.north(),
                ),
    {
        let area = view.area();
        let size = area.size();
        let ghost b0 = *view.buffer;

        // Background
        view.rect(area, self.background);
        let ghost b1 = *view.buffer;

        // And now the border. No pixel may be drawn twice, in case the
        // border colour is not opaque: so the left and the right side stop
        // short of the top and the bottom side.
        if border.top > 0 {
            let side = Rect::from_nw(area.corner_nw(), size.with_y(border.top));
            view.rect(side, self.border);
        }
        let ghost b2 = *view.buffer;
        if border.bottom > 0 {
            let side = Rect::from_sw(area.corner_sw(), size.with_y(border.bottom));
            view.rect(side, self.border);
        }
        let ghost b3 = *view.buffer;
        let top: i32 = if border.top < 0 { 0 } else { border.top };
        let bottom: i32 = if border.bottom < 0 { 0 } else { border.bottom };
        let rows: i64 = size.y as i64 - top as i64 - bottom as i64;
        if rows >= 0 {
            if border.left > 0 {
                let nw = Vec2::new(0, top);
                let side = Rect::from_nw(nw, Vec2::new(border.left, rows as i32));
                view.rect(side, self.border);
            }
        }
        let ghost b4 = *view.buffer;
        if rows >= 0 {
            if border.right > 0 {
                let ne = Vec2::new(size.x - 1, top);
                let side = Rect::from_ne(ne, Vec2::new(border.right, rows as i32));
                view.rect(side, self.border);
            }
        }
        proof {
            let window = old(view).area;
            assert forall|q: Vec2| b0.in_bounds(q) implies #[trigger] view.buffer.pixel(q)
                == block_pixel(
                b0.pixel(q),
                self.background(),
                self.border(),
                window.width(),
                window.height(),
                border,
                q.x - window.west(),
                q.y - window.north(),
            ) by {
                assert(b1.in_bounds(q) && b2.in_bounds(q) && b3.in_bounds(q) && b4.in_bounds(q));
                let w = window.width();
                let h = window.height();
                let x = q.x - window.west();
                let y = q.y - window.north();
                assert(b1.pixel(q) == painted(b0.pixel(q), in_area(w, h, x, y), self.background()));
                assert(b2.pixel(q) == painted(b1.pixel(q), in_top(w, border, x, y), self.border()));
                assert(b3.pixel(q) == painted(
                    b2.pixel(q),
                    in_bottom(w, h, border, x, y),
                    self.border(),
                ));
                assert(b4.pixel(q) == painted(b3.pixel(q), in_left(h, border, x, y), self.border()));
                assert(view.buffer.pixel(q) == painted(
                    b4.pixel(q),
                    in_right(w, h, border, x, y),
                    self.border(),
                ));
            }
        }
    }
}

impl Default for Block {
    fn default() -> (b: Block)
        ensures
            b.border() == (Rgba { r: 0, g: 0, b: 0, a: 0 }),
            b.background() == (Rgba { r: 0, g: 0, b: 0, a: 0 }),
    {
        Block::new()
    }
}

impl<C> Widget<C> for Block {
    fn draw_below(&mut self, ctx: &mut C, view: &mut View<'_>, layout: &Layout) -> (r: Result<
        (),
        RenderError,
    >)
        ensures
            r.is_ok(),
            final(self).background() == old(self).background(),
            final(self).border() == old(self).border(),
            forall|q: Vec2|
                old(view).buffer.in_bounds(q) ==> #[trigger] final(view).buffer.pixel(q)
                    == block_pixel(
                    old(view).buffer.pixel(q),
                    old(self).background(),
                    old(self).border(),
                    old(view).area.width(),
                    old(view).area.height(),
                    layout.border,
                    q.x - old(view).area.west(),
                    q.y - old(view).area.north(),
                ),
    {
        self.draw(view, layout.border);
        Ok(())
    }
}

} // verus!
