//! A window onto a buffer.

use vstd::prelude::*;
use crate::buffer::Buffer;
use crate::color::{blend, laid_over, Rgba};
use crate::rect::Rect;
use crate::vec2::{fits_i32, Vec2};

verus! {

/// A rectangle of a buffer, together with the exclusive right to change the
/// buffer. Positions handed to a view count from the window's north-west
/// corner. The window only moves the origin: a position outside of it still
/// reaches the buffer where the buffer has a pixel there.
pub struct View<'a> {
    /// The window, in the buffer's coordinates.
    pub area: Rect,
    pub buffer: &'a mut Buffer<Rgba>,
}

/// The window that `zoom` makes of `window` and a rectangle given relative
/// to it.
pub open spec fn zoomed(window: Rect, area: Rect) -> Rect {
    area.moved(window.west(), window.north())
}

/// Whether `zoom` can narrow `window` to `area`: the outcome has to lie in
/// the range of `i32`.
pub open spec fn can_zoom(window: Rect, area: Rect) -> bool {
    area.can_move(window.west(), window.north())
}

/// Where a view with the given window looks for the position `pos`.
pub open spec fn buffer_x(window: Rect, pos: Vec2) -> int {
    pos.x + window.west()
}

pub open spec fn buffer_y(window: Rect, pos: Vec2) -> int {
    pos.y + window.north()
}

/// Zooming twice is zooming once: by the second rectangle, moved by the
/// north-west corner of the first. Both windows send every position to the
/// same place in the buffer.
pub proof fn lemma_zoom_composes(window: Rect, a: Rect, b: Rect)
    requires
        can_zoom(window, a),
        can_zoom(a, b),
        can_zoom(zoomed(window, a), b),
    ensures
        zoomed(zoomed(window, a), b) == zoomed(window, zoomed(a, b)),
        forall|pos: Vec2|
            buffer_x(zoomed(zoomed(window, a), b), pos) == buffer_x(
                zoomed(window, zoomed(a, b)),
                pos,
            ) && buffer_y(zoomed(zoomed(window, a), b), pos) == buffer_y(
                zoomed(window, zoomed(a, b)),
                pos,
            ),
        buffer_x(zoomed(zoomed(window, a), b), Vec2 { x: 0, y: 0 }) == window.west() + a.west()
            + b.west(),
        buffer_y(zoomed(zoomed(window, a), b), Vec2 { x: 0, y: 0 }) == window.north() + a.north()
            + b.north(),
{
    a.lemma_moved(window.west(), window.north());
    b.lemma_moved(a.west(), a.north());
    let wa = zoomed(window, a);
    b.lemma_moved(wa.west(), wa.north());
    let ab = zoomed(a, b);
    ab.lemma_moved(window.west(), window.north());
    zoomed(wa, b).lemma_same_bounds(zoomed(window, ab));
}

/// Whether a view with the given window, asked to paint `area`, paints the
/// buffer's position `q`.
pub open spec fn covers(window: Rect, area: Rect, q: Vec2) -> bool {
    &&& area.west() <= q.x - window.west() <= area.east()
    &&& area.north() <= q.y - window.north() <= area.south()
}

/// The position in an image, painted with its north-west corner at the
/// window's, that lands on the buffer's position `q`.
pub open spec fn source_of(window: Rect, q: Vec2) -> Vec2 {
    Vec2 { x: (q.x - window.west()) as i32, y: (q.y - window.north()) as i32 }
}

/// Whether an image, painted with its north-west corner at the window's,
/// has a pixel for the buffer's position `q`.
pub open spec fn stamped(window: Rect, image: Buffer<Rgba>, q: Vec2) -> bool {
    &&& 0 <= q.x - window.west() < image.spec_size().x
    &&& 0 <= q.y - window.north() < image.spec_size().y
}

/// Whether the walk over the rows `y0..`, each from column `x0` on, has
/// passed `q` when it stands at column `x` of row `y`.
pub open spec fn passed(q: Vec2, x: int, y: int) -> bool {
    q.y < y || (q.y == y && q.x < x)
}

impl<'a> View<'a> {
    /// The position in the buffer that the view looks at for `pos`, if its
    /// coordinates are in the range of `i32`.
    pub open spec fn target(self, pos: Vec2) -> Vec2 {
        Vec2 { x: buffer_x(self.area, pos) as i32, y: buffer_y(self.area, pos) as i32 }
    }

    /// Whether the view finds a pixel for `pos`.
    pub open spec fn hits(self, pos: Vec2) -> bool {
        &&& fits_i32(buffer_x(self.area, pos))
        &&& fits_i32(buffer_y(self.area, pos))
        &&& self.buffer.in_bounds(self.target(pos))
    }

    /// The pixel that the view finds for `pos`, where it finds one.
    pub open spec fn seen(self, pos: Vec2) -> Rgba {
        self.buffer.pixel(self.target(pos))
    }

    /// A view whose window is the whole buffer.
    pub fn new(buffer: &'a mut Buffer<Rgba>) -> (v: View<'a>)
        ensures
            v.area.has_bounds(
                0,
                old(buffer).spec_size().y - 1,
                0,
                old(buffer).spec_size().x - 1,
            ),
            *v.buffer == *old(buffer),
            *final(v.buffer) == *final(buffer),
    {
        let size = buffer.size();
        let area = Rect::from_nw(Vec2::zero(), size);
        View { area, buffer }
    }

    /// A second view with the same window onto the same buffer, for as long
    /// as this one is not used.
    pub fn dup(&mut self) -> (v: View<'_>)
        ensures
            v.area == old(self).area,
            *v.buffer == *old(self).buffer,
            final(self).area == old(self).area,
            *final(self).buffer == *final(v.buffer),
            *final(final(self).buffer) == *final(old(self).buffer),
    {
        View { area: self.area, buffer: &mut *self.buffer }
    }

    /// Narrows the window to `area`, which is given relative to the
    /// window's north-west corner.
    pub fn zoom(self, area: Rect) -> (v: View<'a>)
        requires
            can_zoom(self.area, area),
        ensures
            v.area == zoomed(self.area, area),
            *v.buffer == *old(self.buffer),
            *final(v.buffer) == *final(self.buffer),
    {
        let mut v = self;
        v.area = area + v.area.corner_nw();
        v
    }

    /// The size of the window.
    pub fn size(&self) -> (s: Vec2)
        ensures
            s.x == self.area.width(),
            s.y == self.area.height(),
            s.x >= 0,
            s.y >= 0,
    {
        self.area.size()
    }

    /// The window as the view's own positions see it: its north-west
    /// corner is the origin.
    pub fn area(&self) -> (r: Rect)
        ensures
            r.has_bounds(0, self.area.height() - 1, 0, self.area.width() - 1),
    {
        Rect::from_nw(Vec2::zero(), self.area.size())
    }

    /// The position in the buffer that belongs to `pos`, if its coordinates
    /// are in the range of `i32`.
    pub fn pos_to_buffer_pos(&self, pos: Vec2) -> (r: Option<Vec2>)
        ensures
            r.is_some() <==> fits_i32(buffer_x(self.area, pos)) && fits_i32(
                buffer_y(self.area, pos),
            ),
            r.is_some() ==> r.unwrap() == self.target(pos),
    {
        let nw = self.area.corner_nw();
        let x: i64 = pos.x as i64 + nw.x as i64;
        let y: i64 = pos.y as i64 + nw.y as i64;
        if x < -0x8000_0000 || x > 0x7fff_ffff || y < -0x8000_0000 || y > 0x7fff_ffff {
            None
        } else {
            Some(Vec2::new(x as i32, y as i32))
        }
    }

    /// The pixel at `pos`, if the buffer has one there.
    pub fn get(&self, pos: Vec2) -> (r: Option<Rgba>)
        ensures
            r.is_some() <==> self.hits(pos),
            r.is_some() ==> r.unwrap() == self.seen(pos),
    {
        match self.pos_to_buffer_pos(pos) {
            Some(q) => match self.buffer.at(q) {
                Some(pixel) => Some(*pixel),
                None => None,
            },
            None => None,
        }
    }

    /// Paints `color` over the pixel at `pos`: the pixel becomes `color`
    /// placed over what it was. Where the buffer has no pixel, nothing
    /// happens.
    pub fn set(&mut self, pos: Vec2, color: Rgba)
        ensures
            final(self).area == old(self).area,
            *final(final(self).buffer) == *final(old(self).buffer),
            final(self).buffer.spec_size() == old(self).buffer.spec_size(),
            old(self).hits(pos) ==> final(self).buffer.pixels() == old(self).buffer.pixels().update(
                old(self).buffer.offset(old(self).target(pos)),
                laid_over(color, old(self).buffer.pixel(old(self).target(pos))),
            ),
            !old(self).hits(pos) ==> final(self).buffer.pixels() == old(self).buffer.pixels(),
    {
        if let Some(q) = self.pos_to_buffer_pos(pos) {
            if let Some(pixel) = self.buffer.at_mut(q) {
                let below = *pixel;
                *pixel = blend(color, below);
            }
        }
    }

    /// Overwrites the pixel at `pos` with `color`. Where the buffer has no
    /// pixel, nothing happens.
    pub fn replace(&mut self, pos: Vec2, color: Rgba)
        ensures
            final(self).area == old(self).area,
            *final(final(self).buffer) == *final(old(self).buffer),
            final(self).buffer.spec_size() == old(self).buffer.spec_size(),
            old(self).hits(pos) ==> final(self).buffer.pixels() == old(self).buffer.pixels().update(
                old(self).buffer.offset(old(self).target(pos)),
                color,
            ),
            !old(self).hits(pos) ==> final(self).buffer.pixels() == old(self).buffer.pixels(),
    {
        if let Some(q) = self.pos_to_buffer_pos(pos) {
            if let Some(pixel) = self.buffer.at_mut(q) {
                *pixel = color;
            }
        }
    }

    /// Paints `color` over every pixel of `area`, which is given relative
    /// to the window's north-west corner. A colour that is not opaque
    /// blends with what is there.
    pub fn rect(&mut self, area: Rect, color: Rgba)
        ensures
            final(self).area == old(self).area,
            *final(final(self).buffer) == *final(old(self).buffer),
            final(self).buffer.spec_size() == old(self).buffer.spec_size(),
            forall|q: Vec2|
                old(self).buffer.in_bounds(q) ==> #[trigger] final(self).buffer.pixel(q) == (if covers(
                    old(self).area,
                    area,
                    q,
                ) {
                    laid_over(color, old(self).buffer.pixel(q))
                } else {
                    old(self).buffer.pixel(q)
                }),
    {
        let size = self.buffer.size();
        let origin = self.area.corner_nw();
        let nw = area.corner_nw();
        let se = area.corner_se();
        let west: i64 = nw.x as i64 + origin.x as i64;
        let east: i64 = se.x as i64 + origin.x as i64;
        let north: i64 = nw.y as i64 + origin.y as i64;
        let south: i64 = se.y as i64 + origin.y as i64;
        let x0: i64 = if west < 0 { 0 } else { west };
        let x1: i64 = if east >= size.x as i64 { size.x as i64 - 1 } else { east };
        let y0: i64 = if north < 0 { 0 } else { north };
        let y1: i64 = if south >= size.y as i64 { size.y as i64 - 1 } else { south };
        let ghost before = *self.buffer;
        let ghost window = self.area;
        let mut y: i64 = y0;
        while y <= y1
            invariant
                0 <= y0 <= y,
                y1 < size.y,
                0 <= x0,
                x1 < size.x,
                size == before.spec_size(),
                self.area == window,
                *final(self.buffer) == *final(old(self).buffer),
                self.buffer.spec_size() == before.spec_size(),
                forall|q: Vec2|
                    before.in_bounds(q) ==> #[trigger] self.buffer.pixel(q) == (if x0 <= q.x <= x1
                        && y0 <= q.y <= y1 && q.y < y {
                        laid_over(color, before.pixel(q))
                    } else {
                        before.pixel(q)
                    }),
            decreases y1 + 1 - y,
        {
            let mut x: i64 = x0;
            while x <= x1
                invariant
                    0 <= y0 <= y <= y1 < size.y,
                    0 <= x0 <= x,
                    x1 < size.x,
                    size == before.spec_size(),
                    self.area == window,
                    *final(self.buffer) == *final(old(self).buffer),
                    self.buffer.spec_size() == before.spec_size(),
                    forall|q: Vec2|
                        before.in_bounds(q) ==> #[trigger] self.buffer.pixel(q) == (if x0 <= q.x
                            <= x1 && y0 <= q.y <= y1 && passed(q, x as int, y as int) {
                            laid_over(color, before.pixel(q))
                        } else {
                            before.pixel(q)
                        }),
                decreases x1 + 1 - x,
            {
                let q = Vec2::new(x as i32, y as i32);
                let ghost middle = *self.buffer;
                proof {
                    use_type_invariant(&*self.buffer);
                }
                if let Some(pixel) = self.buffer.at_mut(q) {
                    let below = *pixel;
                    *pixel = blend(color, below);
                }
                assert forall|p: Vec2| before.in_bounds(p) implies #[trigger] self.buffer.pixel(p)
                    == (if x0 <= p.x <= x1 && y0 <= p.y <= y1 && passed(p, x + 1, y as int) {
                    laid_over(color, before.pixel(p))
                } else {
                    before.pixel(p)
                }) by {
                    if middle.in_bounds(q) {
                        middle.lemma_one_pixel_set(
                            *self.buffer,
                            q,
                            laid_over(color, middle.pixel(q)),
                            p,
                        );
                    }
                }
                x = x + 1;
            }
            y = y + 1;
        }
    }

    /// Paints an image over the buffer, its north-west corner at the
    /// window's: each of its pixels goes over the pixel that is there.
    pub fn image(&mut self, image: &Buffer<Rgba>)
        ensures
            final(self).area == old(self).area,
            *final(final(self).buffer) == *final(old(self).buffer),
            final(self).buffer.spec_size() == old(self).buffer.spec_size(),
            forall|q: Vec2|
                old(self).buffer.in_bounds(q) ==> #[trigger] final(self).buffer.pixel(q) == (if stamped(
                    old(self).area,
                    *image,
                    q,
                ) {
                    laid_over(image.pixel(source_of(old(self).area, q)), old(self).buffer.pixel(q))
                } else {
                    old(self).buffer.pixel(q)
                }),
    {
        let size = self.buffer.size();
        let extent = image.size();
        let origin = self.area.corner_nw();
        let west: i64 = origin.x as i64;
        let north: i64 = origin.y as i64;
        let east: i64 = west + extent.x as i64 - 1;
        let south: i64 = north + extent.y as i64 - 1;
        let x0: i64 = if west < 0 { 0 } else { west };
        let x1: i64 = if east >= size.x as i64 { size.x as i64 - 1 } else { east };
        let y0: i64 = if north < 0 { 0 } else { north };
        let y1: i64 = if south >= size.y as i64 { size.y as i64 - 1 } else { south };
        let ghost before = *self.buffer;
        let ghost window = self.area;
        let mut y: i64 = y0;
        while y <= y1
            invariant
                0 <= y0 <= y,
                y1 < size.y,
                0 <= x0,
                x1 < size.x,
                west == window.west(),
                north == window.north(),
                east == west + extent.x - 1,
                south == north + extent.y - 1,
                west <= x0,
                x1 <= east,
                north <= y0,
                y1 <= south,
                extent == image.spec_size(),
                size == before.spec_size(),
                self.area == window,
                *final(self.buffer) == *final(old(self).buffer),
                self.buffer.spec_size() == before.spec_size(),
                forall|q: Vec2|
                    before.in_bounds(q) ==> #[trigger] self.buffer.pixel(q) == (if x0 <= q.x <= x1
                        && y0 <= q.y <= y1 && q.y < y {
                        laid_over(image.pixel(source_of(window, q)), before.pixel(q))
                    } else {
                        before.pixel(q)
                    }),
            decreases y1 + 1 - y,
        {
            let mut x: i64 = x0;
            while x <= x1
                invariant
                    0 <= y0 <= y <= y1 < size.y,
                    0 <= x0 <= x,
                    x1 < size.x,
                    west == window.west(),
                    north == window.north(),
                    east == west + extent.x - 1,
                    south == north + extent.y - 1,
                    west <= x0,
                    x1 <= east,
                    north <= y0,
                    y1 <= south,
                    extent == image.spec_size(),
                    size == before.spec_size(),
                    self.area == window,
                    *final(self.buffer) == *final(old(self).buffer),
                    self.buffer.spec_size() == before.spec_size(),
                    forall|q: Vec2|
                        before.in_bounds(q) ==> #[trigger] self.buffer.pixel(q) == (if x0 <= q.x
                            <= x1 && y0 <= q.y <= y1 && passed(q, x as int, y as int) {
                            laid_over(image.pixel(source_of(window, q)), before.pixel(q))
                        } else {
                            before.pixel(q)
                        }),
                decreases x1 + 1 - x,
            {
                let q = Vec2::new(x as i32, y as i32);
                let from = Vec2::new((x - west) as i32, (y - north) as i32);
                assert(from == source_of(window, q));
                let color = match image.at(from) {
                    Some(color) => *color,
                    None => Rgba { r: 0, g: 0, b: 0, a: 0 },
                };
                let ghost middle = *self.buffer;
                proof {
                    use_type_invariant(&*self.buffer);
                }
                if let Some(pixel) = self.buffer.at_mut(q) {
                    let below = *pixel;
                    *pixel = blend(color, below);
                }
                assert forall|p: Vec2| before.in_bounds(p) implies #[trigger] self.buffer.pixel(p)
                    == (if x0 <= p.x <= x1 && y0 <= p.y <= y1 && passed(p, x + 1, y as int) {
                    laid_over(image.pixel(source_of(window, p)), before.pixel(p))
                } else {
                    before.pixel(p)
                }) by {
                    if middle.in_bounds(q) {
                        middle.lemma_one_pixel_set(
                            *self.buffer,
                            q,
                            laid_over(color, middle.pixel(q)),
                            p,
                        );
                    }
                }
                x = x + 1;
            }
            y = y + 1;
        }
    }
}

} // verus!
