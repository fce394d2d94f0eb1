//! Axis-aligned rectangles on the integer grid.

use vstd::prelude::*;
use vstd::std_specs::ops::{AddSpecImpl, SubSpecImpl};
use crate::buffer::{lemma_offset_bound, lemma_offset_split, lemma_position_of_offset};
use crate::vec2::{fits_i32, Vec2};

verus! {

/// A rectangle given by the rows and columns of its outermost points, all
/// four inclusive. A rectangle without points has `east == west - 1` or
/// `south == north - 1`.
#[derive(Clone, Copy, Debug, PartialEq, Eq, Structural)]
pub struct Rect {
    north: i32,
    south: i32,
    west: i32,
    east: i32,
}

/// Whether the four bounds describe a rectangle whose width and height are
/// neither negative nor too large for `i32`.
pub open spec fn valid_bounds(north: int, south: int, west: int, east: int) -> bool {
    &&& 0 <= east - west + 1 <= i32::MAX
    &&& 0 <= south - north + 1 <= i32::MAX
}

impl Rect {
    pub closed spec fn north(self) -> int {
        self.north as int
    }

    pub closed spec fn south(self) -> int {
        self.south as int
    }

    pub closed spec fn west(self) -> int {
        self.west as int
    }

    pub closed spec fn east(self) -> int {
        self.east as int
    }

    pub open spec fn width(self) -> int {
        self.east() - self.west() + 1
    }

    pub open spec fn height(self) -> int {
        self.south() - self.north() + 1
    }

    /// What every rectangle satisfies: its size is not negative and fits.
    #[verifier::type_invariant]
    pub open spec fn wf(self) -> bool {
        valid_bounds(self.north(), self.south(), self.west(), self.east())
    }

    /// Whether the point lies inside the rectangle.
    pub open spec fn contains(self, p: Vec2) -> bool {
        self.west() <= p.x <= self.east() && self.north() <= p.y <= self.south()
    }

    /// Whether the four bounds are those given.
    pub open spec fn has_bounds(self, north: int, south: int, west: int, east: int) -> bool {
        &&& self.north() == north
        &&& self.south() == south
        &&& self.west() == west
        &&& self.east() == east
    }

    /// The rectangle with the given bounds.
    pub closed spec fn with_bounds(north: int, south: int, west: int, east: int) -> Rect {
        Rect { north: north as i32, south: south as i32, west: west as i32, east: east as i32 }
    }

    /// A rectangle made of bounds has those bounds, where they lie in the
    /// range of `i32`.
    pub proof fn lemma_with_bounds(north: int, south: int, west: int, east: int)
        requires
            fits_i32(north),
            fits_i32(south),
            fits_i32(west),
            fits_i32(east),
        ensures
            Rect::with_bounds(north, south, west, east).has_bounds(north, south, west, east),
    {
    }

    /// The rectangle moved by `(dx, dy)`.
    pub closed spec fn moved(self, dx: int, dy: int) -> Rect {
        Rect {
            north: (self.north + dy) as i32,
            south: (self.south + dy) as i32,
            west: (self.west + dx) as i32,
            east: (self.east + dx) as i32,
        }
    }

    /// Whether the rectangle can be moved by `(dx, dy)` without leaving the
    /// range of `i32`.
    pub open spec fn can_move(self, dx: int, dy: int) -> bool {
        &&& fits_i32(self.north() + dy)
        &&& fits_i32(self.south() + dy)
        &&& fits_i32(self.west() + dx)
        &&& fits_i32(self.east() + dx)
    }

    /// The bounds of a rectangle lie in the range of `i32`.
    pub proof fn lemma_in_range(self)
        ensures
            fits_i32(self.north()),
            fits_i32(self.south()),
            fits_i32(self.west()),
            fits_i32(self.east()),
            self.can_move(0, 0),
            self.moved(0, 0) == self,
    {
    }

    /// Two rectangles with the same bounds are the same rectangle.
    pub proof fn lemma_same_bounds(self, other: Rect)
        requires
            self.has_bounds(other.north(), other.south(), other.west(), other.east()),
        ensures
            self == other,
    {
    }

    /// Moving keeps the size and shifts every bound.
    pub proof fn lemma_moved(self, dx: int, dy: int)
        requires
            self.can_move(dx, dy),
        ensures
            self.moved(dx, dy).has_bounds(
                self.north() + dy,
                self.south() + dy,
                self.west() + dx,
                self.east() + dx,
            ),
            self.wf() ==> self.moved(dx, dy).wf(),
    {
    }

    /// Every construction goes through here.
    fn new(north: i32, south: i32, west: i32, east: i32) -> (r: Rect)
        requires
            valid_bounds(north as int, south as int, west as int, east as int),
        ensures
            r.has_bounds(north as int, south as int, west as int, east as int),
    {
        Rect { north, south, west, east }
    }

    /// A rectangle without points, located at the origin.
    pub fn zero() -> (r: Rect)
        ensures
            r.has_bounds(0, -1, 0, -1),
    {
        Rect::new(0, -1, 0, -1)
    }

    /// The bounding box of two points. It always holds at least one point.
    pub fn from_points(a: Vec2, b: Vec2) -> (r: Rect)
        requires
            a.x - b.x < i32::MAX,
            b.x - a.x < i32::MAX,
            a.y - b.y < i32::MAX,
            b.y - a.y < i32::MAX,
        ensures
            r.has_bounds(
                if a.y <= b.y { a.y as int } else { b.y as int },
                if a.y <= b.y { b.y as int } else { a.y as int },
                if a.x <= b.x { a.x as int } else { b.x as int },
                if a.x <= b.x { b.x as int } else { a.x as int },
            ),
            r.contains(a),
            r.contains(b),
    {
        let north: i32 = if a.y <= b.y { a.y } else { b.y };
        let south: i32 = if a.y <= b.y { b.y } else { a.y };
        let west: i32 = if a.x <= b.x { a.x } else { b.x };
        let east: i32 = if a.x <= b.x { b.x } else { a.x };
        Rect::new(north, south, west, east)
    }

    /// The rectangle between its north-west and its south-east corner.
    pub fn from_nw_se(nw: Vec2, se: Vec2) -> (r: Rect)
        requires
            valid_bounds(nw.y as int, se.y as int, nw.x as int, se.x as int),
        ensures
            r.has_bounds(nw.y as int, se.y as int, nw.x as int, se.x as int),
    {
        Rect::new(nw.y, se.y, nw.x, se.x)
    }

    /// The rectangle between its north-east and its south-west corner.
    pub fn from_ne_sw(ne: Vec2, sw: Vec2) -> (r: Rect)
        requires
            valid_bounds(ne.y as int, sw.y as int, sw.x as int, ne.x as int),
        ensures
            r.has_bounds(ne.y as int, sw.y as int, sw.x as int, ne.x as int),
    {
        Rect::new(ne.y, sw.y, sw.x, ne.x)
    }

    /// The rectangle of the given size whose north-west corner is `nw`.
    pub fn from_nw(nw: Vec2, size: Vec2) -> (r: Rect)
        requires
            size.x >= 0,
            size.y >= 0,
            fits_i32(nw.x + size.x - 1),
            fits_i32(nw.y + size.y - 1),
        ensures
            r.has_bounds(nw.y as int, nw.y + size.y - 1, nw.x as int, nw.x + size.x - 1),
            r.width() == size.x,
            r.height() == size.y,
    {
        Rect::new(nw.y, nw.y + (size.y - 1), nw.x, nw.x + (size.x - 1))
    }

    /// The rectangle of the given size whose north-east corner is `ne`.
    pub fn from_ne(ne: Vec2, size: Vec2) -> (r: Rect)
        requires
            size.x >= 0,
            size.y >= 0,
            fits_i32(ne.x - size.x + 1),
            fits_i32(ne.y + size.y - 1),
        ensures
            r.has_bounds(ne.y as int, ne.y + size.y - 1, ne.x - size.x + 1, ne.x as int),
            r.width() == size.x,
            r.height() == size.y,
    {
        Rect::new(ne.y, ne.y + (size.y - 1), ne.x - (size.x - 1), ne.x)
    }

    /// The rectangle of the given size whose south-west corner is `sw`.
    pub fn from_sw(sw: Vec2, size: Vec2) -> (r: Rect)
        requires
            size.x >= 0,
            size.y >= 0,
            fits_i32(sw.x + size.x - 1),
            fits_i32(sw.y - size.y + 1),
        ensures
            r.has_bounds(sw.y - size.y + 1, sw.y as int, sw.x as int, sw.x + size.x - 1),
            r.width() == size.x,
            r.height() == size.y,
    {
        Rect::new(sw.y - (size.y - 1), sw.y, sw.x, sw.x + (size.x - 1))
    }

    /// The rectangle of the given size whose south-east corner is `se`.
    pub fn from_se(se: Vec2, size: Vec2) -> (r: Rect)
        requires
            size.x >= 0,
            size.y >= 0,
            fits_i32(se.x - size.x + 1),
            fits_i32(se.y - size.y + 1),
        ensures
            r.has_bounds(se.y - size.y + 1, se.y as int, se.x - size.x + 1, se.x as int),
            r.width() == size.x,
            r.height() == size.y,
    {
        Rect::new(se.y - (size.y - 1), se.y, se.x - (size.x - 1), se.x)
    }

    /// How many points the rectangle holds.
    pub open spec fn count(self) -> int {
        self.width() * self.height()
    }

    /// The point with the given number, counting row by row from the
    /// north-west corner, each row from west to east.
    pub open spec fn point_at(self, i: int) -> Vec2 {
        Vec2 { x: (self.west() + i % self.width()) as i32, y: (self.north() + i / self.width()) as i32 }
    }

    /// All points of the rectangle, row by row.
    pub open spec fn row_major(self) -> Seq<Vec2> {
        Seq::new(self.count() as nat, |i: int| self.point_at(i))
    }

    /// The number that `point_at` gives to a point of the rectangle.
    pub open spec fn number_of(self, p: Vec2) -> int {
        (p.y - self.north()) * self.width() + (p.x - self.west())
    }

    /// The numbered points are exactly the points of the rectangle, each of
    /// them once.
    pub proof fn lemma_points_cover(self)
        requires
            self.wf(),
        ensures
            forall|i: int| 0 <= i < self.count() ==> self.contains(#[trigger] self.point_at(i)),
            forall|i: int|
                0 <= i < self.count() ==> self.number_of(#[trigger] self.point_at(i)) == i,
            forall|p: Vec2|
                self.contains(p) ==> 0 <= #[trigger] self.number_of(p) < self.count()
                    && self.point_at(self.number_of(p)) == p,
    {
        let w = self.width();
        let h = self.height();
        assert forall|i: int| 0 <= i < self.count() implies self.contains(
            #[trigger] self.point_at(i),
        ) && self.number_of(self.point_at(i)) == i by {
            lemma_position_of_offset(w, h, i);
        }
        assert forall|p: Vec2| self.contains(p) implies 0 <= #[trigger] self.number_of(p)
            < self.count() && self.point_at(self.number_of(p)) == p by {
            lemma_offset_bound(w, h, p.x - self.west(), p.y - self.north());
            lemma_offset_split(w, p.x - self.west(), p.y - self.north());
        }
    }

    /// A cursor over all points of the rectangle, row by row. It computes
    /// each point when asked for it; a new call starts over.
    pub fn points(self) -> (p: Points)
        ensures
            p.rect() == self,
            p.position() == 0,
    {
        proof {
            use_type_invariant(&self);
            assert(0 <= self.width() * self.height()) by (nonlinear_arith)
                requires
                    0 <= self.width(),
                    0 <= self.height(),
            ;
        }
        Points { rect: self, next: 0 }
    }

    pub fn corner_nw(self) -> (v: Vec2)
        ensures
            v.x == self.west(),
            v.y == self.north(),
    {
        Vec2::new(self.west, self.north)
    }

    pub fn corner_ne(self) -> (v: Vec2)
        ensures
            v.x == self.east(),
            v.y == self.north(),
    {
        Vec2::new(self.east, self.north)
    }

    pub fn corner_sw(self) -> (v: Vec2)
        ensures
            v.x == self.west(),
            v.y == self.south(),
    {
        Vec2::new(self.west, self.south)
    }

    pub fn corner_se(self) -> (v: Vec2)
        ensures
            v.x == self.east(),
            v.y == self.south(),
    {
        Vec2::new(self.east, self.south)
    }

    /// Width and height, neither of them negative.
    pub fn size(self) -> (v: Vec2)
        ensures
            v.x == self.width(),
            v.y == self.height(),
            v.x >= 0,
            v.y >= 0,
    {
        proof {
            use_type_invariant(&self);
        }
        Vec2::new(self.east - self.west + 1, self.south - self.north + 1)
    }
}

impl core::ops::Add<Vec2> for Rect {
    type Output = Rect;

    fn add(self, rhs: Vec2) -> (r: Rect) {
        proof {
            use_type_invariant(&self);
        }
        Rect::new(self.north + rhs.y, self.south + rhs.y, self.west + rhs.x, self.east + rhs.x)
    }
}

impl AddSpecImpl<Vec2> for Rect {
    open spec fn obeys_add_spec() -> bool {
        true
    }

    open spec fn add_req(self, rhs: Vec2) -> bool {
        self.can_move(rhs.x as int, rhs.y as int)
    }

    open spec fn add_spec(self, rhs: Vec2) -> Rect {
        self.moved(rhs.x as int, rhs.y as int)
    }
}

impl core::ops::Sub<Vec2> for Rect {
    type Output = Rect;

    fn sub(self, rhs: Vec2) -> (r: Rect) {
        proof {
            use_type_invariant(&self);
        }
        Rect::new(self.north - rhs.y, self.south - rhs.y, self.west - rhs.x, self.east - rhs.x)
    }
}

impl SubSpecImpl<Vec2> for Rect {
    open spec fn obeys_sub_spec() -> bool {
        true
    }

    open spec fn sub_req(self, rhs: Vec2) -> bool {
        self.can_move(-rhs.x, -rhs.y)
    }

    open spec fn sub_spec(self, rhs: Vec2) -> Rect {
        self.moved(-rhs.x, -rhs.y)
    }
}

/// A position in the row-by-row walk over a rectangle's points.
pub struct Points {
    rect: Rect,
    next: u64,
}

impl Points {
    /// The rectangle that is walked.
    pub closed spec fn rect(self) -> Rect {
        self.rect
    }

    /// How many points have been handed out.
    pub closed spec fn position(self) -> int {
        self.next as int
    }

    #[verifier::type_invariant]
    pub open spec fn wf(self) -> bool {
        0 <= self.position() <= self.rect().count()
    }

    /// The points still to come.
    pub open spec fn remaining(self) -> Seq<Vec2> {
        self.rect().row_major().skip(self.position())
    }

    /// The next point, or `None` when every point has been handed out.
    pub fn next(&mut self) -> (r: Option<Vec2>)
        ensures
            final(self).rect() == old(self).rect(),
            old(self).position() < old(self).rect().count() ==> r == Some(
                old(self).rect().point_at(old(self).position()),
            ) && final(self).position() == old(self).position() + 1,
            old(self).position() >= old(self).rect().count() ==> r.is_none()
                && final(self).position() == old(self).position(),
    {
        proof {
            use_type_invariant(&*self);
            use_type_invariant(&self.rect);
        }
        let size = self.rect.size();
        let w: u64 = size.x as u64;
        let h: u64 = size.y as u64;
        assert(w * h <= 0x7fff_ffff * 0x7fff_ffff) by (nonlinear_arith)
            requires
                w <= 0x7fff_ffff,
                h <= 0x7fff_ffff,
        ;
        if self.next >= w * h {
            return None;
        }
        proof {
            lemma_position_of_offset(w as int, h as int, self.next as int);
        }
        let col: u64 = self.next % w;
        let row: u64 = self.next / w;
        let nw = self.rect.corner_nw();
        let x: i64 = nw.x as i64 + col as i64;
        let y: i64 = nw.y as i64 + row as i64;
        self.next = self.next + 1;
        Some(Vec2::new(x as i32, y as i32))
    }
}

} // verus!
