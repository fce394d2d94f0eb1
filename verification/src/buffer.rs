//! A pixel buffer of fixed size.

use vstd::prelude::*;
use crate::vec2::Vec2;

verus! {

/// `size.x * size.y` pixels, stored row by row. The size never changes.
pub struct Buffer<C> {
    size: Vec2,
    data: Vec<C>,
}

/// Where the pixel at column `x` of row `y` stands in a buffer of the given
/// width.
pub open spec fn offset_of(width: int, x: int, y: int) -> int {
    y * width + x
}

/// A position inside a `w` by `h` buffer has an offset below `w * h`.
pub proof fn lemma_offset_bound(w: int, h: int, x: int, y: int)
    requires
        0 <= x < w,
        0 <= y < h,
    ensures
        0 <= offset_of(w, x, y) < w * h,
{
    assert(0 <= y * w + x < w * h) by (nonlinear_arith)
        requires
            0 <= x < w,
            0 <= y < h,
    ;
}

/// The offset of a position inside a buffer gives the position back.
pub proof fn lemma_offset_split(w: int, x: int, y: int)
    requires
        0 <= x < w,
    ensures
        offset_of(w, x, y) / w == y,
        offset_of(w, x, y) % w == x,
{
    vstd::arithmetic::div_mod::lemma_fundamental_div_mod_converse(y * w + x, w, y, x);
}

/// The position of the pixel that stands at offset `i` in a buffer of the
/// given width.
pub open spec fn position_of(width: int, i: int) -> Vec2 {
    Vec2 { x: (i % width) as i32, y: (i / width) as i32 }
}

/// An offset below `w * h` belongs to a position inside a `w` by `h`
/// buffer, and that position has this offset.
pub proof fn lemma_position_of_offset(w: int, h: int, i: int)
    requires
        0 <= w,
        0 <= h,
        0 <= i < w * h,
    ensures
        0 <= i % w < w,
        0 <= i / w < h,
        offset_of(w, i % w, i / w) == i,
        w <= i32::MAX && h <= i32::MAX ==> position_of(w, i).x == i % w && position_of(w, i).y
            == i / w,
{
    assert(w > 0) by (nonlinear_arith)
        requires
            0 <= i < w * h,
            0 <= w,
    ;
    vstd::arithmetic::div_mod::lemma_fundamental_div_mod(i, w);
    vstd::arithmetic::div_mod::lemma_mod_bound(i, w);
    assert(0 <= i / w < h) by (nonlinear_arith)
        requires
            0 <= i < w * h,
            w > 0,
            i == w * (i / w) + i % w,
            0 <= i % w < w,
    ;
    assert((i / w) * w == w * (i / w)) by (nonlinear_arith);
}

/// Two positions inside a buffer with the same offset are the same position.
pub proof fn lemma_offset_injective(w: int, x1: int, y1: int, x2: int, y2: int)
    requires
        0 <= x1 < w,
        0 <= x2 < w,
        offset_of(w, x1, y1) == offset_of(w, x2, y2),
    ensures
        x1 == x2,
        y1 == y2,
{
    vstd::arithmetic::div_mod::lemma_fundamental_div_mod_converse(y1 * w + x1, w, y1, x1);
    vstd::arithmetic::div_mod::lemma_fundamental_div_mod_converse(y2 * w + x2, w, y2, x2);
}

impl<C> Buffer<C> {
    /// Width and height.
    pub closed spec fn spec_size(self) -> Vec2 {
        self.size
    }

    /// The pixels, row by row.
    pub closed spec fn pixels(self) -> Seq<C> {
        self.data@
    }

    /// What holds of every buffer: the size is not negative, and there is
    /// one pixel for each position.
    #[verifier::type_invariant]
    pub open spec fn wf(self) -> bool {
        &&& self.spec_size().x >= 0
        &&& self.spec_size().y >= 0
        &&& self.pixels().len() == self.spec_size().x * self.spec_size().y
    }

    /// Whether the position lies inside the buffer: on both axes.
    pub open spec fn in_bounds(self, pos: Vec2) -> bool {
        0 <= pos.x < self.spec_size().x && 0 <= pos.y < self.spec_size().y
    }

    /// Where the pixel at `pos` stands among `pixels()`.
    pub open spec fn offset(self, pos: Vec2) -> int {
        offset_of(self.spec_size().x as int, pos.x as int, pos.y as int)
    }

    /// The pixel at a position inside the buffer.
    pub open spec fn pixel(self, pos: Vec2) -> C {
        self.pixels()[self.offset(pos)]
    }

    /// When one pixel of a buffer is set, that pixel has the new colour and
    /// every other pixel is as it was.
    pub proof fn lemma_one_pixel_set(self, after: Buffer<C>, pos: Vec2, color: C, other: Vec2)
        requires
            self.wf(),
            self.in_bounds(pos),
            self.in_bounds(other),
            after.spec_size() == self.spec_size(),
            after.pixels() == self.pixels().update(self.offset(pos), color),
        ensures
            other != pos ==> after.pixel(other) == self.pixel(other),
            other == pos ==> after.pixel(other) == color,
    {
        let w = self.spec_size().x as int;
        let h = self.spec_size().y as int;
        lemma_offset_bound(w, h, pos.x as int, pos.y as int);
        lemma_offset_bound(w, h, other.x as int, other.y as int);
        if other != pos && self.offset(other) == self.offset(pos) {
            lemma_offset_injective(w, other.x as int, other.y as int, pos.x as int, pos.y as int);
        }
    }

    /// A buffer whose pixel at each position is what `f` gives for the
    /// position has those pixels, offset by offset.
    pub proof fn lemma_pixels_by_position(self, f: spec_fn(Vec2) -> C)
        requires
            self.wf(),
            self.spec_size().x <= i32::MAX,
            self.spec_size().y <= i32::MAX,
            forall|q: Vec2| self.in_bounds(q) ==> #[trigger] self.pixel(q) == f(q),
        ensures
            self.pixels() == Seq::new(
                self.pixels().len(),
                |i: int| f(position_of(self.spec_size().x as int, i)),
            ),
    {
        let w = self.spec_size().x as int;
        let h = self.spec_size().y as int;
        assert forall|i: int| 0 <= i < self.pixels().len() implies self.pixels()[i] == f(
            position_of(w, i),
        ) by {
            lemma_position_of_offset(w, h, i);
            let q = position_of(w, i);
            assert(self.in_bounds(q));
            assert(self.pixel(q) == self.pixels()[i]);
        }
        assert(self.pixels() =~= Seq::new(self.pixels().len(), |i: int| f(position_of(w, i))));
    }

    /// A buffer of the given size with every pixel set to `color`.
    pub fn new(size: Vec2, color: C) -> (b: Buffer<C>) where C: Copy
        requires
            size.x >= 0,
            size.y >= 0,
            size.x * size.y <= usize::MAX,
        ensures
            b.spec_size() == size,
            b.pixels() == Seq::new((size.x * size.y) as nat, |i: int| color),
    {
        assert(0 <= size.x * size.y) by (nonlinear_arith)
            requires
                size.x >= 0,
                size.y >= 0,
        ;
        let len: usize = (size.x as usize) * (size.y as usize);
        let mut data: Vec<C> = Vec::with_capacity(len);
        let mut i: usize = 0;
        while i < len
            invariant
                i <= len,
                data@ == Seq::new(i as nat, |k: int| color),
            decreases len - i,
        {
            data.push(color);
            i = i + 1;
        }
        Buffer { size, data }
    }

    pub fn size(&self) -> (s: Vec2)
        ensures
            s == self.spec_size(),
            s.x >= 0,
            s.y >= 0,
    {
        proof {
            use_type_invariant(self);
        }
        self.size
    }

    /// How many pixels there are.
    pub fn pixel_count(&self) -> (n: usize)
        ensures
            n == self.pixels().len(),
            n == self.spec_size().x * self.spec_size().y,
    {
        proof {
            use_type_invariant(self);
        }
        self.data.len()
    }

    /// The offset of the pixel at `pos`, if `pos` lies inside the buffer.
    pub fn index(&self, pos: Vec2) -> (r: Option<usize>)
        ensures
            r.is_some() <==> self.in_bounds(pos),
            r.is_some() ==> r.unwrap() == self.offset(pos) && r.unwrap() < self.pixels().len(),
    {
        proof {
            use_type_invariant(self);
        }
        let in_bounds_x = pos.x >= 0 && pos.x < self.size.x;
        let in_bounds_y = pos.y >= 0 && pos.y < self.size.y;
        if in_bounds_x && in_bounds_y {
            proof {
                lemma_offset_bound(
                    self.size.x as int,
                    self.size.y as int,
                    pos.x as int,
                    pos.y as int,
                );
            }
            assert(0 <= pos.y * self.size.x) by (nonlinear_arith)
                requires
                    0 <= pos.y,
                    0 <= self.size.x,
            ;
            assert(self.data.len() == self.size.x * self.size.y);
            Some((pos.y as usize) * (self.size.x as usize) + (pos.x as usize))
        } else {
            None
        }
    }

    /// The pixel at `pos`, if `pos` lies inside the buffer.
    pub fn at(&self, pos: Vec2) -> (r: Option<&C>)
        ensures
            r.is_some() <==> self.in_bounds(pos),
            r.is_some() ==> *r.unwrap() == self.pixel(pos),
    {
        match self.index(pos) {
            Some(index) => Some(&self.data[index]),
            None => None,
        }
    }

    /// The pixel at `pos`, to be changed in place, if `pos` lies inside the
    /// buffer.
    pub fn at_mut(&mut self, pos: Vec2) -> (r: Option<&mut C>)
        ensures
            r.is_some() <==> old(self).in_bounds(pos),
            final(self).spec_size() == old(self).spec_size(),
            r.is_some() ==> *r.unwrap() == old(self).pixel(pos)
                && final(self).pixels() == old(self).pixels().update(
                old(self).offset(pos),
                *final(r.unwrap()),
            ),
            r.is_none() ==> final(self).pixels() == old(self).pixels(),
    {
        match self.index(pos) {
            Some(index) => {
                proof {
                    use_type_invariant(&*self);
                    assert forall|c: C| #[trigger]
                        self.data@.update(index as int, c).len() == self.data@.len() by {}
                }
                Some(&mut self.data[index])
            },
            None => None,
        }
    }

    /// Sets the pixel at `pos`. Outside the buffer nothing happens.
    pub fn set(&mut self, pos: Vec2, color: C)
        ensures
            final(self).spec_size() == old(self).spec_size(),
            old(self).in_bounds(pos) ==> final(self).pixels() == old(self).pixels().update(
                old(self).offset(pos),
                color,
            ),
            !old(self).in_bounds(pos) ==> final(self).pixels() == old(self).pixels(),
    {
        if let Some(pixel) = self.at_mut(pos) {
            *pixel = color;
        }
    }
}

impl<C: Copy> Clone for Buffer<C> {
    /// A buffer of the same size with the same pixels.
    fn clone(&self) -> (copy: Buffer<C>)
        ensures
            copy.spec_size() == self.spec_size(),
            copy.pixels() == self.pixels(),
    {
        proof {
            use_type_invariant(self);
        }
        let mut data: Vec<C> = Vec::with_capacity(self.data.len());
        let mut i: usize = 0;
        while i < self.data.len()
            invariant
                i <= self.data@.len(),
                data@ == self.data@.take(i as int),
            decreases self.data@.len() - i,
        {
            data.push(self.data[i]);
            assert(self.data@.take(i + 1) =~= self.data@.take(i as int).push(self.data@[i as int]));
            i = i + 1;
        }
        assert(self.data@.take(self.data@.len() as int) =~= self.data@);
        Buffer { size: self.size, data }
    }
}

} // verus!
