//! Integer vectors in the plane.

use vstd::prelude::*;
use vstd::std_specs::ops::{AddSpecImpl, MulSpecImpl, NegSpecImpl, SubSpecImpl};

verus! {

/// A point or an offset on the integer grid. `x` grows to the east, `y` to
/// the south.
#[derive(Clone, Copy, Debug, PartialEq, Eq, Structural)]
pub struct Vec2 {
    pub x: i32,
    pub y: i32,
}

/// Whether `v` lies in the range of `i32`.
pub open spec fn fits_i32(v: int) -> bool {
    i32::MIN <= v <= i32::MAX
}

impl Vec2 {
    /// The origin.
    pub fn zero() -> (v: Vec2)
        ensures
            v == (Vec2 { x: 0, y: 0 }),
    {
        Vec2 { x: 0, y: 0 }
    }

    /// One step to the north.
    pub fn north() -> (v: Vec2)
        ensures
            v == (Vec2 { x: 0, y: -1i32 }),
    {
        Vec2 { x: 0, y: -1 }
    }

    /// One step to the south.
    pub fn south() -> (v: Vec2)
        ensures
            v == (Vec2 { x: 0, y: 1 }),
    {
        Vec2 { x: 0, y: 1 }
    }

    /// One step to the west.
    pub fn west() -> (v: Vec2)
        ensures
            v == (Vec2 { x: -1i32, y: 0 }),
    {
        Vec2 { x: -1, y: 0 }
    }

    /// One step to the east.
    pub fn east() -> (v: Vec2)
        ensures
            v == (Vec2 { x: 1, y: 0 }),
    {
        Vec2 { x: 1, y: 0 }
    }

    pub fn new(x: i32, y: i32) -> (v: Vec2)
        ensures
            v.x == x,
            v.y == y,
    {
        Vec2 { x, y }
    }

    /// The vector with the given unsigned components, if both fit.
    pub fn from_u32_checked(x: u32, y: u32) -> (r: Option<Vec2>)
        ensures
            r.is_some() <==> x <= i32::MAX && y <= i32::MAX,
            r.is_some() ==> r.unwrap().x == x && r.unwrap().y == y,
    {
        if x > 0x7fff_ffff || y > 0x7fff_ffff {
            None
        } else {
            Some(Vec2 { x: x as i32, y: y as i32 })
        }
    }

    pub fn from_u32(x: u32, y: u32) -> (v: Vec2)
        requires
            x <= i32::MAX,
            y <= i32::MAX,
        ensures
            v.x == x,
            v.y == y,
    {
        Vec2 { x: x as i32, y: y as i32 }
    }

    /// Both components as unsigned numbers, if neither is negative.
    pub fn to_u32_checked(self) -> (r: Option<(u32, u32)>)
        ensures
            r.is_some() <==> self.x >= 0 && self.y >= 0,
            r.is_some() ==> r.unwrap().0 == self.x && r.unwrap().1 == self.y,
    {
        if self.x < 0 || self.y < 0 {
            None
        } else {
            Some((self.x as u32, self.y as u32))
        }
    }

    pub fn to_u32(self) -> (r: (u32, u32))
        requires
            self.x >= 0,
            self.y >= 0,
        ensures
            r.0 == self.x,
            r.1 == self.y,
    {
        (self.x as u32, self.y as u32)
    }

    pub fn with_x(self, x: i32) -> (v: Vec2)
        ensures
            v.x == x,
            v.y == self.y,
    {
        Vec2 { x, y: self.y }
    }

    pub fn with_y(self, y: i32) -> (v: Vec2)
        ensures
            v.x == self.x,
            v.y == y,
    {
        Vec2 { x: self.x, y }
    }

    /// The vector pointing from `self` to `other`.
    pub fn to(self, other: Vec2) -> (v: Vec2)
        requires
            fits_i32(other.x - self.x),
            fits_i32(other.y - self.y),
        ensures
            v.x == other.x - self.x,
            v.y == other.y - self.y,
    {
        Vec2 { x: other.x - self.x, y: other.y - self.y }
    }

    /// Negate the `x` component of the vector.
    pub fn neg_x(self) -> (v: Vec2)
        requires
            self.x != i32::MIN,
        ensures
            v.x == -self.x,
            v.y == self.y,
    {
        Vec2 { x: -self.x, y: self.y }
    }

    /// Negate the `y` component of the vector.
    pub fn neg_y(self) -> (v: Vec2)
        requires
            self.y != i32::MIN,
        ensures
            v.x == self.x,
            v.y == -self.y,
    {
        Vec2 { x: self.x, y: -self.y }
    }
}

impl core::ops::Neg for Vec2 {
    type Output = Vec2;

    fn neg(self) -> (v: Vec2) {
        Vec2 { x: -self.x, y: -self.y }
    }
}

impl NegSpecImpl for Vec2 {
    open spec fn obeys_neg_spec() -> bool {
        true
    }

    open spec fn neg_req(self) -> bool {
        self.x != i32::MIN && self.y != i32::MIN
    }

    open spec fn neg_spec(self) -> Vec2 {
        Vec2 { x: (-self.x) as i32, y: (-self.y) as i32 }
    }
}

impl core::ops::Add for Vec2 {
    type Output = Vec2;

    fn add(self, rhs: Vec2) -> (v: Vec2) {
        Vec2 { x: self.x + rhs.x, y: self.y + rhs.y }
    }
}

impl AddSpecImpl for Vec2 {
    open spec fn obeys_add_spec() -> bool {
        true
    }

    open spec fn add_req(self, rhs: Vec2) -> bool {
        fits_i32(self.x + rhs.x) && fits_i32(self.y + rhs.y)
    }

    open spec fn add_spec(self, rhs: Vec2) -> Vec2 {
        Vec2 { x: (self.x + rhs.x) as i32, y: (self.y + rhs.y) as i32 }
    }
}

impl core::ops::Add<i32> for Vec2 {
    type Output = Vec2;

    fn add(self, rhs: i32) -> (v: Vec2) {
        Vec2 { x: self.x + rhs, y: self.y + rhs }
    }
}

impl AddSpecImpl<i32> for Vec2 {
    open spec fn obeys_add_spec() -> bool {
        true
    }

    open spec fn add_req(self, rhs: i32) -> bool {
        fits_i32(self.x + rhs) && fits_i32(self.y + rhs)
    }

    open spec fn add_spec(self, rhs: i32) -> Vec2 {
        Vec2 { x: (self.x + rhs) as i32, y: (self.y + rhs) as i32 }
    }
}

impl core::ops::Sub for Vec2 {
    type Output = Vec2;

    fn sub(self, rhs: Vec2) -> (v: Vec2) {
        Vec2 { x: self.x - rhs.x, y: self.y - rhs.y }
    }
}

impl SubSpecImpl for Vec2 {
    open spec fn obeys_sub_spec() -> bool {
        true
    }

    open spec fn sub_req(self, rhs: Vec2) -> bool {
        fits_i32(self.x - rhs.x) && fits_i32(self.y - rhs.y)
    }

    open spec fn sub_spec(self, rhs: Vec2) -> Vec2 {
        Vec2 { x: (self.x - rhs.x) as i32, y: (self.y - rhs.y) as i32 }
    }
}

impl core::ops::Sub<i32> for Vec2 {
    type Output = Vec2;

    fn sub(self, rhs: i32) -> (v: Vec2) {
        Vec2 { x: self.x - rhs, y: self.y - rhs }
    }
}

impl SubSpecImpl<i32> for Vec2 {
    open spec fn obeys_sub_spec() -> bool {
        true
    }

    open spec fn sub_req(self, rhs: i32) -> bool {
        fits_i32(self.x - rhs) && fits_i32(self.y - rhs)
    }

    open spec fn sub_spec(self, rhs: i32) -> Vec2 {
        Vec2 { x: (self.x - rhs) as i32, y: (self.y - rhs) as i32 }
    }
}

impl core::ops::Mul for Vec2 {
    type Output = Vec2;

    fn mul(self, rhs: Vec2) -> (v: Vec2) {
        Vec2 { x: self.x * rhs.x, y: self.y * rhs.y }
    }
}

impl MulSpecImpl for Vec2 {
    open spec fn obeys_mul_spec() -> bool {
        true
    }

    open spec fn mul_req(self, rhs: Vec2) -> bool {
        fits_i32(self.x * rhs.x) && fits_i32(self.y * rhs.y)
    }

    open spec fn mul_spec(self, rhs: Vec2) -> Vec2 {
        Vec2 { x: (self.x * rhs.x) as i32, y: (self.y * rhs.y) as i32 }
    }
}

impl core::ops::Mul<i32> for Vec2 {
    type Output = Vec2;

    fn mul(self, rhs: i32) -> (v: Vec2) {
        Vec2 { x: self.x * rhs, y: self.y * rhs }
    }
}

impl MulSpecImpl<i32> for Vec2 {
    open spec fn obeys_mul_spec() -> bool {
        true
    }

    open spec fn mul_req(self, rhs: i32) -> bool {
        fits_i32(self.x * rhs) && fits_i32(self.y * rhs)
    }

    open spec fn mul_spec(self, rhs: i32) -> Vec2 {
        Vec2 { x: (self.x * rhs) as i32, y: (self.y * rhs) as i32 }
    }
}

} // verus!
