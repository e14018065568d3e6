//! Rectangles with 31-bit-bounded dimensions.
//!
//! A [`Rect`] is a non-empty axis-aligned rectangle with `i32` position and a
//! width and height that each fit in 31 bits, matching the coordinate range
//! of the surface operations built on top of it.

use vstd::prelude::*;

verus! {

/// Exclusive upper bound for a rectangle's width and height.
pub const DIMENSION_LIMIT: u32 = 0x8000_0000u32;

/// A non-empty rectangle: position `(x, y)`, extent `width x height`.
#[derive(Clone, Copy, Debug, PartialEq, Eq, Structural)]
pub struct Rect {
    pub x: i32,
    pub y: i32,
    pub width: u32,
    pub height: u32,
}

impl Rect {
    /// A rectangle is well formed when both dimensions are non-zero and
    /// fit in 31 bits.
    pub open spec fn wf(self) -> bool {
        1 <= self.width < DIMENSION_LIMIT && 1 <= self.height < DIMENSION_LIMIT
    }

    /// The point `(px, py)` lies inside `self`.
    pub open spec fn contains_point(self, px: int, py: int) -> bool {
        self.x <= px < self.x + self.width && self.y <= py < self.y + self.height
    }

    /// Every point of `self` has both coordinates representable as `i32`;
    /// rectangles violating this are rejected by the surface operations.
    pub open spec fn fits(self) -> bool {
        self.x + self.width <= 0x8000_0000 && self.y + self.height <= 0x8000_0000
    }

    /// Builds a rectangle; rejects empty or oversized dimensions.
    pub fn new(x: i32, y: i32, width: u32, height: u32) -> (r: Result<Rect, String>)
        ensures
            match r {
                Ok(rect) => {
                    &&& rect == (Rect { x, y, width, height })
                    &&& rect.wf()
                },
                Err(e) => {
                    &&& width == 0 || height == 0 || width >= DIMENSION_LIMIT
                        || height >= DIMENSION_LIMIT
                    &&& (width == 0 || height == 0) ==> e@ == "Rect has no area"@
                    &&& !(width == 0 || height == 0) ==> e@ == "Rect is too large"@
                },
            },
    {
        if width == 0 || height == 0 {
            Err("Rect has no area".to_string())
        } else if width >= DIMENSION_LIMIT || height >= DIMENSION_LIMIT {
            Err("Rect is too large".to_string())
        } else {
            Ok(Rect { x, y, width, height })
        }
    }

    /// Builds a rectangle directly from parts known to be in range.
    pub fn new_unchecked(x: i32, y: i32, width: u32, height: u32) -> (r: Rect)
        requires
            1 <= width < DIMENSION_LIMIT,
            1 <= height < DIMENSION_LIMIT,
        ensures
            r == (Rect { x, y, width, height }),
    {
        Rect { x, y, width, height }
    }

    pub fn x(&self) -> (r: i32)
        ensures
            r == self.x,
    {
        self.x
    }

    pub fn y(&self) -> (r: i32)
        ensures
            r == self.y,
    {
        self.y
    }

    pub fn width(&self) -> (r: u32)
        ensures
            r == self.width,
    {
        self.width
    }

    pub fn height(&self) -> (r: u32)
        ensures
            r == self.height,
    {
        self.height
    }

    /// The intersection of two rectangles as a value: `None` when the
    /// overlap is empty.
    pub open spec fn spec_intersection(a: Rect, b: Rect) -> Option<Rect> {
        let left: int = if a.x >= b.x { a.x as int } else { b.x as int };
        let top: int = if a.y >= b.y { a.y as int } else { b.y as int };
        let a_right: int = a.x + a.width;
        let b_right: int = b.x + b.width;
        let right: int = if a_right <= b_right { a_right } else { b_right };
        let a_bottom: int = a.y + a.height;
        let b_bottom: int = b.y + b.height;
        let bottom: int = if a_bottom <= b_bottom { a_bottom } else { b_bottom };
        if left < right && top < bottom {
            Some(Rect {
                x: left as i32,
                y: top as i32,
                width: (right - left) as u32,
                height: (bottom - top) as u32,
            })
        } else {
            None
        }
    }

    /// Exact intersection of two rectangles: the result contains a point
    /// if and only if both inputs do, and `None` means the overlap is empty.
    pub fn intersection(&self, other: &Rect) -> (r: Option<Rect>)
        requires
            self.wf(),
            other.wf(),
        ensures
            r == Rect::spec_intersection(*self, *other),
            match r {
                Some(i) => {
                    &&& i.wf()
                    &&& i.x == if self.x >= other.x { self.x } else { other.x }
                    &&& i.y == if self.y >= other.y { self.y } else { other.y }
                    &&& forall|px: int, py: int|
                        i.contains_point(px, py) <==> (self.contains_point(px, py)
                            && other.contains_point(px, py))
                },
                None => forall|px: int, py: int|
                    !(self.contains_point(px, py) && other.contains_point(px, py)),
            },
    {
        let left: i64 = if self.x >= other.x { self.x as i64 } else { other.x as i64 };
        let top: i64 = if self.y >= other.y { self.y as i64 } else { other.y as i64 };
        let self_right: i64 = self.x as i64 + self.width as i64;
        let other_right: i64 = other.x as i64 + other.width as i64;
        let right: i64 = if self_right <= other_right { self_right } else { other_right };
        let self_bottom: i64 = self.y as i64 + self.height as i64;
        let other_bottom: i64 = other.y as i64 + other.height as i64;
        let bottom: i64 = if self_bottom <= other_bottom { self_bottom } else { other_bottom };
        if left < right && top < bottom {
            Some(Rect {
                x: left as i32,
                y: top as i32,
                width: (right - left) as u32,
                height: (bottom - top) as u32,
            })
        } else {
            None
        }
    }
}

} // verus!
