//! Plain value types of the layout protocol: constraint boxes, resolved
//! sizes and screen rectangles on a character grid.
use vstd::prelude::*;

verus! {

/// `max(lo, min(v, hi))`: the value of `v` forced into `[lo, hi]`; when
/// `lo > hi` the lower end wins.
pub open spec fn clamp_spec(v: int, lo: int, hi: int) -> int {
    let lowered = if v > hi { hi } else { v };
    if lowered < lo { lo } else { lowered }
}

/// Forces `v` into `[lo, hi]` as `max(lo, min(v, hi))`; when `lo > hi` the
/// lower end wins.
pub fn clamp_u16(v: u16, lo: u16, hi: u16) -> (r: u16)
    ensures
        r == clamp_spec(v as int, lo as int, hi as int),
        lo <= r,
        lo <= hi ==> r <= hi,
{
    let lowered: u16 = if v > hi { hi } else { v };
    if lowered < lo { lo } else { lowered }
}

/// A resolved width and height, in grid cells.
#[derive(Clone, Copy, Debug, PartialEq, Eq, Structural)]
pub struct Size {
    pub width: u16,
    pub height: u16,
}

/// Constraints that a parent hands down to a child: the child's size must
/// lie within `[min_width, max_width] x [min_height, max_height]`.
#[derive(Clone, Copy, Debug, PartialEq, Eq, Structural)]
pub struct Bounds {
    pub min_width: u16,
    pub max_width: u16,
    pub min_height: u16,
    pub max_height: u16,
}

impl Size {
    pub fn new(width: u16, height: u16) -> (r: Size)
        ensures
            r.width == width,
            r.height == height,
    {
        Size { width, height }
    }

    /// `self` satisfies every constraint of `b`.
    pub open spec fn fits(self, b: Bounds) -> bool {
        &&& b.min_width <= self.width <= b.max_width
        &&& b.min_height <= self.height <= b.max_height
    }
}

impl Bounds {
    /// Well-formed bounds: on each axis the minimum does not exceed the maximum.
    pub open spec fn wf(self) -> bool {
        self.min_width <= self.max_width && self.min_height <= self.max_height
    }

    /// The size that `constrain` gives for `s`.
    pub open spec fn constrain_spec(self, s: Size) -> Size {
        Size {
            width: clamp_spec(s.width as int, self.min_width as int, self.max_width as int) as u16,
            height: clamp_spec(s.height as int, self.min_height as int, self.max_height as int) as u16,
        }
    }

    pub fn new(min_width: u16, max_width: u16, min_height: u16, max_height: u16) -> (r: Bounds)
        ensures
            r == (Bounds { min_width, max_width, min_height, max_height }),
    {
        Bounds { min_width, max_width, min_height, max_height }
    }

    /// Bounds that admit exactly one size.
    pub fn tight(s: Size) -> (r: Bounds)
        ensures
            r == (Bounds { min_width: s.width, max_width: s.width, min_height: s.height, max_height: s.height }),
            r.wf(),
    {
        Bounds { min_width: s.width, max_width: s.width, min_height: s.height, max_height: s.height }
    }

    /// Bounds that admit every size up to `max`.
    pub fn loose(max: Size) -> (r: Bounds)
        ensures
            r == (Bounds { min_width: 0, max_width: max.width, min_height: 0, max_height: max.height }),
            r.wf(),
    {
        Bounds { min_width: 0, max_width: max.width, min_height: 0, max_height: max.height }
    }

    /// Whether `s` satisfies every constraint of `self`.
    pub fn is_satisfied_by(&self, s: Size) -> (r: bool)
        ensures
            r == s.fits(*self),
    {
        self.min_width <= s.width && s.width <= self.max_width && self.min_height <= s.height
            && s.height <= self.max_height
    }

    /// The size nearest to `s` on each axis that satisfies `self`. On
    /// malformed bounds (a minimum above its maximum) the minimum wins.
    pub fn constrain(&self, s: Size) -> (r: Size)
        ensures
            r == self.constrain_spec(s),
            self.wf() ==> r.fits(*self),
            s.fits(*self) ==> r == s,
    {
        Size {
            width: clamp_u16(s.width, self.min_width, self.max_width),
            height: clamp_u16(s.height, self.min_height, self.max_height),
        }
    }
}

/// A region of the grid: top-left corner and extent, in cells.
#[derive(Clone, Copy, Debug, PartialEq, Eq, Structural)]
pub struct Rect {
    pub x: u16,
    pub y: u16,
    pub width: u16,
    pub height: u16,
}

impl Rect {
    /// The region ends inside the grid's coordinate range.
    pub open spec fn wf(self) -> bool {
        self.x + self.width <= u16::MAX && self.y + self.height <= u16::MAX
    }

    /// The region covers no cell.
    pub open spec fn is_empty_spec(self) -> bool {
        self.width == 0 || self.height == 0
    }

    /// Every cell of `self` is a cell of `outer`.
    pub open spec fn inside(self, outer: Rect) -> bool {
        &&& outer.x <= self.x
        &&& self.x + self.width <= outer.x + outer.width
        &&& outer.y <= self.y
        &&& self.y + self.height <= outer.y + outer.height
    }

    pub fn new(x: u16, y: u16, width: u16, height: u16) -> (r: Rect)
        ensures
            r == (Rect { x, y, width, height }),
    {
        Rect { x, y, width, height }
    }

    /// Whether the region covers no cell.
    pub fn is_empty(&self) -> (r: bool)
        ensures
            r == self.is_empty_spec(),
    {
        self.width == 0 || self.height == 0
    }

    /// The part of `self` covered by a box of size `s` whose corner lies at
    /// offset `(dx, dy)` from the corner of `self`.
    pub open spec fn sub_region_spec(self, dx: u16, dy: u16, s: Size) -> Rect {
        if dx >= self.width || dy >= self.height {
            Rect { x: self.x, y: self.y, width: 0, height: 0 }
        } else {
            Rect {
                x: (self.x + dx) as u16,
                y: (self.y + dy) as u16,
                width: if s.width <= self.width - dx { s.width } else { (self.width - dx) as u16 },
                height: if s.height <= self.height - dy { s.height } else { (self.height - dy) as u16 },
            }
        }
    }

    /// The part of `self` covered by a box of size `s` at offset `(dx, dy)`;
    /// what would fall outside `self` is cut off.
    pub fn sub_region(&self, dx: u16, dy: u16, s: Size) -> (r: Rect)
        requires
            self.wf(),
        ensures
            r == self.sub_region_spec(dx, dy, s),
            r.wf(),
            r.inside(*self),
    {
        if dx >= self.width || dy >= self.height {
            Rect { x: self.x, y: self.y, width: 0, height: 0 }
        } else {
            let w: u16 = if s.width <= self.width - dx { s.width } else { self.width - dx };
            let h: u16 = if s.height <= self.height - dy { s.height } else { self.height - dy };
            Rect { x: self.x + dx, y: self.y + dy, width: w, height: h }
        }
    }
}

} // verus!
