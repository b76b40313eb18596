//! One- and two-dimensional placement primitives: offsets, size requests,
//! padding and resolved areas.

use vstd::prelude::*;

verus! {

/// Board units per pixel.
pub const UNITS_PER_PIXEL: i64 = 100;

/// Largest length that the layouts accept for a size, a spacing or a padding.
pub const MAX_EXTENT: i64 = 1_099_511_627_776;

/// Symbolic one-dimensional placement rule.
#[derive(Clone, Copy, Debug, PartialEq, Eq, Structural)]
pub enum Offset {
    Start,
    Center,
    End,
    Static(i64),
}

impl Offset {
    /// Coordinate of a child of extent `used` placed in `available`.
    pub open spec fn resolve_spec(self, available: int, used: int) -> int {
        match self {
            Offset::Start => 0,
            Offset::Center => (available - used) / 2,
            Offset::End => available - used,
            Offset::Static(v) => v as int,
        }
    }

    /// Resolves the rule; no clamping: the result may lie outside `available`.
    pub fn resolve(&self, available: i64, used: i64) -> (r: i64)
        requires
            i64::MIN <= available - used <= i64::MAX,
        ensures
            r == self.resolve_spec(available as int, used as int),
    {
        match self {
            Offset::Start => 0,
            Offset::Center => {
                let d = available - used;
                if d >= 0 {
                    d / 2
                } else {
                    let m = -(d + 1);
                    -(m / 2) - 1
                }
            },
            Offset::End => available - used,
            Offset::Static(v) => *v,
        }
    }
}

/// The value `v` brought into `[lo, hi]` (`hi` wins where `lo > hi`).
pub open spec fn clamp(v: int, lo: int, hi: int) -> int {
    if v < lo {
        if lo < hi { lo } else { hi }
    } else if v > hi {
        hi
    } else {
        v
    }
}

/// Minimum and maximum width and height that a component accepts.
#[derive(Clone, Copy, Debug, PartialEq, Eq, Structural)]
pub struct SizeRequest {
    pub min_width: i64,
    pub min_height: i64,
    pub max_width: i64,
    pub max_height: i64,
}

impl SizeRequest {
    /// Non-negative ranges with `min <= max` on each axis.
    pub open spec fn is_valid(self) -> bool {
        &&& 0 <= self.min_width <= self.max_width
        &&& 0 <= self.min_height <= self.max_height
    }

    /// Every bound is at most `MAX_EXTENT`.
    pub open spec fn is_bounded(self) -> bool {
        self.is_valid() && self.max_width <= MAX_EXTENT && self.max_height <= MAX_EXTENT
    }

    /// The size that the request takes inside `size`, axis by axis.
    pub open spec fn get_spec(self, size: (int, int)) -> (int, int) {
        (
            clamp(size.0, self.min_width as int, self.max_width as int),
            clamp(size.1, self.min_height as int, self.max_height as int),
        )
    }

    pub fn new(min_width: i64, min_height: i64, max_width: i64, max_height: i64) -> (r: Self)
        ensures
            r == (SizeRequest { min_width, min_height, max_width, max_height }),
    {
        SizeRequest { min_width, min_height, max_width, max_height }
    }

    pub open spec fn fixed_spec(size: (i64, i64)) -> SizeRequest {
        SizeRequest { min_width: size.0, min_height: size.1, max_width: size.0, max_height: size.1 }
    }

    /// A request for exactly `size`.
    pub fn fixed(size: (i64, i64)) -> (r: Self)
        ensures
            r == Self::fixed_spec(size),
    {
        SizeRequest { min_width: size.0, min_height: size.1, max_width: size.0, max_height: size.1 }
    }

    pub open spec fn fill_spec() -> SizeRequest {
        SizeRequest { min_width: 0, min_height: 0, max_width: MAX_EXTENT, max_height: MAX_EXTENT }
    }

    /// A request that takes whatever it is given, up to `MAX_EXTENT`.
    pub fn fill() -> (r: Self)
        ensures
            r == Self::fill_spec(),
    {
        SizeRequest { min_width: 0, min_height: 0, max_width: MAX_EXTENT, max_height: MAX_EXTENT }
    }

    pub fn min_width(&self) -> (r: i64)
        ensures
            r == self.min_width,
    {
        self.min_width
    }

    pub fn min_height(&self) -> (r: i64)
        ensures
            r == self.min_height,
    {
        self.min_height
    }

    pub fn max_width(&self) -> (r: i64)
        ensures
            r == self.max_width,
    {
        self.max_width
    }

    pub fn max_height(&self) -> (r: i64)
        ensures
            r == self.max_height,
    {
        self.max_height
    }

    /// The request widened by `w` and heightened by `h` on both bounds.
    pub fn add(&self, w: i64, h: i64) -> (r: Self)
        requires
            self.is_valid(),
            0 <= w,
            0 <= h,
            self.max_width + w <= i64::MAX,
            self.max_height + h <= i64::MAX,
        ensures
            r == (SizeRequest {
                min_width: (self.min_width + w) as i64,
                min_height: (self.min_height + h) as i64,
                max_width: (self.max_width + w) as i64,
                max_height: (self.max_height + h) as i64,
            }),
            r.is_valid(),
    {
        SizeRequest {
            min_width: self.min_width + w,
            min_height: self.min_height + h,
            max_width: self.max_width + w,
            max_height: self.max_height + h,
        }
    }

    /// Clamps `size` into the request's ranges.
    pub fn get(&self, size: (i64, i64)) -> (r: (i64, i64))
        ensures
            (r.0 as int, r.1 as int) == self.get_spec((size.0 as int, size.1 as int)),
    {
        (clamp_i64(size.0, self.min_width, self.max_width), clamp_i64(size.1, self.min_height, self.max_height))
    }
}

fn clamp_i64(v: i64, lo: i64, hi: i64) -> (r: i64)
    ensures
        r == clamp(v as int, lo as int, hi as int),
{
    if v < lo {
        if lo < hi { lo } else { hi }
    } else if v > hi {
        hi
    } else {
        v
    }
}

/// A resolved rectangle: its top-left corner and its size.
#[derive(Clone, Copy, Debug, PartialEq, Eq)]
pub struct Area {
    pub offset: (i64, i64),
    pub size: (i64, i64),
}

/// Space kept free around a component: left, top, right, bottom.
#[derive(Clone, Copy, Debug, PartialEq, Eq, Structural)]
pub struct Padding(pub i64, pub i64, pub i64, pub i64);

impl Default for Padding {
    /// No padding.
    fn default() -> (r: Self)
        ensures
            r == Padding(0, 0, 0, 0),
    {
        Padding(0, 0, 0, 0)
    }
}

impl Padding {
    /// Each side lies in `[0, MAX_EXTENT / 2]`.
    pub open spec fn is_bounded(self) -> bool {
        &&& 0 <= self.0 <= MAX_EXTENT / 2
        &&& 0 <= self.1 <= MAX_EXTENT / 2
        &&& 0 <= self.2 <= MAX_EXTENT / 2
        &&& 0 <= self.3 <= MAX_EXTENT / 2
    }

    /// The same padding on every side.
    pub fn new(p: i64) -> (r: Self)
        ensures
            r == Padding(p, p, p, p),
    {
        Padding(p, p, p, p)
    }

    /// The request of the padded content grown by the padding.
    pub fn adjust_request(&self, request: SizeRequest) -> (r: SizeRequest)
        requires
            self.is_bounded(),
            request.is_valid(),
            request.max_width + MAX_EXTENT <= i64::MAX,
            request.max_height + MAX_EXTENT <= i64::MAX,
        ensures
            r == (SizeRequest {
                min_width: (request.min_width + self.0 + self.2) as i64,
                min_height: (request.min_height + self.1 + self.3) as i64,
                max_width: (request.max_width + self.0 + self.2) as i64,
                max_height: (request.max_height + self.1 + self.3) as i64,
            }),
            r.is_valid(),
    {
        request.add(self.0 + self.2, self.1 + self.3)
    }

    /// The size left inside `size` once the padding is taken off.
    pub fn adjust_size(&self, size: (i64, i64)) -> (r: (i64, i64))
        requires
            self.is_bounded(),
            0 <= size.0 <= MAX_EXTENT,
            0 <= size.1 <= MAX_EXTENT,
        ensures
            r == ((size.0 - self.0 - self.2) as i64, (size.1 - self.1 - self.3) as i64),
    {
        (size.0 - self.0 - self.2, size.1 - self.1 - self.3)
    }

    /// An offset inside the padded content moved past the left and top padding.
    pub fn adjust_offset(&self, offset: (i64, i64)) -> (r: (i64, i64))
        requires
            self.is_bounded(),
            i64::MIN + MAX_EXTENT <= offset.0 <= i64::MAX - MAX_EXTENT,
            i64::MIN + MAX_EXTENT <= offset.1 <= i64::MAX - MAX_EXTENT,
        ensures
            r == ((offset.0 + self.0) as i64, (offset.1 + self.1) as i64),
    {
        (offset.0 + self.0, offset.1 + self.1)
    }
}

} // verus!
