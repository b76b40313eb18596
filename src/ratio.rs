//! Fitting a box to a fixed aspect ratio.

use vstd::prelude::*;
use vstd::arithmetic::div_mod::lemma_fundamental_div_mod;

verus! {

/// Largest side that `AspectRatio::size` accepts: sixteen times it, plus a
/// divisor, fits an `i64`. Every box that the layouts make of an area of at
/// most `MAX_EXTENT` a side lies below it, so it can be resolved again.
pub const MAX_SCREEN: i64 = 576_460_752_303_423_487;

/// `a / b` rounded up.
pub open spec fn ceil_div(a: int, b: int) -> int {
    (a + b - 1) / b
}

/// The box that a ratio `n : d` makes of the available `(w, h)`.
///
/// On a landscape area the height is kept and the width derived from it when
/// `h < w * n / d`, else the width is kept; on a portrait or square area the
/// width is kept when `w < h * n / d`, else the height. A derived side is
/// rounded up, so that resolving the result once more gives it back.
pub open spec fn fit_ratio(w: int, h: int, n: int, d: int) -> (int, int) {
    if w > h {
        if h * d < w * n {
            (ceil_div(h * n, d), h)
        } else {
            (w, ceil_div(w * n, d))
        }
    } else {
        if w * d < h * n {
            (w, ceil_div(w * n, d))
        } else {
            (ceil_div(h * n, d), h)
        }
    }
}

/// A fixed width-to-height ratio.
#[derive(Clone, Copy, Debug, PartialEq, Eq, Structural)]
pub enum AspectRatio {
    OneOne,
    TwoThree,
    FourFive,
    FiveSeven,
    SixteenNine,
}

impl Default for AspectRatio {
    fn default() -> (r: Self)
        ensures
            r == AspectRatio::SixteenNine,
    {
        AspectRatio::SixteenNine
    }
}

impl AspectRatio {
    pub open spec fn numerator(self) -> int {
        match self {
            AspectRatio::OneOne => 1,
            AspectRatio::TwoThree => 2,
            AspectRatio::FourFive => 4,
            AspectRatio::FiveSeven => 5,
            AspectRatio::SixteenNine => 16,
        }
    }

    pub open spec fn denominator(self) -> int {
        match self {
            AspectRatio::OneOne => 1,
            AspectRatio::TwoThree => 3,
            AspectRatio::FourFive => 5,
            AspectRatio::FiveSeven => 7,
            AspectRatio::SixteenNine => 9,
        }
    }

    pub open spec fn size_spec(self, size: (int, int)) -> (int, int) {
        fit_ratio(size.0, size.1, self.numerator(), self.denominator())
    }

    /// The ratio as (numerator, denominator).
    pub fn parts(&self) -> (r: (i64, i64))
        ensures
            r.0 == self.numerator(),
            r.1 == self.denominator(),
    {
        match self {
            AspectRatio::OneOne => (1, 1),
            AspectRatio::TwoThree => (2, 3),
            AspectRatio::FourFive => (4, 5),
            AspectRatio::FiveSeven => (5, 7),
            AspectRatio::SixteenNine => (16, 9),
        }
    }

    /// The box that this ratio makes of the available `screen_size`.
    pub fn size(&self, screen_size: (i64, i64)) -> (r: (i64, i64))
        requires
            0 <= screen_size.0 <= MAX_SCREEN,
            0 <= screen_size.1 <= MAX_SCREEN,
        ensures
            (r.0 as int, r.1 as int) == self.size_spec((screen_size.0 as int, screen_size.1 as int)),
            0 <= r.0 <= 2 * (if screen_size.0 > screen_size.1 { screen_size.0 } else { screen_size.1 }),
            0 <= r.1 <= 2 * (if screen_size.0 > screen_size.1 { screen_size.0 } else { screen_size.1 }),
    {
        proof {
            lemma_size_bounded(*self, screen_size.0 as int, screen_size.1 as int);
        }
        let (w, h) = screen_size;
        let (n, d) = self.parts();
        assert(0 <= w * n <= MAX_SCREEN * 16) by (nonlinear_arith)
            requires 0 <= w <= MAX_SCREEN, 1 <= n <= 16;
        assert(0 <= h * n <= MAX_SCREEN * 16) by (nonlinear_arith)
            requires 0 <= h <= MAX_SCREEN, 1 <= n <= 16;
        assert(0 <= w * d <= MAX_SCREEN * 16) by (nonlinear_arith)
            requires 0 <= w <= MAX_SCREEN, 1 <= d <= 9;
        assert(0 <= h * d <= MAX_SCREEN * 16) by (nonlinear_arith)
            requires 0 <= h <= MAX_SCREEN, 1 <= d <= 9;
        if w > h {
            if h * d < w * n {
                ((h * n + d - 1) / d, h)
            } else {
                (w, (w * n + d - 1) / d)
            }
        } else {
            if w * d < h * n {
                (w, (w * n + d - 1) / d)
            } else {
                ((h * n + d - 1) / d, h)
            }
        }
    }
}

/// `ceil_div(a, d)` is the least multiple count of `d` that reaches `a`.
proof fn lemma_ceil_div(a: int, d: int)
    requires
        0 <= a,
        0 < d,
    ensures
        a <= ceil_div(a, d) * d < a + d,
        0 <= ceil_div(a, d),
{
    lemma_fundamental_div_mod(a + d - 1, d);
    let q = (a + d - 1) / d;
    let r = (a + d - 1) % d;
    assert(q * d == d * q) by (nonlinear_arith);
    assert(0 <= q) by (nonlinear_arith)
        requires a + d - 1 == d * q + r, 0 <= r < d, 0 <= a;
}

/// A side derived by rounding up exceeds the side it came from only for a
/// ratio above one.
proof fn lemma_derived_exceeds(x: int, n: int, d: int)
    requires
        0 <= x,
        0 < n,
        0 < d,
        ceil_div(x * n, d) > x,
    ensures
        n > d,
        x > 0,
{
    lemma_ceil_div(x * n, d);
    let c = ceil_div(x * n, d);
    assert(n > d && x > 0) by (nonlinear_arith)
        requires c >= x + 1, c * d < x * n + d, 0 <= x, 0 < n, 0 < d;
}

/// The box made of a box that this ratio made is the same box.
proof fn lemma_fit_ratio_idempotent(w: int, h: int, n: int, d: int)
    requires
        0 <= w,
        0 <= h,
        0 < n,
        0 < d,
    ensures
        fit_ratio(fit_ratio(w, h, n, d).0, fit_ratio(w, h, n, d).1, n, d) == fit_ratio(w, h, n, d),
{
    lemma_ceil_div(h * n, d);
    lemma_ceil_div(w * n, d);
    assert(0 <= h * n && 0 <= w * n) by (nonlinear_arith)
        requires 0 <= w, 0 <= h, 0 < n;
    let r = fit_ratio(w, h, n, d);
    if w > h && h * d < w * n {
        let a = ceil_div(h * n, d);
        if a > h {
            lemma_derived_exceeds(h, n, d);
            assert(a * n > h * n) by (nonlinear_arith)
                requires a > h, n > 0;
            assert(h * n > h * d) by (nonlinear_arith)
                requires n > d, h > 0;
        } else {
            assert(!(a * d < h * n));
        }
    } else if w > h {
        let c = ceil_div(w * n, d);
        assert(n < d) by (nonlinear_arith)
            requires w > h, h * d >= w * n, 0 <= h, 0 < d;
        assert(c <= w) by (nonlinear_arith)
            requires c * d < w * n + d, n < d, 0 < d, 0 <= w;
        if w > c {
            assert(!(c * d < w * n));
        } else {
            assert(c == w);
            assert(!(w * d < c * n)) by (nonlinear_arith)
                requires c == w, n < d, 0 <= w;
        }
    } else if w * d < h * n {
        let b = ceil_div(w * n, d);
        if w > b {
            assert(!(b * d < w * n));
        } else if w == 0 {
            assert(b == 0) by (nonlinear_arith)
                requires b * d < w * n + d, 0 <= b, w == 0, 0 < d;
            assert(ceil_div(0, d) == 0) by (nonlinear_arith)
                requires 0 < d;
        } else if n > d {
            assert(w * d < b * n) by (nonlinear_arith)
                requires w <= b, n > d, w > 0, 0 < d;
        } else {
            assert(b <= w) by (nonlinear_arith)
                requires b * d < w * n + d, n <= d, 0 < d, 0 <= w;
            assert(b == w);
            assert(!(w * d < b * n)) by (nonlinear_arith)
                requires b == w, n <= d, 0 <= w;
            lemma_ceil_div(b * n, d);
        }
    } else {
        let e = ceil_div(h * n, d);
        if e > h {
            lemma_derived_exceeds(h, n, d);
            assert(e * n > h * n) by (nonlinear_arith)
                requires e > h, n > 0;
            assert(h * n > h * d) by (nonlinear_arith)
                requires n > d, h > 0;
        } else {
            assert(!(e * d < h * n));
        }
    }
}

/// Resolving a box that this ratio already resolved gives it back unchanged:
/// `size(size(x)) == size(x)`.
pub proof fn lemma_size_idempotent(ratio: AspectRatio, w: int, h: int)
    requires
        0 <= w,
        0 <= h,
    ensures
        ratio.size_spec(ratio.size_spec((w, h))) == ratio.size_spec((w, h)),
{
    lemma_fit_ratio_idempotent(w, h, ratio.numerator(), ratio.denominator());
}

/// Where the available box leaves room for the ratio (a square ratio; no
/// width; or `w / h >= n / d` with the box taken on the branch that keeps the
/// height), the result keeps the ratio up to the rounding of one unit,
/// `0 <= r.w * d - r.h * n < d`, and fits: `r.w <= w`, `r.h <= h`.
pub proof fn lemma_size_keeps_ratio(ratio: AspectRatio, w: int, h: int)
    requires
        0 <= w,
        0 <= h,
        ({
            let n = ratio.numerator();
            let d = ratio.denominator();
            n == d || w == 0 || (h * n <= w * d && (w <= h || h * d < w * n))
        }),
    ensures
        ({
            let r = ratio.size_spec((w, h));
            let n = ratio.numerator();
            let d = ratio.denominator();
            &&& 0 <= r.0 * d - r.1 * n < d
            &&& r.0 <= w
            &&& r.1 <= h
        }),
{
    let n = ratio.numerator();
    let d = ratio.denominator();
    lemma_ceil_div(h * n, d);
    lemma_ceil_div(w * n, d);
    assert(0 <= h * n && 0 <= w * n) by (nonlinear_arith)
        requires 0 <= w, 0 <= h, 0 < n;
    if n == d {
        assert(h * n == h * d && w * n == w * d);
        assert(ceil_div(h * n, d) == h) by (nonlinear_arith)
            requires h * d <= ceil_div(h * n, d) * d < h * d + d, h * n == h * d, 0 < d;
        assert(ceil_div(w * n, d) == w) by (nonlinear_arith)
            requires w * d <= ceil_div(w * n, d) * d < w * d + d, w * n == w * d, 0 < d;
    } else if w == 0 {
        if h * n <= 0 {
            assert(h == 0) by (nonlinear_arith)
                requires h * n <= 0, 0 <= h, 0 < n;
            assert(ceil_div(0, d) == 0) by (nonlinear_arith)
                requires 0 < d;
        } else {
            assert(ceil_div(0, d) == 0) by (nonlinear_arith)
                requires 0 < d;
        }
    } else {
        let c = ceil_div(h * n, d);
        assert(c <= w) by (nonlinear_arith)
            requires c * d < h * n + d, h * n <= w * d, 0 < d;
    }
}

/// No side of a resolved box exceeds twice the larger available side.
proof fn lemma_size_bounded(ratio: AspectRatio, w: int, h: int)
    requires
        0 <= w,
        0 <= h,
    ensures
        0 <= ratio.size_spec((w, h)).0 <= 2 * (if w > h { w } else { h }),
        0 <= ratio.size_spec((w, h)).1 <= 2 * (if w > h { w } else { h }),
{
    let n = ratio.numerator();
    let d = ratio.denominator();
    assert(0 <= h * n && 0 <= w * n) by (nonlinear_arith)
        requires 0 <= w, 0 <= h, 0 < n;
    lemma_ceil_div(h * n, d);
    lemma_ceil_div(w * n, d);
    let ch = ceil_div(h * n, d);
    let cw = ceil_div(w * n, d);
    assert(ch <= 2 * h) by (nonlinear_arith)
        requires ch * d < h * n + d, n <= 2 * d, 0 < d, 0 <= h;
    assert(cw <= 2 * w) by (nonlinear_arith)
        requires cw * d < w * n + d, n <= 2 * d, 0 < d, 0 <= w;
}

} // verus!
