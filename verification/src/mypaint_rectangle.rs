use vstd::prelude::*;

verus! {

/// An axis-aligned rectangle of pixels: the columns `x .. x + width` and the
/// rows `y .. y + height`. A rectangle with a zero width or height is empty.
#[derive(Debug, Copy, Clone, PartialEq, Eq)]
pub struct MyPaintRectangle {
    pub x: i32,
    pub y: i32,
    pub width: i32,
    pub height: i32,
}

/// The rectangle has no area.
pub open spec fn rect_is_empty(r: MyPaintRectangle) -> bool {
    r.width == 0 || r.height == 0
}

/// The pixel `(px, py)` lies inside the rectangle.
pub open spec fn rect_contains(r: MyPaintRectangle, px: int, py: int) -> bool {
    &&& r.x <= px < r.x + r.width
    &&& r.y <= py < r.y + r.height
}

/// The new `(start, extent)` along one axis after growing the span
/// `start .. start + extent` so that it reaches the coordinate `p`.
pub open spec fn grow_span(start: int, extent: int, p: int) -> (int, int) {
    if p < start {
        (p, extent + (start - p))
    } else if p >= start + extent {
        (start, p - start + 1)
    } else {
        (start, extent)
    }
}

/// Growing one axis stays within `i32` for every intermediate value that the
/// computation forms.
pub open spec fn grow_span_fits(start: int, extent: int, p: int) -> bool {
    if p < start {
        &&& start - p <= i32::MAX
        &&& extent + (start - p) <= i32::MAX
        &&& extent + (start - p) >= i32::MIN
    } else {
        &&& i32::MIN <= start + extent <= i32::MAX
        &&& (p >= start + extent ==> p - start + 1 <= i32::MAX)
    }
}

/// `expand_to_include(x, y)` can run on `r` without an `i32` overflow.
pub open spec fn expand_fits(r: MyPaintRectangle, x: int, y: int) -> bool {
    rect_is_empty(r) || (grow_span_fits(r.x as int, r.width as int, x)
        && grow_span_fits(r.y as int, r.height as int, y))
}

/// The rectangle that `expand_to_include(x, y)` turns `r` into.
pub open spec fn expanded(r: MyPaintRectangle, x: int, y: int) -> (int, int, int, int) {
    if rect_is_empty(r) {
        (x, y, 1, 1)
    } else {
        let (nx, nw) = grow_span(r.x as int, r.width as int, x);
        let (ny, nh) = grow_span(r.y as int, r.height as int, y);
        (nx, ny, nw, nh)
    }
}

pub open spec fn rect_tuple(r: MyPaintRectangle) -> (int, int, int, int) {
    (r.x as int, r.y as int, r.width as int, r.height as int)
}

impl MyPaintRectangle {
    /// Grows the rectangle just enough to cover the pixel `(x, y)`; an empty
    /// rectangle becomes the single pixel.
    pub fn expand_to_include(&mut self, x: i32, y: i32)
        requires
            expand_fits(*old(self), x as int, y as int),
        ensures
            rect_tuple(*final(self)) == expanded(*old(self), x as int, y as int),
    {
        if self.width == 0 || self.height == 0 {
            self.width = 1;
            self.height = 1;
            self.x = x;
            self.y = y;
        } else {
            if x < self.x {
                self.width += self.x - x;
                self.x = x;
            } else if x >= self.x + self.width {
                self.width = x - self.x + 1;
            }
            if y < self.y {
                self.height += self.y - y;
                self.y = y;
            } else if y >= self.y + self.height {
                self.height = y - self.y + 1;
            }
        }
    }
}

/// `grow_span_fits` in executable form, computed in `i64`.
fn grow_span_fits_exec(start: i32, extent: i32, p: i32) -> (ok: bool)
    ensures
        ok == grow_span_fits(start as int, extent as int, p as int),
{
    let start = start as i64;
    let extent = extent as i64;
    let p = p as i64;
    let max = i32::MAX as i64;
    let min = i32::MIN as i64;
    if p < start {
        start - p <= max && extent + (start - p) <= max && extent + (start - p) >= min
    } else {
        min <= start + extent && start + extent <= max && (p < start + extent || p - start + 1
            <= max)
    }
}

/// `expand_to_include(x, y)` can run on `r` without an `i32` overflow.
pub fn mypaint_rectangle_expand_fits(r: &MyPaintRectangle, x: i32, y: i32) -> (ok: bool)
    ensures
        ok == expand_fits(*r, x as int, y as int),
{
    r.width == 0 || r.height == 0 || (grow_span_fits_exec(r.x, r.width, x) && grow_span_fits_exec(
        r.y,
        r.height,
        y,
    ))
}

/// Grows the rectangle behind `self_` to cover the pixel `(x, y)`.
pub fn mypaint_rectangle_expand_to_include_point(self_: &mut MyPaintRectangle, x: i32, y: i32)
    requires
        expand_fits(*old(self_), x as int, y as int),
    ensures
        rect_tuple(*final(self_)) == expanded(*old(self_), x as int, y as int),
{
    self_.expand_to_include(x, y);
}

/// Growing a rectangle whose width and height are not negative gives the
/// bounding box of the old rectangle and the new pixel: the smallest
/// rectangle that holds both.
pub proof fn lemma_expand_is_bounding_box(r: MyPaintRectangle, x: int, y: int)
    requires
        r.width >= 0,
        r.height >= 0,
    ensures
        ({
            let (nx, ny, nw, nh) = expanded(r, x, y);
            if rect_is_empty(r) {
                nx == x && ny == y && nw == 1 && nh == 1
            } else {
                &&& nx == if x < r.x { x } else { r.x as int }
                &&& nx + nw == if x + 1 > r.x + r.width { x + 1 } else { r.x + r.width }
                &&& ny == if y < r.y { y } else { r.y as int }
                &&& ny + nh == if y + 1 > r.y + r.height { y + 1 } else { r.y + r.height }
            }
        }),
{
}

/// After growing, the rectangle holds the new pixel and every pixel that it
/// held before.
pub proof fn lemma_expand_contains(r: MyPaintRectangle, x: int, y: int, px: int, py: int)
    requires
        r.width >= 0,
        r.height >= 0,
    ensures
        ({
            let (nx, ny, nw, nh) = expanded(r, x, y);
            &&& nx <= x < nx + nw
            &&& ny <= y < ny + nh
            &&& rect_contains(r, px, py) ==> (nx <= px < nx + nw && ny <= py < ny + nh)
        }),
{
}

} // verus!
