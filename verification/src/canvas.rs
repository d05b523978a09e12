use vstd::prelude::*;

use crate::grid::PixelGrid;
use crate::grid::grid_dim;
use crate::grid::grid_flat;
use crate::grid::grid_new;
use crate::grid::grid_pixels;
use crate::grid::grid_set;
use crate::grid::grid_standard;
use crate::line::line_points;
use crate::line::lemma_line_points_in_box;
use crate::line::bres_points;
use crate::pos::Pos;
use crate::rect::Rect;
use crate::size::Size;
use vstd::math::abs;
use vstd::math::max;
use vstd::math::min;
use vstd::seq_lib::lemma_seq_contains_after_push;

verus! {

/// Why a canvas could not hand its pixels out.
#[derive(Eq, PartialEq, Structural, Debug, Copy, Clone)]
pub enum Error {
    /// The backing store could not be viewed as one contiguous row-major
    /// block.
    InvalidBufferLayout,
}

impl Error {
    /// The error rendered for people.
    pub fn message(&self) -> (r: &'static str)
        ensures
            r@ == "Invalid buffer layout"@,
    {
        "Invalid buffer layout"
    }
}

/// A pixel's flat index lies within the grid when its coordinates do.
proof fn lemma_index_in_range(x: int, y: int, w: int, h: int)
    requires
        0 <= x < w,
        0 <= y < h,
    ensures
        0 <= y * w + x < h * w,
{
    assert(0 <= y * w + x < h * w) by (nonlinear_arith)
        requires
            0 <= x < w,
            0 <= y < h,
    ;
}

/// Distinct coordinate pairs have distinct flat indices.
proof fn lemma_index_injective(x1: int, y1: int, x2: int, y2: int, w: int)
    requires
        0 <= x1 < w,
        0 <= x2 < w,
        !(x1 == x2 && y1 == y2),
    ensures
        y1 * w + x1 != y2 * w + x2,
{
    assert(y1 * w + x1 != y2 * w + x2) by (nonlinear_arith)
        requires
            0 <= x1 < w,
            0 <= x2 < w,
            !(x1 == x2 && y1 == y2),
    ;
}

/// Squared distance between the pixel (x, y) and the center (cx, cy).
pub open spec fn sq_dist(x: int, y: int, cx: int, cy: int) -> int {
    (x - cx) * (x - cx) + (y - cy) * (y - cy)
}

/// Whether a circle of radius r centered at (cx, cy) writes the pixel
/// (x, y): strictly closer, squared, than r*r + r.
pub open spec fn circle_touches(x: int, y: int, cx: int, cy: int, r: int) -> bool {
    sq_dist(x, y, cx, cy) < r * r + r
}

/// The color a written circle pixel takes: the fill within r*r - r, the
/// outline in the band between r*r - r and r*r + r. Comparing against
/// r*r - r and r*r + r rather than r*r alone is what keeps the outline's
/// visual width steady across radii.
pub open spec fn circle_color(
    x: int,
    y: int,
    cx: int,
    cy: int,
    r: int,
    outline: u32,
    fill: u32,
) -> u32 {
    if sq_dist(x, y, cx, cy) <= r * r - r {
        fill
    } else {
        outline
    }
}

/// The square of anything bounded by a radius that fits in 32 bits fits well
/// within 128 bits.
proof fn lemma_small_square(d: int, b: int)
    requires
        -b <= d <= b,
        0 <= b < 0x1_0000_0000,
    ensures
        0 <= d * d <= b * b,
        b * b < 0x1_0000_0000_0000_0000,
{
    assert(0 <= d * d <= b * b && b * b < 0x1_0000_0000_0000_0000) by (nonlinear_arith)
        requires
            -b <= d <= b,
            0 <= b < 0x1_0000_0000,
    ;
}

/// An offset beyond the radius squares to at least r*r + r.
proof fn lemma_far_sq(d: int, r: int)
    requires
        r >= 1,
        d > r || d < -r,
    ensures
        d * d >= r * r + r,
{
    assert(d * d >= r * r + r) by (nonlinear_arith)
        requires
            r >= 1,
            d > r || d < -r,
    ;
}

/// A pixel more than the radius away from the center on either axis lies
/// outside the outline band entirely.
proof fn lemma_outside_box_untouched(x: int, y: int, cx: int, cy: int, r: int)
    requires
        r >= 1,
        x < cx - r || x > cx + r || y < cy - r || y > cy + r,
    ensures
        !circle_touches(x, y, cx, cy, r),
{
    assert((x - cx) * (x - cx) >= 0) by (nonlinear_arith);
    assert((y - cy) * (y - cy) >= 0) by (nonlinear_arith);
    if x < cx - r || x > cx + r {
        lemma_far_sq(x - cx, r);
    } else {
        lemma_far_sq(y - cy, r);
    }
}

/// The pixel at column x of row y of a row-major flattening of width w.
spec fn pixel_of(s: Seq<u32>, w: int, x: int, y: int) -> u32 {
    s[y * w + x]
}

/// How a single write changes every pixel of a row-major grid.
proof fn lemma_pixel_of_update(s: Seq<u32>, w: int, h: int, xw: int, yw: int, c: u32)
    requires
        s.len() == h * w,
        0 <= xw < w,
        0 <= yw < h,
    ensures
        s.update(yw * w + xw, c).len() == s.len(),
        forall|x: int, y: int|
            0 <= x < w && 0 <= y < h ==> #[trigger] pixel_of(s.update(yw * w + xw, c), w, x, y)
                == (if x == xw && y == yw {
                c
            } else {
                pixel_of(s, w, x, y)
            }),
{
    lemma_index_in_range(xw, yw, w, h);
    assert forall|x: int, y: int| 0 <= x < w && 0 <= y < h implies #[trigger] pixel_of(
        s.update(yw * w + xw, c),
        w,
        x,
        y,
    ) == (if x == xw && y == yw {
        c
    } else {
        pixel_of(s, w, x, y)
    }) by {
        lemma_index_in_range(x, y, w, h);
        if !(x == xw && y == yw) {
            lemma_index_injective(x, y, xw, yw, w);
        }
    }
}

/// A canvas: a dense row-major grid of packed pixels together with its own
/// bounds, the default and largest clip region of every drawing call.
pub struct Canvas {
    buffer: PixelGrid,
    global_rect: Rect,
}

impl Canvas {
    pub closed spec fn spec_width(self) -> int {
        self.global_rect.spec_right()
    }

    pub closed spec fn spec_height(self) -> int {
        self.global_rect.spec_bottom()
    }

    /// The pixel values, flattened row by row: the pixel at column x of row y
    /// is element `y * width + x`.
    pub closed spec fn pixels(self) -> Seq<u32> {
        grid_pixels(self.buffer)
    }

    pub closed spec fn wf(self) -> bool {
        &&& self.global_rect.spec_left() == 0
        &&& self.global_rect.spec_top() == 0
        &&& 0 <= self.spec_width() <= i32::MAX
        &&& 0 <= self.spec_height() <= i32::MAX
        &&& grid_dim(self.buffer) == ((self.spec_height() as nat, self.spec_width() as nat))
        &&& self.pixels().len() == self.spec_height() * self.spec_width()
        &&& grid_standard(self.buffer)
    }

    pub open spec fn in_bounds(self, x: int, y: int) -> bool {
        0 <= x < self.spec_width() && 0 <= y < self.spec_height()
    }

    pub open spec fn pixel_at(self, x: int, y: int) -> u32 {
        self.pixels()[y * self.spec_width() + x]
    }

    /// What a well-formed canvas guarantees about its own shape.
    pub proof fn lemma_wf(self)
        requires
            self.wf(),
        ensures
            0 <= self.spec_width() <= i32::MAX,
            0 <= self.spec_height() <= i32::MAX,
            self.pixels().len() == self.spec_height() * self.spec_width(),
    {
    }

    /// A canvas of the given size with every pixel set to `default_color`.
    /// The bounds keep the size in the signed coordinate domain and the
    /// element count within what one allocation can hold.
    pub fn new(default_color: u32, size: Size) -> (c: Canvas)
        requires
            size.width <= i32::MAX,
            size.height <= i32::MAX,
            size.width * size.height <= isize::MAX,
        ensures
            c.wf(),
            c.spec_width() == size.width,
            c.spec_height() == size.height,
            c.pixels() == Seq::new((size.height * size.width) as nat, |i: int| default_color),
    {
        let rows = size.height as usize;
        let cols = size.width as usize;
        proof {
            assert(rows * cols <= isize::MAX) by (nonlinear_arith)
                requires
                    rows == size.height,
                    cols == size.width,
                    size.width * size.height <= isize::MAX,
            ;
        }
        let buffer = grid_new(rows, cols, default_color);
        let global_rect = Rect::try_new(
            Pos::new(0, 0),
            Pos::new(size.width as i32, size.height as i32),
        ).unwrap();
        Canvas { buffer, global_rect }
    }

    /// The pixels as one flat row-major block, for handing to a presentation
    /// surface. A well-formed canvas keeps its store contiguous and in
    /// standard order, so flushing it is owed to succeed; the layout is still
    /// checked at the boundary rather than assumed, and a failure would
    /// surface as `InvalidBufferLayout`.
    pub fn flush(&self) -> (r: Result<Vec<u32>, Error>)
        requires
            self.wf(),
        ensures
            r matches Ok(v) && v@ == self.pixels(),
    {
        match grid_flat(&self.buffer) {
            Some(v) => Ok(v),
            None => Err(Error::InvalidBufferLayout),
        }
    }

    /// Writes `color` at `pos` if the clip rectangle contains it; otherwise
    /// leaves the grid alone.
    fn dot_inner(grid: &mut PixelGrid, clip: &Rect, pos: Pos, color: u32)
        requires
            0 <= clip.spec_left(),
            0 <= clip.spec_top(),
            clip.spec_right() <= grid_dim(*old(grid)).1,
            clip.spec_bottom() <= grid_dim(*old(grid)).0,
            grid_pixels(*old(grid)).len() == grid_dim(*old(grid)).0 * grid_dim(*old(grid)).1,
        ensures
            grid_dim(*final(grid)) == grid_dim(*old(grid)),
            grid_standard(*final(grid)) == grid_standard(*old(grid)),
            grid_pixels(*final(grid)) == (if clip.spec_contains(pos.x as int, pos.y as int) {
                grid_pixels(*old(grid)).update(
                    (pos.y as int) * (grid_dim(*old(grid)).1 as int) + pos.x as int,
                    color,
                )
            } else {
                grid_pixels(*old(grid))
            }),
    {
        if clip.contains(pos) {
            grid_set(grid, pos.y as usize, pos.x as usize, color);
        }
    }

    /// Walks the 8-connected line from `from` to `to` and writes `color` at
    /// every visited position the clip rectangle contains. A line whose
    /// endpoints both lie strictly beyond the same clip edge is rejected
    /// before the walk; the bounding-box lemma shows the rejection exact.
    fn line_inner(grid: &mut PixelGrid, clip: &Rect, from: Pos, to: Pos, color: u32)
        requires
            0 <= clip.spec_left(),
            0 <= clip.spec_top(),
            clip.spec_right() <= grid_dim(*old(grid)).1,
            clip.spec_bottom() <= grid_dim(*old(grid)).0,
            grid_pixels(*old(grid)).len() == grid_dim(*old(grid)).0 * grid_dim(*old(grid)).1,
        ensures
            grid_dim(*final(grid)) == grid_dim(*old(grid)),
            grid_pixels(*final(grid)).len() == grid_pixels(*old(grid)).len(),
            grid_standard(*final(grid)) == grid_standard(*old(grid)),
            forall|x: int, y: int|
                0 <= x < grid_dim(*old(grid)).1 && 0 <= y < grid_dim(*old(grid)).0
                    ==> #[trigger] pixel_of(
                    grid_pixels(*final(grid)),
                    grid_dim(*old(grid)).1 as int,
                    x,
                    y,
                ) == (if clip.spec_contains(x, y) && line_points(from, to).contains((x, y)) {
                    color
                } else {
                    pixel_of(grid_pixels(*old(grid)), grid_dim(*old(grid)).1 as int, x, y)
                }),
    {
        let ghost orig = grid_pixels(*grid);
        let ghost dims = grid_dim(*grid);
        let ghost cols = grid_dim(*grid).1 as int;
        let ghost gstd = grid_standard(*grid);
        let ghost pts = line_points(from, to);
        if clip.is_zero_size() || (from.x < clip.left() && to.x < clip.left()) || (from.x
            >= clip.right() && to.x >= clip.right()) || (from.y < clip.top() && to.y
            < clip.top()) || (from.y >= clip.bottom() && to.y >= clip.bottom()) {
            proof {
                lemma_line_points_in_box(from, to);
                assert forall|x: int, y: int|
                    #[trigger] clip.spec_contains(x, y) implies !pts.contains((x, y)) by {
                    if pts.contains((x, y)) {
                        let i = choose|i: int| 0 <= i < pts.len() && pts[i] == ((x, y));
                        assert(pts[i] == ((x, y)));
                    }
                }
            }
            return ;
        }
        let dx: i64 = if to.x >= from.x {
            to.x as i64 - from.x as i64
        } else {
            from.x as i64 - to.x as i64
        };
        let dy: i64 = if to.y >= from.y {
            from.y as i64 - to.y as i64
        } else {
            to.y as i64 - from.y as i64
        };
        let sx = from.x < to.x;
        let sy = from.y < to.y;
        let mut error: i64 = dx + dy;
        let mut pos = from;
        let ghost mut plotted: Seq<(int, int)> = Seq::empty();
        loop
            invariant_except_break
                grid_dim(*grid) == dims,
                grid_pixels(*grid).len() == orig.len(),
                grid_standard(*grid) == gstd,
                orig.len() == dims.0 * dims.1,
                cols == dims.1 as int,
                0 <= clip.spec_left(),
                0 <= clip.spec_top(),
                clip.spec_right() <= dims.1,
                clip.spec_bottom() <= dims.0,
                dx as int == abs(to.x as int - from.x as int),
                dy as int == -(abs(to.y as int - from.y as int) as int),
                sx == (from.x < to.x),
                sy == (from.y < to.y),
                min(from.x as int, to.x as int) <= pos.x as int <= max(from.x as int, to.x as int),
                min(from.y as int, to.y as int) <= pos.y as int <= max(from.y as int, to.y as int),
                2 * dy <= error <= 2 * dx,
                pts == plotted + bres_points(
                    pos.x as int,
                    pos.y as int,
                    to.x as int,
                    to.y as int,
                    dx as int,
                    dy as int,
                    error as int,
                ),
                forall|x: int, y: int|
                    0 <= x < dims.1 && 0 <= y < dims.0 ==> #[trigger] pixel_of(
                        grid_pixels(*grid),
                        cols,
                        x,
                        y,
                    ) == (if clip.spec_contains(x, y) && plotted.contains((x, y)) {
                        color
                    } else {
                        pixel_of(orig, cols, x, y)
                    }),
            ensures
                grid_dim(*grid) == dims,
                grid_pixels(*grid).len() == orig.len(),
                grid_standard(*grid) == gstd,
                forall|x: int, y: int|
                    0 <= x < dims.1 && 0 <= y < dims.0 ==> #[trigger] pixel_of(
                        grid_pixels(*grid),
                        cols,
                        x,
                        y,
                    ) == (if clip.spec_contains(x, y) && pts.contains((x, y)) {
                        color
                    } else {
                        pixel_of(orig, cols, x, y)
                    }),
            decreases abs(to.x as int - pos.x as int) + abs(to.y as int - pos.y as int),
        {
            let ghost pos0 = pos;
            let ghost err0 = error;
            let ghost before = grid_pixels(*grid);
            Self::dot_inner(grid, clip, pos, color);
            proof {
                if clip.spec_contains(pos.x as int, pos.y as int) {
                    lemma_pixel_of_update(
                        before,
                        cols,
                        dims.0 as int,
                        pos.x as int,
                        pos.y as int,
                        color,
                    );
                }
                let plotted0 = plotted;
                plotted = plotted.push((pos.x as int, pos.y as int));
                assert forall|x: int, y: int| 0 <= x < dims.1 && 0 <= y < dims.0
                    implies #[trigger] pixel_of(grid_pixels(*grid), cols, x, y) == (
                if clip.spec_contains(x, y) && plotted.contains((x, y)) {
                    color
                } else {
                    pixel_of(orig, cols, x, y)
                }) by {
                    lemma_seq_contains_after_push(
                        plotted0,
                        (pos0.x as int, pos0.y as int),
                        (x, y),
                    );
                }
            }
            if pos.x == to.x && pos.y == to.y {
                proof {
                    assert(pts =~= plotted);
                }
                break ;
            }
            let e2: i64 = 2 * error;
            if e2 >= dy {
                if pos.x == to.x {
                    proof {
                        assert(pts =~= plotted);
                    }
                    break ;
                }
                error = error + dy;
                if sx {
                    pos.x = pos.x + 1;
                } else {
                    pos.x = pos.x - 1;
                }
            }
            if e2 <= dx {
                if pos.y == to.y {
                    proof {
                        assert(pts =~= plotted);
                    }
                    break ;
                }
                error = error + dx;
                if sy {
                    pos.y = pos.y + 1;
                } else {
                    pos.y = pos.y - 1;
                }
            }
            proof {
                assert(pts =~= plotted + bres_points(
                    pos.x as int,
                    pos.y as int,
                    to.x as int,
                    to.y as int,
                    dx as int,
                    dy as int,
                    error as int,
                ));
            }
        }
    }

    /// Scans the circle's bounding box restricted to the clip rectangle and
    /// writes every pixel of the disc and its outline band: fill within
    /// r*r - r of the center (squared), outline strictly within r*r + r.
    #[verifier::loop_isolation(false)]
    fn circle_inner(
        grid: &mut PixelGrid,
        clip: &Rect,
        center: Pos,
        radius: u32,
        outline_color: u32,
        fill_color: u32,
    )
        requires
            radius >= 1,
            !clip.spec_is_zero_size(),
            0 <= clip.spec_left(),
            0 <= clip.spec_top(),
            clip.spec_right() <= grid_dim(*old(grid)).1,
            clip.spec_bottom() <= grid_dim(*old(grid)).0,
            grid_pixels(*old(grid)).len() == grid_dim(*old(grid)).0 * grid_dim(*old(grid)).1,
        ensures
            grid_dim(*final(grid)) == grid_dim(*old(grid)),
            grid_pixels(*final(grid)).len() == grid_pixels(*old(grid)).len(),
            grid_standard(*final(grid)) == grid_standard(*old(grid)),
            forall|x: int, y: int|
                0 <= x < grid_dim(*old(grid)).1 && 0 <= y < grid_dim(*old(grid)).0
                    ==> #[trigger] pixel_of(
                    grid_pixels(*final(grid)),
                    grid_dim(*old(grid)).1 as int,
                    x,
                    y,
                ) == (if clip.spec_contains(x, y) && circle_touches(
                    x,
                    y,
                    center.x as int,
                    center.y as int,
                    radius as int,
                ) {
                    circle_color(
                        x,
                        y,
                        center.x as int,
                        center.y as int,
                        radius as int,
                        outline_color,
                        fill_color,
                    )
                } else {
                    pixel_of(grid_pixels(*old(grid)), grid_dim(*old(grid)).1 as int, x, y)
                }),
    {
        let ghost orig = grid_pixels(*grid);
        let ghost dims = grid_dim(*grid);
        let ghost cols = grid_dim(*grid).1 as int;
        let ghost gstd = grid_standard(*grid);
        let ghost cxi = center.x as int;
        let ghost cyi = center.y as int;
        let ghost ri = radius as int;
        let cx: i64 = center.x as i64;
        let cy: i64 = center.y as i64;
        let rad: i64 = radius as i64;
        let x0: i64 = if cx - rad >= clip.left() as i64 {
            cx - rad
        } else {
            clip.left() as i64
        };
        let x1: i64 = if cx + rad <= clip.right() as i64 - 1 {
            cx + rad
        } else {
            clip.right() as i64 - 1
        };
        let y0: i64 = if cy - rad >= clip.top() as i64 {
            cy - rad
        } else {
            clip.top() as i64
        };
        let y1: i64 = if cy + rad <= clip.bottom() as i64 - 1 {
            cy + rad
        } else {
            clip.bottom() as i64 - 1
        };
        proof {
            assert forall|px: int, py: int|
                clip.spec_contains(px, py) && #[trigger] circle_touches(
                    px,
                    py,
                    cxi,
                    cyi,
                    ri,
                ) implies x0 as int <= px <= x1 as int && y0 as int <= py <= y1 as int by {
                if px < cxi - ri || px > cxi + ri || py < cyi - ri || py > cyi + ri {
                    lemma_outside_box_untouched(px, py, cxi, cyi, ri);
                }
            }
        }
        if x0 > x1 || y0 > y1 {
            return ;
        }
        proof {
            lemma_small_square(rad as int, rad as int);
        }
        let r2: i128 = (rad as i128) * (rad as i128);
        let mut x: i64 = x0;
        while x <= x1
            invariant
                x0 <= x <= x1 + 1,
                grid_dim(*grid) == dims,
                grid_pixels(*grid).len() == orig.len(),
                grid_standard(*grid) == gstd,
                forall|px: int, py: int|
                    0 <= px < dims.1 && 0 <= py < dims.0 ==> #[trigger] pixel_of(
                        grid_pixels(*grid),
                        cols,
                        px,
                        py,
                    ) == (if clip.spec_contains(px, py) && circle_touches(px, py, cxi, cyi, ri)
                        && px < x {
                        circle_color(px, py, cxi, cyi, ri, outline_color, fill_color)
                    } else {
                        pixel_of(orig, cols, px, py)
                    }),
            decreases x1 + 1 - x,
        {
            let ox: i64 = x - cx;
            proof {
                lemma_small_square(ox as int, rad as int);
            }
            let ox2: i128 = (ox as i128) * (ox as i128);
            let mut y: i64 = y0;
            while y <= y1
                invariant
                    y0 <= y <= y1 + 1,
                    x0 <= x <= x1,
                    grid_dim(*grid) == dims,
                    grid_pixels(*grid).len() == orig.len(),
                    grid_standard(*grid) == gstd,
                    forall|px: int, py: int|
                        0 <= px < dims.1 && 0 <= py < dims.0 ==> #[trigger] pixel_of(
                            grid_pixels(*grid),
                            cols,
                            px,
                            py,
                        ) == (if clip.spec_contains(px, py) && circle_touches(px, py, cxi, cyi, ri)
                            && (px < x || (px == x && py < y)) {
                            circle_color(px, py, cxi, cyi, ri, outline_color, fill_color)
                        } else {
                            pixel_of(orig, cols, px, py)
                        }),
                decreases y1 + 1 - y,
            {
                let oy: i64 = y - cy;
                proof {
                    lemma_small_square(oy as int, rad as int);
                }
                let d: i128 = ox2 + (oy as i128) * (oy as i128);
                let ghost before = grid_pixels(*grid);
                if d < r2 + rad as i128 {
                    let c = if d <= r2 - rad as i128 {
                        fill_color
                    } else {
                        outline_color
                    };
                    grid_set(grid, y as usize, x as usize, c);
                    proof {
                        lemma_pixel_of_update(before, cols, dims.0 as int, x as int, y as int, c);
                    }
                }
                proof {
                    assert forall|px: int, py: int| 0 <= px < dims.1 && 0 <= py < dims.0
                        implies #[trigger] pixel_of(grid_pixels(*grid), cols, px, py) == (
                    if clip.spec_contains(px, py) && circle_touches(px, py, cxi, cyi, ri) && (px < x
                        || (px == x && py < y + 1)) {
                        circle_color(px, py, cxi, cyi, ri, outline_color, fill_color)
                    } else {
                        pixel_of(orig, cols, px, py)
                    }) by {
                        if px == x as int && py == y as int {
                            assert(clip.spec_contains(px, py));
                        }
                    }
                }
                y = y + 1;
            }
            x = x + 1;
        }
    }

    /// A circle against one clip rectangle: nothing for a zero-size clip, a
    /// single dot in the outline color for radius zero, the banded disc
    /// otherwise.
    fn dot_or_circle_inner(
        grid: &mut PixelGrid,
        clip: &Rect,
        center: Pos,
        radius: u32,
        outline_color: u32,
        fill_color: u32,
    )
        requires
            0 <= clip.spec_left(),
            0 <= clip.spec_top(),
            clip.spec_right() <= grid_dim(*old(grid)).1,
            clip.spec_bottom() <= grid_dim(*old(grid)).0,
            grid_pixels(*old(grid)).len() == grid_dim(*old(grid)).0 * grid_dim(*old(grid)).1,
        ensures
            grid_dim(*final(grid)) == grid_dim(*old(grid)),
            grid_pixels(*final(grid)).len() == grid_pixels(*old(grid)).len(),
            grid_standard(*final(grid)) == grid_standard(*old(grid)),
            radius == 0 ==> grid_pixels(*final(grid)) == (if clip.spec_contains(
                center.x as int,
                center.y as int,
            ) {
                grid_pixels(*old(grid)).update(
                    (center.y as int) * (grid_dim(*old(grid)).1 as int) + center.x as int,
                    outline_color,
                )
            } else {
                grid_pixels(*old(grid))
            }),
            radius >= 1 ==> forall|x: int, y: int|
                0 <= x < grid_dim(*old(grid)).1 && 0 <= y < grid_dim(*old(grid)).0
                    ==> #[trigger] pixel_of(
                    grid_pixels(*final(grid)),
                    grid_dim(*old(grid)).1 as int,
                    x,
                    y,
                ) == (if clip.spec_contains(x, y) && circle_touches(
                    x,
                    y,
                    center.x as int,
                    center.y as int,
                    radius as int,
                ) {
                    circle_color(
                        x,
                        y,
                        center.x as int,
                        center.y as int,
                        radius as int,
                        outline_color,
                        fill_color,
                    )
                } else {
                    pixel_of(grid_pixels(*old(grid)), grid_dim(*old(grid)).1 as int, x, y)
                }),
    {
        if clip.is_zero_size() {
            return ;
        }
        if radius == 0 {
            Self::dot_inner(grid, clip, center, outline_color);
            proof {
                if clip.spec_contains(center.x as int, center.y as int) {
                    lemma_pixel_of_update(
                        grid_pixels(*old(grid)),
                        grid_dim(*old(grid)).1 as int,
                        grid_dim(*old(grid)).0 as int,
                        center.x as int,
                        center.y as int,
                        outline_color,
                    );
                }
            }
        } else {
            Self::circle_inner(grid, clip, center, radius, outline_color, fill_color);
        }
    }

    /// Draws a circle of the given radius around `center`, clipped to the
    /// canvas: the disc within squared distance r*r - r of the center takes
    /// the fill color, the band out to (but excluding) r*r + r the outline
    /// color, and nothing farther is written. A radius of zero degenerates
    /// to a single dot at the center in the outline color.
    pub fn draw_circle(&mut self, center: Pos, radius: u32, outline_color: u32, fill_color: u32)
        requires
            old(self).wf(),
        ensures
            final(self).wf(),
            final(self).spec_width() == old(self).spec_width(),
            final(self).spec_height() == old(self).spec_height(),
            final(self).pixels().len() == old(self).pixels().len(),
            radius == 0 ==> final(self).pixels() == (if old(self).in_bounds(
                center.x as int,
                center.y as int,
            ) {
                old(self).pixels().update(
                    (center.y as int) * old(self).spec_width() + center.x as int,
                    outline_color,
                )
            } else {
                old(self).pixels()
            }),
            radius >= 1 ==> forall|x: int, y: int|
                old(self).in_bounds(x, y) ==> #[trigger] final(self).pixel_at(x, y) == (
                if circle_touches(x, y, center.x as int, center.y as int, radius as int) {
                    circle_color(
                        x,
                        y,
                        center.x as int,
                        center.y as int,
                        radius as int,
                        outline_color,
                        fill_color,
                    )
                } else {
                    old(self).pixel_at(x, y)
                }),
    {
        let clip = self.global_rect;
        Self::dot_or_circle_inner(&mut self.buffer, &clip, center, radius, outline_color, fill_color);
        proof {
            if radius >= 1 {
                assert forall|x: int, y: int| old(self).in_bounds(x, y)
                    implies #[trigger] self.pixel_at(x, y) == (if circle_touches(
                    x,
                    y,
                    center.x as int,
                    center.y as int,
                    radius as int,
                ) {
                    circle_color(
                        x,
                        y,
                        center.x as int,
                        center.y as int,
                        radius as int,
                        outline_color,
                        fill_color,
                    )
                } else {
                    old(self).pixel_at(x, y)
                }) by {
                    assert(pixel_of(
                        grid_pixels(self.buffer),
                        grid_dim(old(self).buffer).1 as int,
                        x,
                        y,
                    ) == self.pixel_at(x, y));
                }
            }
        }
    }

    /// As `draw_circle`, but writes only the pixels that lie both on the
    /// canvas and in `rect`.
    pub fn draw_circle_in_rect(
        &mut self,
        center: Pos,
        radius: u32,
        outline_color: u32,
        fill_color: u32,
        rect: &Rect,
    )
        requires
            old(self).wf(),
        ensures
            final(self).wf(),
            final(self).spec_width() == old(self).spec_width(),
            final(self).spec_height() == old(self).spec_height(),
            final(self).pixels().len() == old(self).pixels().len(),
            radius == 0 ==> final(self).pixels() == (if old(self).in_bounds(
                center.x as int,
                center.y as int,
            ) && rect.spec_contains(center.x as int, center.y as int) {
                old(self).pixels().update(
                    (center.y as int) * old(self).spec_width() + center.x as int,
                    outline_color,
                )
            } else {
                old(self).pixels()
            }),
            radius >= 1 ==> forall|x: int, y: int|
                old(self).in_bounds(x, y) ==> #[trigger] final(self).pixel_at(x, y) == (
                if rect.spec_contains(x, y) && circle_touches(
                    x,
                    y,
                    center.x as int,
                    center.y as int,
                    radius as int,
                ) {
                    circle_color(
                        x,
                        y,
                        center.x as int,
                        center.y as int,
                        radius as int,
                        outline_color,
                        fill_color,
                    )
                } else {
                    old(self).pixel_at(x, y)
                }),
    {
        let global = self.global_rect;
        if let Some(clip) = global.intersection(rect) {
            Self::dot_or_circle_inner(
                &mut self.buffer,
                &clip,
                center,
                radius,
                outline_color,
                fill_color,
            );
            proof {
                if radius >= 1 {
                    assert forall|x: int, y: int| old(self).in_bounds(x, y)
                        implies #[trigger] self.pixel_at(x, y) == (if rect.spec_contains(x, y)
                        && circle_touches(x, y, center.x as int, center.y as int, radius as int) {
                        circle_color(
                            x,
                            y,
                            center.x as int,
                            center.y as int,
                            radius as int,
                            outline_color,
                            fill_color,
                        )
                    } else {
                        old(self).pixel_at(x, y)
                    }) by {
                        assert(pixel_of(
                            grid_pixels(self.buffer),
                            grid_dim(old(self).buffer).1 as int,
                            x,
                            y,
                        ) == self.pixel_at(x, y));
                        assert(clip.spec_contains(x, y) == (global.spec_contains(x, y)
                            && rect.spec_contains(x, y)));
                    }
                }
            }
        } else {
            proof {
                assert forall|x: int, y: int| old(self).in_bounds(x, y)
                    implies !rect.spec_contains(x, y) by {
                    assert(!(global.spec_contains(x, y) && rect.spec_contains(x, y)));
                }
            }
        }
    }

    /// Writes `color` at `pos` when `pos` lies on the canvas; off-canvas
    /// positions are silently skipped.
    pub fn draw_dot(&mut self, pos: Pos, color: u32)
        requires
            old(self).wf(),
        ensures
            final(self).wf(),
            final(self).spec_width() == old(self).spec_width(),
            final(self).spec_height() == old(self).spec_height(),
            final(self).pixels() == (if old(self).in_bounds(pos.x as int, pos.y as int) {
                old(self).pixels().update(
                    (pos.y as int) * old(self).spec_width() + pos.x as int,
                    color,
                )
            } else {
                old(self).pixels()
            }),
    {
        let clip = self.global_rect;
        Self::dot_inner(&mut self.buffer, &clip, pos, color);
        proof {
            if old(self).in_bounds(pos.x as int, pos.y as int) {
                lemma_index_in_range(
                    pos.x as int,
                    pos.y as int,
                    old(self).spec_width(),
                    old(self).spec_height(),
                );
            }
        }
    }

    /// Writes `color` at `pos` when `pos` lies both on the canvas and in
    /// `rect`; anything else is silently skipped.
    pub fn draw_dot_in_rect(&mut self, pos: Pos, color: u32, rect: &Rect)
        requires
            old(self).wf(),
        ensures
            final(self).wf(),
            final(self).spec_width() == old(self).spec_width(),
            final(self).spec_height() == old(self).spec_height(),
            final(self).pixels() == (if old(self).in_bounds(pos.x as int, pos.y as int)
                && rect.spec_contains(pos.x as int, pos.y as int) {
                old(self).pixels().update(
                    (pos.y as int) * old(self).spec_width() + pos.x as int,
                    color,
                )
            } else {
                old(self).pixels()
            }),
    {
        let global = self.global_rect;
        if let Some(clip) = global.intersection(rect) {
            Self::dot_inner(&mut self.buffer, &clip, pos, color);
            proof {
                if old(self).in_bounds(pos.x as int, pos.y as int) {
                    lemma_index_in_range(
                        pos.x as int,
                        pos.y as int,
                        old(self).spec_width(),
                        old(self).spec_height(),
                    );
                }
            }
        }
    }

    /// Rasterizes the line from `from` to `to` in `color`: every pixel of
    /// the 8-connected walk between the endpoints, both included, that lies
    /// on the canvas.
    pub fn draw_line(&mut self, from: Pos, to: Pos, color: u32)
        requires
            old(self).wf(),
        ensures
            final(self).wf(),
            final(self).spec_width() == old(self).spec_width(),
            final(self).spec_height() == old(self).spec_height(),
            final(self).pixels().len() == old(self).pixels().len(),
            forall|x: int, y: int|
                old(self).in_bounds(x, y) ==> #[trigger] final(self).pixel_at(x, y) == (
                if line_points(from, to).contains((x, y)) {
                    color
                } else {
                    old(self).pixel_at(x, y)
                }),
    {
        let clip = self.global_rect;
        Self::line_inner(&mut self.buffer, &clip, from, to, color);
        proof {
            assert forall|x: int, y: int| old(self).in_bounds(x, y) implies #[trigger] self.pixel_at(
                x,
                y,
            ) == (if line_points(from, to).contains((x, y)) {
                color
            } else {
                old(self).pixel_at(x, y)
            }) by {
                assert(pixel_of(grid_pixels(self.buffer), grid_dim(old(self).buffer).1 as int, x, y)
                    == self.pixel_at(x, y));
            }
        }
    }

    /// Rasterizes the line from `from` to `to` in `color`, but writes only
    /// the pixels that lie both on the canvas and in `rect`.
    pub fn draw_line_in_rect(&mut self, from: Pos, to: Pos, color: u32, rect: &Rect)
        requires
            old(self).wf(),
        ensures
            final(self).wf(),
            final(self).spec_width() == old(self).spec_width(),
            final(self).spec_height() == old(self).spec_height(),
            final(self).pixels().len() == old(self).pixels().len(),
            forall|x: int, y: int|
                old(self).in_bounds(x, y) ==> #[trigger] final(self).pixel_at(x, y) == (
                if rect.spec_contains(x, y) && line_points(from, to).contains((x, y)) {
                    color
                } else {
                    old(self).pixel_at(x, y)
                }),
    {
        let global = self.global_rect;
        if let Some(clip) = global.intersection(rect) {
            Self::line_inner(&mut self.buffer, &clip, from, to, color);
            proof {
                assert forall|x: int, y: int| old(self).in_bounds(x, y) implies #[trigger] self.pixel_at(
                    x,
                    y,
                ) == (if rect.spec_contains(x, y) && line_points(from, to).contains((x, y)) {
                    color
                } else {
                    old(self).pixel_at(x, y)
                }) by {
                    assert(pixel_of(grid_pixels(self.buffer), grid_dim(old(self).buffer).1 as int, x, y)
                        == self.pixel_at(x, y));
                    assert(clip.spec_contains(x, y) == (global.spec_contains(x, y)
                        && rect.spec_contains(x, y)));
                }
            }
        } else {
            proof {
                assert forall|x: int, y: int| old(self).in_bounds(x, y) implies !(
                rect.spec_contains(x, y) && line_points(from, to).contains((x, y))) by {
                    assert(!(global.spec_contains(x, y) && rect.spec_contains(x, y)));
                }
            }
        }
    }
}

/// A line whose endpoints both lie strictly beyond the same edge of a clip
/// rectangle visits no pixel the clip admits; with the contract of
/// `draw_line_in_rect`, drawing it leaves every pixel of the buffer
/// unchanged. This is also why the walker's early rejection is exact.
pub proof fn lemma_line_outside_clip(from: Pos, to: Pos, clip: Rect)
    requires
        (from.x < clip.spec_left() && to.x < clip.spec_left()) || (from.x >= clip.spec_right()
            && to.x >= clip.spec_right()) || (from.y < clip.spec_top() && to.y < clip.spec_top())
            || (from.y >= clip.spec_bottom() && to.y >= clip.spec_bottom()),
    ensures
        forall|x: int, y: int|
            #[trigger] clip.spec_contains(x, y) ==> !line_points(from, to).contains((x, y)),
{
    let pts = line_points(from, to);
    lemma_line_points_in_box(from, to);
    assert forall|x: int, y: int| #[trigger] clip.spec_contains(x, y) implies !pts.contains(
        (x, y),
    ) by {
        if pts.contains((x, y)) {
            let i = choose|i: int| 0 <= i < pts.len() && pts[i] == ((x, y));
            assert(pts[i] == ((x, y)));
        }
    }
}

/// A circle whose bounding box lies entirely beyond some edge of a clip
/// rectangle touches no pixel the clip admits; with the contract of
/// `draw_circle_in_rect`, drawing it leaves every pixel of the buffer
/// unchanged. A radius of zero touches nothing through the band at all: the
/// single dot it degenerates to is governed by the radius-zero clause of the
/// circle contracts, and an off-clip center is skipped there.
pub proof fn lemma_circle_outside_clip(center: Pos, radius: u32, clip: Rect)
    requires
        center.x + radius < clip.spec_left() || center.x - radius >= clip.spec_right() || center.y
            + radius < clip.spec_top() || center.y - radius >= clip.spec_bottom(),
    ensures
        forall|x: int, y: int|
            #[trigger] clip.spec_contains(x, y) ==> !circle_touches(
                x,
                y,
                center.x as int,
                center.y as int,
                radius as int,
            ),
{
    let cx = center.x as int;
    let cy = center.y as int;
    let r = radius as int;
    assert forall|x: int, y: int| #[trigger] clip.spec_contains(x, y) implies !circle_touches(
        x,
        y,
        cx,
        cy,
        r,
    ) by {
        if r == 0 {
            assert((x - cx) * (x - cx) >= 0) by (nonlinear_arith);
            assert((y - cy) * (y - cy) >= 0) by (nonlinear_arith);
        } else {
            lemma_outside_box_untouched(x, y, cx, cy, r);
        }
    }
}

/// A buffer flushed from a freshly constructed canvas is uniformly the
/// construction color: what `Canvas::new` ensures of the pixels, carried to
/// the value that `flush` (whose own contract owes an `Ok`) hands out.
pub proof fn lemma_fresh_flush_uniform(c: Canvas, v: Seq<u32>, color: u32, size: Size)
    requires
        c.pixels() == Seq::new((size.height * size.width) as nat, |i: int| color),
        v == c.pixels(),
    ensures
        v.len() == size.height * size.width,
        forall|i: int| 0 <= i < v.len() ==> v[i] == color,
{
}

} // verus!
