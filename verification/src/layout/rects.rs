//! Screen-space rectangles and pixel-buffer painting.

use vstd::prelude::*;

verus! {

/// Identifier of a terminal pane.
pub type PaneId = u64;

/// A rectangle representing a region in screen space.
#[derive(Clone, Copy, Debug, PartialEq, Eq, Structural)]
pub struct Rect {
    pub x: usize,
    pub y: usize,
    pub w: usize,
    pub h: usize,
}

/// Direction of a split between panes.
#[derive(Clone, Copy, Debug, PartialEq, Eq, Structural)]
pub enum SplitDir {
    /// Split left/right.
    Vertical,
    /// Split top/bottom.
    Horizontal,
}

impl Rect {
    /// The point lies inside the rectangle (half-open on the right and bottom).
    pub open spec fn contains_point(self, x: int, y: int) -> bool {
        &&& self.x <= x < self.x + self.w
        &&& self.y <= y < self.y + self.h
    }

    /// Returns true if the point (x, y) is contained within this rectangle.
    ///
    /// Coordinates are whole pixels; a caller holding fractional cursor
    /// coordinates truncates them toward zero first.
    pub fn contains(&self, x: isize, y: isize) -> (r: bool)
        ensures
            r == self.contains_point(x as int, y as int),
    {
        if x < 0 || y < 0 {
            return false;
        }
        let x = x as usize;
        let y = y as usize;
        x >= self.x && x - self.x < self.w && y >= self.y && y - self.y < self.h
    }
}

/// The smaller of two integers.
pub open spec fn min_int(a: int, b: int) -> int {
    if a <= b { a } else { b }
}

/// Length of the intersection of `[a0, a0 + a_len)` and `[b0, b0 + b_len)`.
pub open spec fn spec_overlap(a0: int, a_len: int, b0: int, b_len: int) -> int {
    let start = if a0 >= b0 { a0 } else { b0 };
    let end = if a0 + a_len <= b0 + b_len { a0 + a_len } else { b0 + b_len };
    if end > start { end - start } else { 0 }
}

/// Computes the 1D overlap between two ranges.
pub fn overlap_1d(a0: usize, a_len: usize, b0: usize, b_len: usize) -> (r: usize)
    requires
        a0 + a_len <= usize::MAX,
        b0 + b_len <= usize::MAX,
    ensures
        r == spec_overlap(a0 as int, a_len as int, b0 as int, b_len as int),
{
    let a1 = a0 + a_len;
    let b1 = b0 + b_len;
    let start = if a0 >= b0 { a0 } else { b0 };
    let end = if a1 <= b1 { a1 } else { b1 };
    if end > start { end - start } else { 0 }
}

/// Pixel `i` of a row-major buffer of width `bw` and height `bh` lies inside `rect`.
pub open spec fn pixel_in_rect(i: int, bw: int, bh: int, rect: Rect) -> bool {
    &&& bw > 0
    &&& 0 <= i < bw * bh
    &&& rect.contains_point(i % bw, i / bw)
}

/// Pixel `i` lies on the one-pixel outline of `rect`, clipped to the buffer.
pub open spec fn pixel_on_border(i: int, bw: int, bh: int, rect: Rect) -> bool {
    let x0 = if rect.x <= bw { rect.x as int } else { bw };
    let y0 = if rect.y <= bh { rect.y as int } else { bh };
    let x1 = if rect.x + rect.w <= bw { rect.x + rect.w } else { bw };
    let y1 = if rect.y + rect.h <= bh { rect.y + rect.h } else { bh };
    let x = i % bw;
    let y = i / bw;
    &&& rect.w > 0 && rect.h > 0
    &&& bw > 0
    &&& 0 <= i < bw * bh
    &&& x0 <= x < x1
    &&& y0 <= y < y1
    &&& (y == y0 || y == y1 - 1 || x == x0 || x == x1 - 1)
}

proof fn lemma_pixel_index(y: int, x: int, bw: int, bh: int)
    requires
        0 <= y < bh,
        0 <= x < bw,
    ensures
        0 <= y * bw + x < bw * bh,
        (y * bw + x) / bw == y,
        (y * bw + x) % bw == x,
{
    vstd::arithmetic::mul::lemma_mul_inequality(y + 1, bh, bw);
    vstd::arithmetic::mul::lemma_mul_is_distributive_add_other_way(bw, y, 1);
    vstd::arithmetic::mul::lemma_mul_is_commutative(bh, bw);
    vstd::arithmetic::mul::lemma_mul_nonnegative(y, bw);
    vstd::arithmetic::div_mod::lemma_fundamental_div_mod_converse(y * bw + x, bw, y, x);
}

proof fn lemma_pixel_split(i: int, bw: int, bh: int)
    requires
        bw > 0,
        0 <= i < bw * bh,
    ensures
        0 <= i / bw < bh,
        0 <= i % bw < bw,
        i == (i / bw) * bw + i % bw,
{
    vstd::arithmetic::div_mod::lemma_fundamental_div_mod(i, bw);
    vstd::arithmetic::mul::lemma_mul_is_commutative(bw, i / bw);
    vstd::arithmetic::div_mod::lemma_mod_pos_bound(i, bw);
    vstd::arithmetic::div_mod::lemma_div_pos_is_pos(i, bw);
    if i / bw >= bh {
        vstd::arithmetic::mul::lemma_mul_inequality(bh, i / bw, bw);
        vstd::arithmetic::mul::lemma_mul_is_commutative(bh, bw);
    }
}

/// Fills a rectangle with a solid color.
///
/// Only the part of `rect` that lies inside the `buffer_width` x
/// `buffer_height` area is painted; every other pixel keeps its value.
pub fn fill_rect(
    buffer: &mut [u32],
    buffer_width: usize,
    buffer_height: usize,
    rect: Rect,
    color: u32,
)
    requires
        buffer_width * buffer_height <= old(buffer)@.len(),
        rect.x + rect.w <= usize::MAX,
        rect.y + rect.h <= usize::MAX,
    ensures
        final(buffer)@.len() == old(buffer)@.len(),
        forall|i: int|
            0 <= i < old(buffer)@.len() ==> #[trigger] final(buffer)@[i] == if pixel_in_rect(
                i,
                buffer_width as int,
                buffer_height as int,
                rect,
            ) {
                color
            } else {
                old(buffer)@[i]
            },
{
    let x1 = if rect.x + rect.w <= buffer_width { rect.x + rect.w } else { buffer_width };
    let y1 = if rect.y + rect.h <= buffer_height { rect.y + rect.h } else { buffer_height };
    let x0 = if rect.x <= buffer_width { rect.x } else { buffer_width };
    let y0 = if rect.y <= buffer_height { rect.y } else { buffer_height };
    let ghost bw = buffer_width as int;
    let ghost bh = buffer_height as int;
    let ghost orig = buffer@;
    let _len = buffer.len();

    let mut y = y0;
    while y < y1
        invariant
            y0 <= y <= y1 || (y == y0 && y0 >= y1),
            y1 <= buffer_height,
            x1 <= buffer_width,
            x0 == min_int(rect.x as int, buffer_width as int),
            x1 == min_int(rect.x + rect.w, buffer_width as int),
            y0 == min_int(rect.y as int, buffer_height as int),
            y1 == min_int(rect.y + rect.h, buffer_height as int),
            bw == buffer_width,
            bh == buffer_height,
            buffer@.len() == orig.len(),
            buffer_width * buffer_height <= orig.len(),
            buffer_width * buffer_height <= usize::MAX,
            forall|i: int|
                0 <= i < orig.len() ==> #[trigger] buffer@[i] == if pixel_in_rect(i, bw, bh, rect)
                    && i / bw < y {
                    color
                } else {
                    orig[i]
                },
        decreases y1 - y,
    {
        proof {
            vstd::arithmetic::mul::lemma_mul_inequality(y as int, bh, bw);
            vstd::arithmetic::mul::lemma_mul_is_commutative(bh, bw);
        }
        let row = y * buffer_width;
        let mut x = x0;
        while x < x1
            invariant
                x0 <= x <= x1 || (x == x0 && x0 >= x1),
                y0 <= y < y1,
                y1 <= buffer_height,
                x1 <= buffer_width,
                x0 == min_int(rect.x as int, buffer_width as int),
                x1 == min_int(rect.x + rect.w, buffer_width as int),
                y0 == min_int(rect.y as int, buffer_height as int),
                y1 == min_int(rect.y + rect.h, buffer_height as int),
                row == y * buffer_width,
                bw == buffer_width,
                bh == buffer_height,
                buffer@.len() == orig.len(),
                buffer_width * buffer_height <= orig.len(),
                buffer_width * buffer_height <= usize::MAX,
                forall|i: int|
                    0 <= i < orig.len() ==> #[trigger] buffer@[i] == if pixel_in_rect(i, bw, bh, rect)
                        && (i / bw < y || (i / bw == y && i % bw < x)) {
                        color
                    } else {
                        orig[i]
                    },
            decreases x1 - x,
        {
            proof {
                lemma_pixel_index(y as int, x as int, bw, bh);
            }
            let idx = row + x;
            buffer[idx] = color;
            proof {
                assert forall|i: int| 0 <= i < orig.len() implies #[trigger] buffer@[i] == if pixel_in_rect(i, bw, bh, rect)
                    && (i / bw < y || (i / bw == y && i % bw < x + 1)) {
                    color
                } else {
                    orig[i]
                } by {
                    if i < bw * bh {
                        lemma_pixel_split(i, bw, bh);
                    }
                }
            }
            x = x + 1;
        }
        proof {
            assert forall|i: int| 0 <= i < orig.len() implies #[trigger] buffer@[i] == if pixel_in_rect(i, bw, bh, rect)
                && i / bw < y + 1 {
                color
            } else {
                orig[i]
            } by {
                if i < bw * bh {
                    lemma_pixel_split(i, bw, bh);
                }
            }
        }
        y = y + 1;
    }
    proof {
        assert forall|i: int| 0 <= i < orig.len() implies #[trigger] buffer@[i] == if pixel_in_rect(i, bw, bh, rect) {
            color
        } else {
            orig[i]
        } by {
            if i < bw * bh && bw > 0 {
                lemma_pixel_split(i, bw, bh);
            }
        }
    }
}

/// Pixel `i` has been painted by the first `xs` columns of the top and bottom
/// edges and the first `ys` rows of the left and right edges.
spec fn border_progress(i: int, bw: int, bh: int, x0: int, x1: int, y0: int, y1: int, xs: int, ys: int) -> bool {
    let x = i % bw;
    let y = i / bw;
    &&& bw > 0
    &&& 0 <= i < bw * bh
    &&& ((x0 <= x < xs && (y == y0 || y == y1 - 1)) || (y0 <= y < ys && (x == x0 || x == x1 - 1)))
}

/// Draws a 1px border around a rectangle.
///
/// The outline is clipped to the `buffer_width` x `buffer_height` area: its
/// right and bottom edges are drawn on the last visible column and row.
pub fn draw_border(
    buffer: &mut [u32],
    buffer_width: usize,
    buffer_height: usize,
    rect: Rect,
    color: u32,
)
    requires
        buffer_width * buffer_height <= old(buffer)@.len(),
        rect.x + rect.w <= usize::MAX,
        rect.y + rect.h <= usize::MAX,
    ensures
        final(buffer)@.len() == old(buffer)@.len(),
        forall|i: int|
            0 <= i < old(buffer)@.len() ==> #[trigger] final(buffer)@[i] == if pixel_on_border(
                i,
                buffer_width as int,
                buffer_height as int,
                rect,
            ) {
                color
            } else {
                old(buffer)@[i]
            },
{
    let ghost bw = buffer_width as int;
    let ghost bh = buffer_height as int;
    let ghost orig = buffer@;
    let _len = buffer.len();
    if rect.w == 0 || rect.h == 0 {
        return;
    }
    let x0 = if rect.x <= buffer_width { rect.x } else { buffer_width };
    let y0 = if rect.y <= buffer_height { rect.y } else { buffer_height };
    let x1 = if rect.x + rect.w <= buffer_width { rect.x + rect.w } else { buffer_width };
    let y1 = if rect.y + rect.h <= buffer_height { rect.y + rect.h } else { buffer_height };

    if x1 <= x0 || y1 <= y0 {
        proof {
            assert forall|i: int| 0 <= i < orig.len() implies !pixel_on_border(i, bw, bh, rect) by {}
        }
        return;
    }
    proof {
        vstd::arithmetic::mul::lemma_mul_inequality(y0 as int, bh, bw);
        vstd::arithmetic::mul::lemma_mul_inequality((y1 - 1) as int, bh, bw);
        vstd::arithmetic::mul::lemma_mul_is_commutative(bh, bw);
    }
    let top = y0 * buffer_width;
    let bottom = (y1 - 1) * buffer_width;

    // Top and bottom
    let mut x = x0;
    while x < x1
        invariant
            0 <= x0 <= x <= x1 <= buffer_width,
            0 <= y0 < y1 <= buffer_height,
            top == y0 * buffer_width,
            bottom == (y1 - 1) * buffer_width,
            bw == buffer_width,
            bh == buffer_height,
            buffer@.len() == orig.len(),
            buffer_width * buffer_height <= orig.len(),
            buffer_width * buffer_height <= usize::MAX,
            forall|i: int|
                0 <= i < orig.len() ==> #[trigger] buffer@[i] == if border_progress(
                    i, bw, bh, x0 as int, x1 as int, y0 as int, y1 as int, x as int, y0 as int,
                ) {
                    color
                } else {
                    orig[i]
                },
        decreases x1 - x,
    {
        proof {
            lemma_pixel_index(y0 as int, x as int, bw, bh);
            lemma_pixel_index((y1 - 1) as int, x as int, bw, bh);
        }
        let i_top = top + x;
        let i_bottom = bottom + x;
        buffer[i_top] = color;
        buffer[i_bottom] = color;
        proof {
            assert forall|i: int| 0 <= i < orig.len() implies #[trigger] buffer@[i] == if border_progress(
                i, bw, bh, x0 as int, x1 as int, y0 as int, y1 as int, x + 1, y0 as int,
            ) {
                color
            } else {
                orig[i]
            } by {
                if i < bw * bh {
                    lemma_pixel_split(i, bw, bh);
                }
            }
        }
        x = x + 1;
    }

    // Left and right
    let mut y = y0;
    while y < y1
        invariant
            0 <= x0 < x1 <= buffer_width,
            0 <= y0 <= y <= y1 <= buffer_height,
            bw == buffer_width,
            bh == buffer_height,
            buffer@.len() == orig.len(),
            buffer_width * buffer_height <= orig.len(),
            buffer_width * buffer_height <= usize::MAX,
            forall|i: int|
                0 <= i < orig.len() ==> #[trigger] buffer@[i] == if border_progress(
                    i, bw, bh, x0 as int, x1 as int, y0 as int, y1 as int, x1 as int, y as int,
                ) {
                    color
                } else {
                    orig[i]
                },
        decreases y1 - y,
    {
        proof {
            lemma_pixel_index(y as int, x0 as int, bw, bh);
            lemma_pixel_index(y as int, (x1 - 1) as int, bw, bh);
            vstd::arithmetic::mul::lemma_mul_inequality(y as int, bh, bw);
            vstd::arithmetic::mul::lemma_mul_is_commutative(bh, bw);
        }
        let row = y * buffer_width;
        let i_left = row + x0;
        let i_right = row + (x1 - 1);
        buffer[i_left] = color;
        buffer[i_right] = color;
        proof {
            assert forall|i: int| 0 <= i < orig.len() implies #[trigger] buffer@[i] == if border_progress(
                i, bw, bh, x0 as int, x1 as int, y0 as int, y1 as int, x1 as int, y + 1,
            ) {
                color
            } else {
                orig[i]
            } by {
                if i < bw * bh {
                    lemma_pixel_split(i, bw, bh);
                }
            }
        }
        y = y + 1;
    }
    proof {
        assert forall|i: int| 0 <= i < orig.len() implies #[trigger] buffer@[i] == if pixel_on_border(i, bw, bh, rect) {
            color
        } else {
            orig[i]
        } by {
            if i < bw * bh {
                lemma_pixel_split(i, bw, bh);
            }
        }
    }
}

} // verus!
