//! The render-facing data the display core hands its host: the flat
//! character grid with cursor position, the pixel-size bookkeeping that
//! turns a window size into a grid size, and the render-time invariant
//! check that a supplied grid matches its stated dimensions. Drawing
//! itself (glyphs, GPU surfaces) is the host's.

use vstd::prelude::*;

use crate::screen::ScreenSize;

verus! {

/// Width of one character cell, in pixels.
pub const CELL_WIDTH: u32 = 10;

/// Height of one character cell, in pixels.
pub const CELL_HEIGHT: u32 = 20;

/// Horizontal padding around the grid, in pixels.
pub const PADDING_X: u32 = 12;

/// Vertical padding around the grid, in pixels.
pub const PADDING_Y: u32 = 12;

/// How rendering input can be rejected: a degenerate surface, or a grid
/// whose character count contradicts its stated dimensions (a caller bug,
/// not a runtime condition).
#[derive(Debug, Copy, Clone, PartialEq, Eq, Structural)]
pub enum RenderError {
    InvalidSize { width: u32, height: u32 },
    GridMismatch { expected: usize, actual: usize },
}

/// A drawing surface size in pixels.
#[derive(Debug, Copy, Clone, PartialEq, Eq, Structural)]
pub struct RenderSize {
    pub width: u32,
    pub height: u32,
}

/// Where the cursor bar is drawn, in grid coordinates.
#[derive(Debug, Copy, Clone, PartialEq, Eq, Structural)]
pub struct CursorPosition {
    pub col: u16,
    pub row: u16,
}

/// One frame's worth of display state: the flat row-major characters of a
/// cols-by-rows grid, and the cursor to draw over them, if any.
pub struct RenderGrid<'a> {
    pub cols: u16,
    pub rows: u16,
    pub cells: &'a [char],
    pub cursor: Option<CursorPosition>,
    pub cursor_visible: bool,
}

/// The render-time invariant: a grid's character count must equal
/// cols * rows. A mismatch is reported as `GridMismatch` rather than drawn.
pub fn validate_grid(grid: &RenderGrid<'_>) -> (r: Result<(), RenderError>)
    ensures
        r is Ok <==> grid.cells@.len() == grid.cols as int * grid.rows as int,
        r is Err ==> r->Err_0 == (RenderError::GridMismatch {
            expected: (grid.cols as int * grid.rows as int) as usize,
            actual: grid.cells@.len() as usize,
        }),
{
    proof {
        crate::screen::lemma_grid_area_bound(grid.cols as int, grid.rows as int);
    }
    let expected = grid.cols as usize * grid.rows as usize;
    if grid.cells.len() != expected {
        return Err(RenderError::GridMismatch { expected, actual: grid.cells.len() });
    }
    Ok(())
}

/// A surface must have both pixel dimensions nonzero before it can be
/// configured.
pub fn validate_surface_size(size: RenderSize) -> (r: Result<(), RenderError>)
    ensures
        r is Ok <==> size.width > 0 && size.height > 0,
        r is Err ==> r->Err_0 == (RenderError::InvalidSize {
            width: size.width,
            height: size.height,
        }),
{
    if size.width == 0 || size.height == 0 {
        return Err(RenderError::InvalidSize { width: size.width, height: size.height });
    }
    Ok(())
}

/// The number of whole cells that fit across the given pixel span once the
/// padding is taken off, never fewer than one and never more than the
/// grid's index type can count.
pub open spec fn cells_that_fit(pixels: u32, padding: u32, cell: u32) -> u16 {
    let usable = if pixels >= 2 * padding {
        pixels - 2 * padding
    } else {
        0
    };
    let n = usable / cell as int;
    if n < 1 {
        1u16
    } else if n > u16::MAX {
        u16::MAX
    } else {
        n as u16
    }
}

/// Derives the grid size a window of the given pixel size can show: the
/// cells that fit inside the padding, at least one and at most the grid's
/// maximum each way.
pub fn screen_size_from_pixels(width: u32, height: u32) -> (r: ScreenSize)
    ensures
        r.cols == cells_that_fit(width, PADDING_X, CELL_WIDTH),
        r.rows == cells_that_fit(height, PADDING_Y, CELL_HEIGHT),
        r.cols >= 1 && r.rows >= 1,
{
    let usable_width = width.saturating_sub(PADDING_X * 2);
    let usable_height = height.saturating_sub(PADDING_Y * 2);
    let cols32 = usable_width / CELL_WIDTH;
    let rows32 = usable_height / CELL_HEIGHT;
    let cols = if cols32 < 1 {
        1u16
    } else if cols32 > u16::MAX as u32 {
        u16::MAX
    } else {
        cols32 as u16
    };
    let rows = if rows32 < 1 {
        1u16
    } else if rows32 > u16::MAX as u32 {
        u16::MAX
    } else {
        rows32 as u16
    };
    ScreenSize { cols, rows }
}

/// One color channel alpha-blended over another: the source weighted by
/// alpha, the destination by its complement, out of 255.
pub open spec fn blend_channel(fg: u8, bg: u8, alpha: u8) -> int {
    (fg * alpha + bg * (255 - alpha)) / 255
}

/// Blends a foreground color into the four bytes of one pixel at `idx`:
/// the three color channels are alpha-weighted and the pixel becomes fully
/// opaque. No other byte changes.
pub fn blend_pixel(buffer: &mut Vec<u8>, idx: usize, fg: [u8; 4], alpha: u8)
    requires
        idx + 4 <= old(buffer)@.len(),
    ensures
        final(buffer)@.len() == old(buffer)@.len(),
        final(buffer)@[idx as int] == blend_channel(fg@[0], old(buffer)@[idx as int], alpha),
        final(buffer)@[idx + 1] == blend_channel(fg@[1], old(buffer)@[idx + 1], alpha),
        final(buffer)@[idx + 2] == blend_channel(fg@[2], old(buffer)@[idx + 2], alpha),
        final(buffer)@[idx + 3] == 255,
        forall|j: int|
            0 <= j < old(buffer)@.len() && !(idx <= j < idx + 4) ==> final(buffer)@[j]
                == old(buffer)@[j],
{
    let n = buffer.len();
    let a = alpha as u32;
    let inv = 255 - a;
    proof {
        assert(n == old(buffer)@.len());
        lemma_blend_fits(fg@[0] as int, old(buffer)@[idx as int] as int, a as int);
        lemma_blend_fits(fg@[1] as int, old(buffer)@[idx + 1] as int, a as int);
        lemma_blend_fits(fg@[2] as int, old(buffer)@[idx + 2] as int, a as int);
    }
    let v0 = (fg[0] as u32 * a + buffer[idx] as u32 * inv) / 255;
    buffer[idx] = v0 as u8;
    proof {
        assert(buffer@[idx + 1] == old(buffer)@[idx + 1]);
    }
    let v1 = (fg[1] as u32 * a + buffer[idx + 1] as u32 * inv) / 255;
    buffer[idx + 1] = v1 as u8;
    proof {
        assert(buffer@[idx + 2] == old(buffer)@[idx + 2]);
    }
    let v2 = (fg[2] as u32 * a + buffer[idx + 2] as u32 * inv) / 255;
    buffer[idx + 2] = v2 as u8;
    buffer[idx + 3] = 255;
}

/// The weighted sum of two channel values stays within a byte after the
/// division.
proof fn lemma_blend_fits(fg: int, bg: int, a: int)
    requires
        0 <= fg <= 255,
        0 <= bg <= 255,
        0 <= a <= 255,
    ensures
        0 <= fg * a + bg * (255 - a) <= 255 * 255,
        0 <= (fg * a + bg * (255 - a)) / 255 <= 255,
{
    assert(0 <= fg * a + bg * (255 - a) <= 255 * 255) by (nonlinear_arith)
        requires
            0 <= fg <= 255,
            0 <= bg <= 255,
            0 <= a <= 255,
    ;
}

/// Milliseconds the cursor stays in one blink phase.
pub const CURSOR_BLINK_INTERVAL_MS: u64 = 600;

/// One tick of the cursor blink policy: a closed session hides the cursor;
/// otherwise the phase flips once the interval has passed. The second result
/// says whether the blink timer restarts.
pub fn cursor_blink_step(visible: bool, closed: bool, elapsed_ms: u64) -> (r: (bool, bool))
    ensures
        closed ==> r == (false, false),
        !closed && elapsed_ms >= CURSOR_BLINK_INTERVAL_MS ==> r == (!visible, true),
        !closed && elapsed_ms < CURSOR_BLINK_INTERVAL_MS ==> r == (visible, false),
{
    if closed {
        (false, false)
    } else if elapsed_ms >= CURSOR_BLINK_INTERVAL_MS {
        (!visible, true)
    } else {
        (visible, false)
    }
}

/// The buffer with every complete pixel of every complete `stride`-sized
/// row set to `color`: what clearing the frame to the background leaves.
/// A partial trailing row and a partial trailing pixel keep their bytes.
pub open spec fn fill_background_spec(buf: Seq<u8>, stride: nat, color: Seq<u8>) -> Seq<u8> {
    Seq::new(
        buf.len(),
        |i: int|
            {
                let o = i % (stride as int);
                if i < (buf.len() as int / stride as int) * stride && o < 4 * (stride as int / 4) {
                    color[o % 4]
                } else {
                    buf[i]
                }
            },
    )
}

/// Clears the frame: every complete pixel of every complete row becomes the
/// background color.
pub fn fill_background(buffer: &mut Vec<u8>, stride: usize, color: [u8; 4])
    requires
        stride >= 1,
        old(buffer)@.len() <= usize::MAX,
    ensures
        final(buffer)@ == fill_background_spec(old(buffer)@, stride as nat, color@),
{
    let n = buffer.len();
    let row_count = n / stride;
    let pixels_per_row = stride / 4;
    let ghost orig = buffer@;
    let mut r: usize = 0;
    proof {
        vstd::arithmetic::div_mod::lemma_fundamental_div_mod(n as int, stride as int);
        vstd::arithmetic::div_mod::lemma_fundamental_div_mod(stride as int, 4);
        assert(row_count * stride <= n) by (nonlinear_arith)
            requires
                n as int == stride as int * row_count + n as int % stride as int,
                0 <= n as int % stride as int,
                row_count as int == n as int / stride as int,
        ;
        assert(4 * pixels_per_row <= stride) by (nonlinear_arith)
            requires
                stride as int == 4 * pixels_per_row + stride as int % 4,
                0 <= stride as int % 4,
                pixels_per_row as int == stride as int / 4,
        ;
    }
    while r < row_count
        invariant
            n == buffer@.len(),
            n == orig.len(),
            stride >= 1,
            row_count == n as int / stride as int,
            pixels_per_row == stride as int / 4,
            row_count * stride <= n,
            4 * pixels_per_row <= stride,
            r <= row_count,
            forall|i: int|
                0 <= i < n ==> buffer@[i] == (if i < r * stride && (i % (stride as int)) < 4
                    * pixels_per_row {
                    color@[(i % (stride as int)) % 4]
                } else {
                    orig[i]
                }),
        decreases row_count - r,
    {
        let mut p: usize = 0;
        while p < pixels_per_row
            invariant
                n == buffer@.len(),
                n == orig.len(),
                stride >= 1,
                row_count == n as int / stride as int,
                pixels_per_row == stride as int / 4,
                row_count * stride <= n,
                4 * pixels_per_row <= stride,
                r < row_count,
                p <= pixels_per_row,
                forall|i: int|
                    0 <= i < n ==> buffer@[i] == (if (i < r * stride || (i < (r + 1) * stride && i
                        - r * stride < 4 * p)) && (i % (stride as int)) < 4 * pixels_per_row {
                        color@[(i % (stride as int)) % 4]
                    } else {
                        orig[i]
                    }),
            decreases pixels_per_row - p,
        {
            proof {
                assert((r + 1) * stride <= row_count * stride && r * stride + 4 * p + 4 <= (r + 1)
                    * stride) by (nonlinear_arith)
                    requires
                        r < row_count,
                        p < pixels_per_row,
                        4 * pixels_per_row <= stride,
                        stride >= 1,
                ;
            }
            let base = r * stride + p * 4;
            buffer[base] = color[0];
            buffer[base + 1] = color[1];
            buffer[base + 2] = color[2];
            buffer[base + 3] = color[3];
            proof {
                assert forall|i: int| base <= i < base + 4 implies #[trigger] (i % (
                stride as int)) == i - r * stride && i / (stride as int) == r as int by {
                    vstd::arithmetic::div_mod::lemma_fundamental_div_mod_converse(
                        i,
                        stride as int,
                        r as int,
                        i - r * stride,
                    );
                }
            }
            p = p + 1;
        }
        proof {
            assert forall|i: int|
                0 <= i < n && i < (r + 1) * stride && i - r * stride >= 4 * pixels_per_row
                implies #[trigger] (i % (stride as int)) >= 4 * pixels_per_row by {
                assert((r + 1) * stride == r * stride + stride) by (nonlinear_arith);
                if i >= r * stride {
                    vstd::arithmetic::div_mod::lemma_fundamental_div_mod_converse(
                        i,
                        stride as int,
                        r as int,
                        i - r * stride,
                    );
                } else {
                }
            }
            assert forall|i: int| 0 <= i < n && i < (r + 1) * stride && i >= r * stride
                implies #[trigger] (i % (stride as int)) == i - r * stride by {
                assert((r + 1) * stride == r * stride + stride) by (nonlinear_arith);
                vstd::arithmetic::div_mod::lemma_fundamental_div_mod_converse(
                    i,
                    stride as int,
                    r as int,
                    i - r * stride,
                );
            }
            assert forall|i: int| 0 <= i < n implies buffer@[i] == (if i < (r + 1) * stride && (i
                % (stride as int)) < 4 * pixels_per_row {
                color@[(i % (stride as int)) % 4]
            } else {
                orig[i]
            }) by {
                assert((r + 1) * stride == r * stride + stride) by (nonlinear_arith);
                if r * stride <= i < (r + 1) * stride {
                    vstd::arithmetic::div_mod::lemma_fundamental_div_mod_converse(
                        i,
                        stride as int,
                        r as int,
                        i - r * stride,
                    );
                }
            }
        }
        r = r + 1;
    }
    proof {
        assert(buffer@ =~= fill_background_spec(orig, stride as nat, color@));
    }
}

/// The buffer with a solid rectangle of pixels set to `color`, in a frame
/// laid out with `stride` bytes per row: pixel columns [x0, x0+w) inside
/// the frame width, pixel rows [y0, y0+h) inside the frame height, and only
/// pixels whose four bytes fit the buffer.
pub open spec fn bar_region_spec(
    buf: Seq<u8>,
    width: nat,
    height: nat,
    stride: nat,
    x0: nat,
    y0: nat,
    w: nat,
    h: nat,
    color: Seq<u8>,
) -> Seq<u8> {
    Seq::new(
        buf.len(),
        |i: int|
            {
                let py = i / (stride as int);
                let o = i % (stride as int);
                let px = o / 4;
                let c = o % 4;
                if x0 <= px < x0 + w && px < width && y0 <= py < y0 + h && py < height && i - c + 4
                    <= buf.len() {
                    color[c]
                } else {
                    buf[i]
                }
            },
    )
}

/// One more column of a one-row bar region: the region grown by the pixel
/// at column x0+k equals the old region with that pixel's four bytes
/// updated, when the pixel is inside the frame and the buffer, and is
/// unchanged otherwise.
proof fn lemma_bar_extend_col(
    base: Seq<u8>,
    width: nat,
    height: nat,
    stride: nat,
    x0: nat,
    py: nat,
    k: nat,
    color: Seq<u8>,
)
    requires
        stride >= 1,
        4 * width <= stride,
        py < height,
        color.len() == 4,
    ensures
        x0 + k < width && py * stride + (x0 + k) * 4 + 4 <= base.len() ==> ({
            let b = bar_region_spec(base, width, height, stride, x0, py, k, 1, color);
            let idx = (py * stride + (x0 + k) * 4) as int;
            bar_region_spec(base, width, height, stride, x0, py, (k + 1) as nat, 1, color)
                == b.update(idx, color[0]).update(idx + 1, color[1]).update(
                idx + 2,
                color[2],
            ).update(idx + 3, color[3])
        }),
        !(x0 + k < width && py * stride + (x0 + k) * 4 + 4 <= base.len())
            ==> bar_region_spec(base, width, height, stride, x0, py, (k + 1) as nat, 1, color)
            == bar_region_spec(base, width, height, stride, x0, py, k, 1, color),
{
    let b = bar_region_spec(base, width, height, stride, x0, py, k, 1, color);
    let grown = bar_region_spec(base, width, height, stride, x0, py, (k + 1) as nat, 1, color);
    let st = stride as int;
    let w_ = width as int;
    let pxi = x0 as int + k;
    let py_i = py as int;
    let idx0: int = (py * stride + (x0 + k) * 4) as int;
    let rhs = if x0 + k < width && idx0 + 4 <= base.len() {
        b.update(idx0, color[0]).update(idx0 + 1, color[1]).update(idx0 + 2, color[2]).update(
            idx0 + 3,
            color[3],
        )
    } else {
        b
    };
    assert forall|i: int| 0 <= i < base.len() implies grown[i] == rhs[i] by {
        let pyd = i / st;
        let o = i % st;
        let pxd = o / 4;
        let c = o % 4;
        vstd::arithmetic::div_mod::lemma_fundamental_div_mod(i, st);
        vstd::arithmetic::div_mod::lemma_mod_bound(i, st);
        vstd::arithmetic::div_mod::lemma_fundamental_div_mod(o, 4);
        vstd::arithmetic::div_mod::lemma_mod_bound(o, 4);
        if pxi < w_ && idx0 + 4 <= base.len() && idx0 <= i < idx0 + 4 {
            let off = i - idx0;
            assert(0 <= pxi * 4 + off < st && i == py_i * st + (pxi * 4 + off))
                by (nonlinear_arith)
                requires
                    idx0 == py_i * st + pxi * 4,
                    idx0 <= i < idx0 + 4,
                    off == i - idx0,
                    0 <= pxi < w_,
                    4 * w_ <= st,
            ;
            vstd::arithmetic::div_mod::lemma_fundamental_div_mod_converse(
                i,
                st,
                py_i,
                pxi * 4 + off,
            );
            vstd::arithmetic::div_mod::lemma_fundamental_div_mod_converse(o, 4, pxi, off);
        } else {
            if pyd == py_i && pxd == pxi {
                assert(i == idx0 + c) by (nonlinear_arith)
                    requires
                        i == st * pyd + o,
                        o == 4 * pxd + c,
                        idx0 == py_i * st + pxi * 4,
                        pyd == py_i,
                        pxd == pxi,
                ;
            }
        }
    }
    assert(grown =~= rhs);
}

/// Draws the cursor as a vertical bar two pixels wide and nearly a cell
/// tall, inset one pixel right and two down from the cell origin, clipped
/// to the frame and the buffer.
pub fn draw_cursor_bar(
    origin_x: u32,
    origin_y: u32,
    width: usize,
    height: usize,
    stride: usize,
    buffer: &mut Vec<u8>,
)
    requires
        stride >= 1,
        4 * width <= stride,
        height * stride <= usize::MAX,
        origin_x + 3 <= u32::MAX,
        origin_y + 2 + CELL_HEIGHT <= u32::MAX,
        old(buffer)@.len() <= usize::MAX,
    ensures
        final(buffer)@ == bar_region_spec(
            old(buffer)@,
            width as nat,
            height as nat,
            stride as nat,
            origin_x as nat + 1,
            origin_y as nat + 2,
            2,
            (CELL_HEIGHT - 4) as nat,
            seq![88u8, 168u8, 255u8, 255u8],
        ),
{
    let color: [u8; 4] = [88u8, 168u8, 255u8, 255u8];
    let bar_width: u32 = 2;
    let bar_height: u32 = CELL_HEIGHT - 4;
    let start_x = origin_x + 1;
    let start_y = origin_y + 2;
    let ghost orig = buffer@;
    let ghost cs: Seq<u8> = seq![88u8, 168u8, 255u8, 255u8];
    let n = buffer.len();
    proof {
        assert(color@ =~= cs);
        assert(bar_region_spec(
            orig,
            width as nat,
            height as nat,
            stride as nat,
            start_x as nat,
            start_y as nat,
            2,
            0,
            cs,
        ) =~= orig);
    }

    let mut y: u32 = 0;
    while y < bar_height
        invariant
            stride >= 1,
            4 * width <= stride,
            height * stride <= usize::MAX,
            n == buffer@.len(),
            n == orig.len(),
            n <= usize::MAX,
            bar_width == 2,
            bar_height == CELL_HEIGHT - 4,
            start_x == origin_x + 1,
            start_y == origin_y + 2,
            origin_x + 3 <= u32::MAX,
            origin_y + 2 + CELL_HEIGHT <= u32::MAX,
            cs == seq![88u8, 168u8, 255u8, 255u8],
            color@ == cs,
            y <= bar_height,
            buffer@ == bar_region_spec(
                orig,
                width as nat,
                height as nat,
                stride as nat,
                start_x as nat,
                start_y as nat,
                2,
                y as nat,
                cs,
            ),
        decreases bar_height - y,
    {
        let ghost rows_done = buffer@;
        let py = start_y + y;
        if (py as usize) < height {
            let ghost py_i = py as int;
            let mut x: u32 = 0;
            proof {
                assert(bar_region_spec(
                    rows_done,
                    width as nat,
                    height as nat,
                    stride as nat,
                    start_x as nat,
                    py as nat,
                    0,
                    1,
                    cs,
                ) =~= rows_done);
            }
            while x < bar_width
                invariant
                    stride >= 1,
                    4 * width <= stride,
                    height * stride <= usize::MAX,
                    n == buffer@.len(),
                    n == rows_done.len(),
                    n <= usize::MAX,
                    bar_width == 2,
                    start_x == origin_x + 1,
                    origin_x + 3 <= u32::MAX,
                    cs == seq![88u8, 168u8, 255u8, 255u8],
                    color@ == cs,
                    py == start_y + y,
                    py < height,
                    x <= bar_width,
                    buffer@ == bar_region_spec(
                        rows_done,
                        width as nat,
                        height as nat,
                        stride as nat,
                        start_x as nat,
                        py as nat,
                        x as nat,
                        1,
                        cs,
                    ),
                decreases bar_width - x,
            {
                let ghost before = buffer@;
                let px = start_x + x;
                if (px as usize) < width {
                    proof {
                        assert((py as int) * stride + (px as int) * 4 + 4 <= height * stride)
                            by (nonlinear_arith)
                            requires
                                py < height,
                                px < width,
                                4 * width <= stride,
                                stride >= 1,
                        ;
                    }
                    let idx = (py as usize) * stride + (px as usize) * 4;
                    if idx + 4 <= n {
                        buffer[idx] = color[0];
                        buffer[idx + 1] = color[1];
                        buffer[idx + 2] = color[2];
                        buffer[idx + 3] = color[3];
                    }
                }
                proof {
                    lemma_bar_extend_col(
                        rows_done,
                        width as nat,
                        height as nat,
                        stride as nat,
                        start_x as nat,
                        py as nat,
                        x as nat,
                        cs,
                    );
                    assert(buffer@ =~= bar_region_spec(
                        rows_done,
                        width as nat,
                        height as nat,
                        stride as nat,
                        start_x as nat,
                        py as nat,
                        (x + 1) as nat,
                        1,
                        cs,
                    ));
                }
                x = x + 1;
            }
        }
        proof {
            let st = stride as int;
            assert forall|i: int| 0 <= i < n implies buffer@[i] == bar_region_spec(
                orig,
                width as nat,
                height as nat,
                stride as nat,
                start_x as nat,
                start_y as nat,
                2,
                (y + 1) as nat,
                cs,
            )[i] by {
                vstd::arithmetic::div_mod::lemma_mod_bound(i, st);
                vstd::arithmetic::div_mod::lemma_mod_bound(i % st, 4);
            }
            assert(buffer@ =~= bar_region_spec(
                orig,
                width as nat,
                height as nat,
                stride as nat,
                start_x as nat,
                start_y as nat,
                2,
                (y + 1) as nat,
                cs,
            ));
        }
        y = y + 1;
    }
}

} // verus!
