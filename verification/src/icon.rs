//! Pixel drawing over a row-major RGBA byte buffer: single pixels, filled
//! rectangles clipped to the buffer, and a tiny bitmap glyph; together they
//! compose the window icon. Every operation is total: what falls outside
//! the buffer is simply not drawn.

use vstd::arithmetic::div_mod::lemma_fundamental_div_mod_converse;
use vstd::prelude::*;

verus! {

/// Byte index of pixel (x, y) in a row-major RGBA buffer `width` pixels
/// wide.
pub open spec fn pixel_byte_index(width: nat, x: nat, y: nat) -> int {
    (y * width + x) * 4 as int
}

/// The buffer with pixel (x, y) set to `color`, when its four bytes fit;
/// otherwise the buffer unchanged.
pub open spec fn set_pixel_spec(buf: Seq<u8>, width: nat, x: nat, y: nat, color: Seq<u8>) -> Seq<
    u8,
> {
    let idx = pixel_byte_index(width, x, y);
    if idx + 4 <= buf.len() {
        Seq::new(buf.len(), |i: int| if idx <= i < idx + 4 { color[i - idx] } else { buf[i] })
    } else {
        buf
    }
}

/// Whether pixel number `p` of the buffer lies in the rectangle: its column
/// inside [x, x+w) and the row width, its row inside [y, y+h).
pub open spec fn pixel_in_rect(width: nat, x: nat, y: nat, w: nat, h: nat, p: int) -> bool {
    let px = p % (width as int);
    let py = p / (width as int);
    &&& x <= px < x + w
    &&& y <= py < y + h
}

/// The buffer with the rectangle filled: every byte of every wholly
/// contained pixel of the rectangle takes the matching color component;
/// everything else keeps its value.
pub open spec fn fill_rect_spec(
    buf: Seq<u8>,
    width: nat,
    x: nat,
    y: nat,
    w: nat,
    h: nat,
    color: Seq<u8>,
) -> Seq<u8> {
    if width == 0 {
        buf
    } else {
        Seq::new(
            buf.len(),
            |i: int|
                {
                    let p = i / 4;
                    if pixel_in_rect(width, x, y, w, h, p) && 4 * p + 4 <= buf.len() {
                        color[i % 4]
                    } else {
                        buf[i]
                    }
                },
        )
    }
}

/// A zero-width or zero-height rectangle changes nothing.
proof fn lemma_fill_rect_empty(buf: Seq<u8>, width: nat, x: nat, y: nat, w: nat, h: nat, color: Seq<u8>)
    requires
        w == 0 || h == 0,
    ensures
        fill_rect_spec(buf, width, x, y, w, h, color) == buf,
{
    if width > 0 {
        assert(fill_rect_spec(buf, width, x, y, w, h, color) =~= buf);
    }
}

/// Widening a rectangle beyond the row width draws nothing more: only the
/// clip against the row matters.
proof fn lemma_fill_rect_clip(
    buf: Seq<u8>,
    width: nat,
    x: nat,
    y: nat,
    w1: nat,
    w2: nat,
    h: nat,
    color: Seq<u8>,
)
    requires
        x + w1 >= width,
        x + w2 >= width,
    ensures
        fill_rect_spec(buf, width, x, y, w1, h, color) == fill_rect_spec(
            buf,
            width,
            x,
            y,
            w2,
            h,
            color,
        ),
    decreases width,
{
    if width > 0 {
        assert forall|i: int|
            0 <= i < buf.len() implies fill_rect_spec(buf, width, x, y, w1, h, color)[i]
            == fill_rect_spec(buf, width, x, y, w2, h, color)[i] by {
            let p = i / 4;
            vstd::arithmetic::div_mod::lemma_mod_bound(p, width as int);
        }
        assert(fill_rect_spec(buf, width, x, y, w1, h, color) =~= fill_rect_spec(
            buf,
            width,
            x,
            y,
            w2,
            h,
            color,
        ));
    }
}

/// Setting the pixel one past a one-row fill extends the fill by one
/// column.
proof fn lemma_fill_rect_extend_col(
    buf: Seq<u8>,
    width: nat,
    x: nat,
    y: nat,
    k: nat,
    color: Seq<u8>,
)
    requires
        width > 0,
        x + k < width,
    ensures
        set_pixel_spec(
            fill_rect_spec(buf, width, x, y, k, 1, color),
            width,
            (x + k) as nat,
            y,
            color,
        ) == fill_rect_spec(buf, width, x, y, (k + 1) as nat, 1, color),
{
    let base = fill_rect_spec(buf, width, x, y, k, 1, color);
    let p0: int = y * width + x as int + k;
    lemma_fundamental_div_mod_converse(p0, width as int, y as int, (x + k) as int);
    let lhs = set_pixel_spec(base, width, (x + k) as nat, y, color);
    let rhs = fill_rect_spec(buf, width, x, y, (k + 1) as nat, 1, color);
    let idx = pixel_byte_index(width, (x + k) as nat, y);
    assert(idx == 4 * p0) by (nonlinear_arith)
        requires
            idx == p0 * 4,
    ;
    assert(base.len() == buf.len());
    assert forall|i: int| 0 <= i < buf.len() implies lhs[i] == rhs[i] by {
        let p = i / 4;
        vstd::arithmetic::div_mod::lemma_fundamental_div_mod(i, 4);
        vstd::arithmetic::div_mod::lemma_mod_bound(i, 4);
        vstd::arithmetic::div_mod::lemma_mod_bound(p, width as int);
        vstd::arithmetic::div_mod::lemma_fundamental_div_mod(p, width as int);
        let px = p % (width as int);
        let py = p / (width as int);
        assert(p == py * width + px) by (nonlinear_arith)
            requires
                p == (width as int) * py + px,
        ;
        assert(i == 4 * p + i % 4) by (nonlinear_arith)
            requires
                i == 4 * (i / 4) + i % 4,
                p == i / 4,
        ;
        if idx <= i < idx + 4 {
            assert(p == p0) by (nonlinear_arith)
                requires
                    i == 4 * p + i % 4,
                    0 <= i % 4 < 4,
                    idx == 4 * p0,
                    idx <= i < idx + 4,
            ;
            assert(px == x + k && py == y);
            assert(i % 4 == i - idx);
        } else {
            if px == x + k && py == y {
                assert(p == p0);
                assert(4 * p <= i < 4 * p + 4);
                assert(false);
            }
        }
    }
    assert(lhs =~= rhs);
}

/// Filling the row just below a rectangle extends it by one row.
proof fn lemma_fill_rect_extend_row(
    buf: Seq<u8>,
    width: nat,
    x: nat,
    y: nat,
    w: nat,
    h: nat,
    color: Seq<u8>,
)
    requires
        width > 0,
    ensures
        fill_rect_spec(
            fill_rect_spec(buf, width, x, y, w, h, color),
            width,
            x,
            (y + h) as nat,
            w,
            1,
            color,
        ) == fill_rect_spec(buf, width, x, y, w, (h + 1) as nat, color),
{
    let base = fill_rect_spec(buf, width, x, y, w, h, color);
    let lhs = fill_rect_spec(base, width, x, (y + h) as nat, w, 1, color);
    let rhs = fill_rect_spec(buf, width, x, y, w, (h + 1) as nat, color);
    assert(base.len() == buf.len());
    assert forall|i: int| 0 <= i < buf.len() implies lhs[i] == rhs[i] by {
        let p = i / 4;
        vstd::arithmetic::div_mod::lemma_mod_bound(p, width as int);
    }
    assert(lhs =~= rhs);
}

/// Sets one pixel of the buffer, doing nothing when its four bytes fall
/// outside.
pub fn set_pixel(buffer: &mut Vec<u8>, width: u32, x: u32, y: u32, color: [u8; 4])
    requires
        (y * width + x) * 4 + 4 <= u32::MAX,
    ensures
        final(buffer)@ == set_pixel_spec(old(buffer)@, width as nat, x as nat, y as nat, color@),
{
    let idx = ((y * width + x) as usize) * 4;
    if idx + 4 <= buffer.len() {
        buffer[idx] = color[0];
        buffer[idx + 1] = color[1];
        buffer[idx + 2] = color[2];
        buffer[idx + 3] = color[3];
        proof {
            assert(buffer@ =~= set_pixel_spec(
                old(buffer)@,
                width as nat,
                x as nat,
                y as nat,
                color@,
            ));
        }
    }
}

/// Fills a rectangle of the buffer with one color, clipped to the row
/// width and to the buffer's extent.
pub fn fill_rect(
    buffer: &mut Vec<u8>,
    width: u32,
    x: u32,
    y: u32,
    rect_w: u32,
    rect_h: u32,
    color: [u8; 4],
)
    requires
        x + rect_w <= u32::MAX,
        y + rect_h <= u32::MAX,
        ((y + rect_h) * width + width) * 4 + 4 <= u32::MAX,
    ensures
        final(buffer)@ == fill_rect_spec(
            old(buffer)@,
            width as nat,
            x as nat,
            y as nat,
            rect_w as nat,
            rect_h as nat,
            color@,
        ),
{
    let ghost orig = buffer@;
    if width == 0 {
        return ;
    }
    let max_x = if x + rect_w < width {
        x + rect_w
    } else {
        width
    };
    let end_x = if max_x > x {
        max_x
    } else {
        x
    };
    let mut py: u32 = y;
    proof {
        lemma_fill_rect_empty(orig, width as nat, x as nat, y as nat, rect_w as nat, 0, color@);
    }
    while py < y + rect_h
        invariant
            width > 0,
            x + rect_w <= u32::MAX,
            y + rect_h <= u32::MAX,
            ((y + rect_h) * width + width) * 4 + 4 <= u32::MAX,
            max_x == if x + rect_w < width { (x + rect_w) as int } else { width as int },
            end_x == if max_x > x { max_x as int } else { x as int },
            y <= py <= y + rect_h,
            buffer@ == fill_rect_spec(
                orig,
                width as nat,
                x as nat,
                y as nat,
                rect_w as nat,
                (py - y) as nat,
                color@,
            ),
        decreases y + rect_h - py,
    {
        let ghost rows_done = fill_rect_spec(
            orig,
            width as nat,
            x as nat,
            y as nat,
            rect_w as nat,
            (py - y) as nat,
            color@,
        );
        let mut px: u32 = x;
        proof {
            lemma_fill_rect_empty(rows_done, width as nat, x as nat, py as nat, 0, 1, color@);
        }
        while px < end_x
            invariant
                width > 0,
                x + rect_w <= u32::MAX,
                y + rect_h <= u32::MAX,
                ((y + rect_h) * width + width) * 4 + 4 <= u32::MAX,
                max_x == if x + rect_w < width { (x + rect_w) as int } else { width as int },
                end_x == if max_x > x { max_x as int } else { x as int },
                max_x <= width,
                y <= py < y + rect_h,
                x <= px <= end_x,
                rows_done == fill_rect_spec(
                    orig,
                    width as nat,
                    x as nat,
                    y as nat,
                    rect_w as nat,
                    (py - y) as nat,
                    color@,
                ),
                buffer@ == fill_rect_spec(
                    rows_done,
                    width as nat,
                    x as nat,
                    py as nat,
                    (px - x) as nat,
                    1,
                    color@,
                ),
            decreases end_x - px,
        {
            proof {
                assert((py * width + px) * 4 + 4 <= ((y + rect_h) * width + width) * 4 + 4)
                    by (nonlinear_arith)
                    requires
                        py < y + rect_h,
                        px < width,
                        width > 0,
                ;
                lemma_fill_rect_extend_col(
                    rows_done,
                    width as nat,
                    x as nat,
                    py as nat,
                    (px - x) as nat,
                    color@,
                );
            }
            set_pixel(buffer, width, px, py, color);
            px = px + 1;
        }
        proof {
            if max_x > x {
                if x + rect_w >= width {
                    lemma_fill_rect_clip(
                        rows_done,
                        width as nat,
                        x as nat,
                        py as nat,
                        (max_x - x) as nat,
                        rect_w as nat,
                        1,
                        color@,
                    );
                }
            } else {
                if rect_w > 0 {
                    lemma_fill_rect_clip(
                        rows_done,
                        width as nat,
                        x as nat,
                        py as nat,
                        0,
                        rect_w as nat,
                        1,
                        color@,
                    );
                }
            }
            lemma_fill_rect_extend_row(
                orig,
                width as nat,
                x as nat,
                y as nat,
                rect_w as nat,
                (py - y) as nat,
                color@,
            );
        }
        py = py + 1;
    }
}

/// The buffer after drawing the first `upto` cells of one glyph row: each
/// cell marked '1' is a scale-by-scale square, `scale` apart.
pub open spec fn glyph_row_spec(
    buf: Seq<u8>,
    width: nat,
    x: nat,
    y: nat,
    line: Seq<char>,
    upto: int,
    scale: nat,
    color: Seq<u8>,
) -> Seq<u8>
    decreases upto,
{
    if upto <= 0 {
        buf
    } else {
        let b = glyph_row_spec(buf, width, x, y, line, upto - 1, scale, color);
        if line[upto - 1] == '1' {
            fill_rect_spec(b, width, (x + (upto - 1) * scale) as nat, y, scale, scale, color)
        } else {
            b
        }
    }
}

/// The buffer after drawing the first `upto` rows of a glyph.
pub open spec fn glyph_spec(
    buf: Seq<u8>,
    width: nat,
    x: nat,
    y: nat,
    glyph: Seq<Seq<char>>,
    upto: int,
    scale: nat,
    color: Seq<u8>,
) -> Seq<u8>
    decreases upto,
{
    if upto <= 0 {
        buf
    } else {
        let b = glyph_spec(buf, width, x, y, glyph, upto - 1, scale, color);
        glyph_row_spec(
            b,
            width,
            x,
            (y + (upto - 1) * scale) as nat,
            glyph[upto - 1],
            glyph[upto - 1].len() as int,
            scale,
            color,
        )
    }
}

/// The rows of a seven-row glyph, as character sequences.
pub open spec fn glyph_rows(glyph: Seq<&str>) -> Seq<Seq<char>> {
    Seq::new(glyph.len(), |r: int| glyph[r]@)
}

/// Draws a seven-row bitmap glyph: every cell marked '1' becomes a filled
/// scale-by-scale square, clipped to the buffer like any fill.
pub fn draw_glyph(
    buffer: &mut Vec<u8>,
    width: u32,
    x: u32,
    y: u32,
    glyph: &[&str; 7],
    scale: u32,
    color: [u8; 4],
)
    requires
        forall|r: int| 0 <= r < 7 ==> (#[trigger] glyph@[r])@.len() <= 8,
        x + 8 * scale <= u32::MAX,
        y + 8 * scale <= u32::MAX,
        ((y + 8 * scale) * width + width) * 4 + 4 <= u32::MAX,
    ensures
        final(buffer)@ == glyph_spec(
            old(buffer)@,
            width as nat,
            x as nat,
            y as nat,
            glyph_rows(glyph@),
            7,
            scale as nat,
            color@,
        ),
{
    let ghost orig = buffer@;
    let ghost rows = glyph_rows(glyph@);
    let mut row: usize = 0;
    while row < 7
        invariant
            forall|r: int| 0 <= r < 7 ==> (#[trigger] glyph@[r])@.len() <= 8,
            x + 8 * scale <= u32::MAX,
            y + 8 * scale <= u32::MAX,
            ((y + 8 * scale) * width + width) * 4 + 4 <= u32::MAX,
            rows == glyph_rows(glyph@),
            row <= 7,
            buffer@ == glyph_spec(
                orig,
                width as nat,
                x as nat,
                y as nat,
                rows,
                row as int,
                scale as nat,
                color@,
            ),
        decreases 7 - row,
    {
        let line: &str = glyph[row];
        let ghost row_base = glyph_spec(
            orig,
            width as nat,
            x as nat,
            y as nat,
            rows,
            row as int,
            scale as nat,
            color@,
        );
        let line_len = line.unicode_len();
        proof {
            assert((row as u32) * scale + scale <= 8 * scale) by (nonlinear_arith)
                requires
                    row < 7,
                    scale >= 0,
            ;
        }
        let py = y + (row as u32) * scale;
        let mut col: usize = 0;
        while col < line_len
            invariant
                forall|r: int| 0 <= r < 7 ==> (#[trigger] glyph@[r])@.len() <= 8,
                x + 8 * scale <= u32::MAX,
                y + 8 * scale <= u32::MAX,
                ((y + 8 * scale) * width + width) * 4 + 4 <= u32::MAX,
                rows == glyph_rows(glyph@),
                row < 7,
                line@ == rows[row as int],
                line_len == line@.len(),
                py == y + row * scale,
                py + scale <= y + 8 * scale,
                col <= line_len,
                buffer@ == glyph_row_spec(
                    row_base,
                    width as nat,
                    x as nat,
                    py as nat,
                    line@,
                    col as int,
                    scale as nat,
                    color@,
                ),
            decreases line_len - col,
        {
            let ch = line.get_char(col);
            if ch == '1' {
                proof {
                    assert((col as u32) * scale + scale <= 8 * scale) by (nonlinear_arith)
                        requires
                            col < 8,
                            scale >= 0,
                    ;
                    assert(((py + scale) * width + width) * 4 + 4 <= ((y + 8 * scale) * width
                        + width) * 4 + 4) by (nonlinear_arith)
                        requires
                            py + scale <= y + 8 * scale,
                            width >= 0,
                    ;
                }
                let px = x + (col as u32) * scale;
                fill_rect(buffer, width, px, py, scale, scale, color);
            }
            col = col + 1;
        }
        row = row + 1;
    }
}

/// The greater-than prompt glyph, row by row.
pub open spec fn glyph_gt_rows() -> Seq<Seq<char>> {
    seq![
        seq!['1', '0', '0', '0', '0'],
        seq!['0', '1', '0', '0', '0'],
        seq!['0', '0', '1', '0', '0'],
        seq!['0', '1', '0', '0', '0'],
        seq!['1', '0', '0', '0', '0'],
        seq!['0', '0', '0', '0', '0'],
        seq!['0', '0', '0', '0', '0'],
    ]
}

/// The underscore cursor glyph, row by row.
pub open spec fn glyph_underscore_rows() -> Seq<Seq<char>> {
    seq![
        seq!['0', '0', '0', '0', '0'],
        seq!['0', '0', '0', '0', '0'],
        seq!['0', '0', '0', '0', '0'],
        seq!['0', '0', '0', '0', '0'],
        seq!['0', '0', '0', '0', '0'],
        seq!['1', '1', '1', '1', '1'],
        seq!['0', '0', '0', '0', '0'],
    ]
}

/// The terminal icon, by construction: over a dark background, a title bar
/// with three accent squares, and a prompt (greater-than and underscore)
/// drawn as scaled glyphs.
pub open spec fn icon_spec(width: nat, height: nat) -> Seq<u8> {
    let blank = Seq::new(width * height * 4, |i: int| 0u8);
    let b1 = fill_rect_spec(blank, width, 0, 0, width, height, seq![12u8, 16u8, 22u8, 255u8]);
    let bar_h = if height / 5 as nat > 8 { height / 5 as nat } else { 8 as nat };
    let b2 = fill_rect_spec(b1, width, 0, 0, width, bar_h, seq![20u8, 26u8, 34u8, 255u8]);
    let asz = if height / 10 as nat > 4 { height / 10 as nat } else { 4 as nat };
    let ay = if bar_h / 2 as nat >= asz / 2 as nat {
        (bar_h / 2 as nat - asz / 2 as nat) as nat
    } else {
        0 as nat
    };
    let gap = (asz + (if asz / 2 as nat > 2 { asz / 2 as nat } else { 2 as nat })) as nat;
    let b3 = fill_rect_spec(b2, width, asz, ay, asz, asz, seq![80u8, 160u8, 255u8, 255u8]);
    let b4 = fill_rect_spec(b3, width, (asz + gap) as nat, ay, asz, asz, seq![60u8, 210u8, 120u8, 255u8]);
    let b5 = fill_rect_spec(b4, width, (asz + 2 * gap) as nat, ay, asz, asz, seq![255u8, 208u8, 90u8, 255u8]);
    let gsc = if height / 12 as nat > 3 { height / 12 as nat } else { 3 as nat };
    let b6 = glyph_spec(
        b5,
        width,
        width / 4 as nat,
        height / 3 as nat,
        glyph_gt_rows(),
        7,
        gsc,
        seq![220u8, 240u8, 250u8, 255u8],
    );
    glyph_spec(
        b6,
        width,
        width / 2 as nat,
        (height / 3 as nat + gsc) as nat,
        glyph_underscore_rows(),
        7,
        gsc,
        seq![220u8, 240u8, 250u8, 255u8],
    )
}

/// Drawing a glyph row never changes the buffer's length.
proof fn lemma_glyph_row_spec_len(
    buf: Seq<u8>,
    width: nat,
    x: nat,
    y: nat,
    line: Seq<char>,
    upto: int,
    scale: nat,
    color: Seq<u8>,
)
    ensures
        glyph_row_spec(buf, width, x, y, line, upto, scale, color).len() == buf.len(),
    decreases upto,
{
    if upto > 0 {
        lemma_glyph_row_spec_len(buf, width, x, y, line, upto - 1, scale, color);
    }
}

/// Drawing a glyph never changes the buffer's length.
proof fn lemma_glyph_spec_len(
    buf: Seq<u8>,
    width: nat,
    x: nat,
    y: nat,
    glyph: Seq<Seq<char>>,
    upto: int,
    scale: nat,
    color: Seq<u8>,
)
    ensures
        glyph_spec(buf, width, x, y, glyph, upto, scale, color).len() == buf.len(),
    decreases upto,
{
    if upto > 0 {
        lemma_glyph_spec_len(buf, width, x, y, glyph, upto - 1, scale, color);
        lemma_glyph_row_spec_len(
            glyph_spec(buf, width, x, y, glyph, upto - 1, scale, color),
            width,
            x,
            (y + (upto - 1) * scale) as nat,
            glyph[upto - 1],
            glyph[upto - 1].len() as int,
            scale,
            color,
        );
    }
}

/// Builds the window icon as a row-major RGBA buffer of the given pixel
/// size.
pub fn make_terminal_icon_rgba(width: u32, height: u32) -> (r: Vec<u8>)
    requires
        0 < width <= 16384,
        0 < height <= 16384,
    ensures
        r@ == icon_spec(width as nat, height as nat),
        r@.len() == width * height * 4,
{
    proof {
        assert(width * height * 4 <= 0x40000000 && (height * width + width) * 4 + 4
            <= 0xFFFFFFFF) by (nonlinear_arith)
            requires
                0 < width <= 16384,
                0 < height <= 16384,
        ;
    }
    let n = (width * height * 4) as usize;
    let mut buffer: Vec<u8> = Vec::new();
    while buffer.len() < n
        invariant
            buffer@.len() <= n,
            forall|i: int| 0 <= i < buffer@.len() ==> buffer@[i] == 0u8,
        decreases n - buffer@.len(),
    {
        buffer.push(0u8);
    }
    proof {
        assert(buffer@ =~= Seq::new((width * height * 4) as nat, |i: int| 0u8));
    }

    let bg: [u8; 4] = [12u8, 16u8, 22u8, 255u8];
    fill_rect(&mut buffer, width, 0, 0, width, height, bg);
    proof {
        assert(bg@ =~= seq![12u8, 16u8, 22u8, 255u8]);
    }

    let bar: [u8; 4] = [20u8, 26u8, 34u8, 255u8];
    let fifth = height / 5;
    let bar_height = if fifth > 8 {
        fifth
    } else {
        8
    };
    proof {
        assert((0 + bar_height) * width + width <= 16393 * 16384) by (nonlinear_arith)
            requires
                bar_height <= 16392,
                0 < width <= 16384,
        ;
        assert(bar@ =~= seq![20u8, 26u8, 34u8, 255u8]);
    }
    fill_rect(&mut buffer, width, 0, 0, width, bar_height, bar);

    let accent: [u8; 4] = [80u8, 160u8, 255u8, 255u8];
    let tenth = height / 10;
    let accent_size = if tenth > 4 {
        tenth
    } else {
        4
    };
    let accent_y = (bar_height / 2).saturating_sub(accent_size / 2);
    let half = accent_size / 2;
    let accent_gap = accent_size + (if half > 2 {
        half
    } else {
        2
    });
    proof {
        assert((accent_y + accent_size) * width + width <= 20000 * 16384) by (nonlinear_arith)
            requires
                accent_y <= 8196,
                accent_size <= 1642,
                0 < width <= 16384,
        ;
        assert(accent@ =~= seq![80u8, 160u8, 255u8, 255u8]);
    }
    fill_rect(&mut buffer, width, accent_size, accent_y, accent_size, accent_size, accent);
    let green: [u8; 4] = [60u8, 210u8, 120u8, 255u8];
    proof {
        assert(green@ =~= seq![60u8, 210u8, 120u8, 255u8]);
    }
    fill_rect(
        &mut buffer,
        width,
        accent_size + accent_gap,
        accent_y,
        accent_size,
        accent_size,
        green,
    );
    let yellow: [u8; 4] = [255u8, 208u8, 90u8, 255u8];
    proof {
        assert(yellow@ =~= seq![255u8, 208u8, 90u8, 255u8]);
    }
    fill_rect(
        &mut buffer,
        width,
        accent_size + accent_gap * 2,
        accent_y,
        accent_size,
        accent_size,
        yellow,
    );

    let prompt: [u8; 4] = [220u8, 240u8, 250u8, 255u8];
    let twelfth = height / 12;
    let glyph_scale = if twelfth > 3 {
        twelfth
    } else {
        3
    };
    let gt: [&str; 7] = ["10000", "01000", "00100", "01000", "10000", "00000", "00000"];
    let underscore: [&str; 7] = ["00000", "00000", "00000", "00000", "00000", "11111", "00000"];
    proof {
        reveal_strlit("10000");
        reveal_strlit("01000");
        reveal_strlit("00100");
        reveal_strlit("00000");
        reveal_strlit("11111");
        assert(prompt@ =~= seq![220u8, 240u8, 250u8, 255u8]);
        assert(glyph_rows(gt@) =~~= glyph_gt_rows());
        assert(glyph_rows(underscore@) =~~= glyph_underscore_rows());
        assert((height / 3 + glyph_scale) + 8 * glyph_scale <= 20294) by (nonlinear_arith)
            requires
                height <= 16384,
                glyph_scale <= 1366,
        ;
        assert((height / 3 + glyph_scale + 8 * glyph_scale) * width + width <= 20295 * 16384)
            by (nonlinear_arith)
            requires
                height / 3 + glyph_scale + 8 * glyph_scale <= 20294,
                0 < width <= 16384,
        ;
        assert((height / 3 + 8 * glyph_scale) * width + width <= 20295 * 16384)
            by (nonlinear_arith)
            requires
                height / 3 + 8 * glyph_scale <= 20294,
                0 < width <= 16384,
        ;
    }
    draw_glyph(&mut buffer, width, width / 4, height / 3, &gt, glyph_scale, prompt);
    draw_glyph(
        &mut buffer,
        width,
        width / 2,
        height / 3 + glyph_scale,
        &underscore,
        glyph_scale,
        prompt,
    );

    proof {
        let w = width as nat;
        let h = height as nat;
        let blank = Seq::new(w * h * 4, |i: int| 0u8);
        let b1 = fill_rect_spec(blank, w, 0, 0, w, h, seq![12u8, 16u8, 22u8, 255u8]);
        let bar_h = if h / 5 as nat > 8 { h / 5 as nat } else { 8 as nat };
        let b2 = fill_rect_spec(b1, w, 0, 0, w, bar_h, seq![20u8, 26u8, 34u8, 255u8]);
        let asz = if h / 10 as nat > 4 { h / 10 as nat } else { 4 as nat };
        let ay = if bar_h / 2 as nat >= asz / 2 as nat {
            (bar_h / 2 as nat - asz / 2 as nat) as nat
        } else {
            0 as nat
        };
        let gap = (asz + (if asz / 2 as nat > 2 { asz / 2 as nat } else { 2 as nat })) as nat;
        let b3 = fill_rect_spec(b2, w, asz, ay, asz, asz, seq![80u8, 160u8, 255u8, 255u8]);
        let b4 = fill_rect_spec(b3, w, (asz + gap) as nat, ay, asz, asz, seq![60u8, 210u8, 120u8, 255u8]);
        let b5 = fill_rect_spec(b4, w, (asz + 2 * gap) as nat, ay, asz, asz, seq![255u8, 208u8, 90u8, 255u8]);
        let gsc = if h / 12 as nat > 3 { h / 12 as nat } else { 3 as nat };
        let b6 = glyph_spec(b5, w, w / 4 as nat, h / 3 as nat, glyph_gt_rows(), 7, gsc, seq![220u8, 240u8, 250u8, 255u8]);
        lemma_glyph_spec_len(b5, w, w / 4 as nat, h / 3 as nat, glyph_gt_rows(), 7, gsc, seq![220u8, 240u8, 250u8, 255u8]);
        lemma_glyph_spec_len(
            b6,
            w,
            w / 2 as nat,
            (h / 3 as nat + gsc) as nat,
            glyph_underscore_rows(),
            7,
            gsc,
            seq![220u8, 240u8, 250u8, 255u8],
        );
    }

    buffer
}

} // verus!
