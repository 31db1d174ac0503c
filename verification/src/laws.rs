//! General properties of the display buffer, stated over its mathematical
//! model and proved once and for all: render dimensions after a resize,
//! auto-wrap of a full printed row, how line feeds grow the scrollback up to
//! its cap, preservation of the overlap rectangle across a resize, the
//! clamping behaviour of the view offset, and the anchoring of a
//! scrolled-back view while output keeps arriving.

use vstd::math::{max, min};
use vstd::prelude::*;

use crate::screen::ScreenView;
use crate::vt::VtEvent;

verus! {

/// The print operation for position `i` of a run of characters.
pub open spec fn print_at(cs: Seq<char>, i: int) -> VtEvent {
    VtEvent::Print(cs[i])
}

/// The print operations for a run of characters, in order.
pub open spec fn prints(cs: Seq<char>) -> Seq<VtEvent> {
    Seq::new(cs.len(), |i: int| print_at(cs, i))
}

/// A run of `n` line feeds.
pub open spec fn newlines(n: nat) -> Seq<VtEvent> {
    Seq::new(n, |i: int| VtEvent::Newline)
}

/// Whether every live grid cell is empty.
pub open spec fn all_blank(v: ScreenView) -> bool {
    forall|i: int| 0 <= i < v.cells.len() ==> v.cells[i] == ' '
}

/// The buffer with the cursor's row overwritten by `cs` and the cursor
/// returned to column zero.
pub open spec fn row_written(v: ScreenView, cs: Seq<char>) -> ScreenView {
    let base = v.cell_index(0, v.cursor_row);
    ScreenView {
        cells: Seq::new(
            v.cells.len(),
            |i: int| if base <= i < base + v.cols { cs[i - base] } else { v.cells[i] },
        ),
        cursor_col: 0,
        ..v
    }
}

/// Resizing keeps the buffer well-formed, for every valid target size,
/// larger or smaller in either dimension, down to a 1-by-1 grid.
pub proof fn lemma_resized_wf(v: ScreenView, cols2: nat, rows2: nat)
    requires
        v.wf(),
        0 < cols2 <= u16::MAX,
        0 < rows2 <= u16::MAX,
    ensures
        v.resized(cols2, rows2).wf(),
{
}

/// For every valid size, a resize followed by a render query yields exactly
/// rows * cols characters.
pub proof fn lemma_resize_render_dimensions(v: ScreenView, cols2: nat, rows2: nat)
    requires
        v.wf(),
        0 < cols2 <= u16::MAX,
        0 < rows2 <= u16::MAX,
    ensures
        v.resized(cols2, rows2).render().len() == rows2 * cols2,
{
}

/// A resize preserves the top-left min(old, new) rectangle of grid content:
/// every cell inside the overlap holds the character it held before.
pub proof fn lemma_resize_preserves_overlap(
    v: ScreenView,
    cols2: nat,
    rows2: nat,
    r: int,
    c: int,
)
    requires
        v.wf(),
        0 < cols2 <= u16::MAX,
        0 < rows2 <= u16::MAX,
        0 <= r < min(v.rows as int, rows2 as int),
        0 <= c < min(v.cols as int, cols2 as int),
    ensures
        v.resized(cols2, rows2).cells[r * cols2 + c] == v.cells[r * v.cols + c],
{
    crate::screen::lemma_cell_index_bound(c, r, cols2 as int, rows2 as int);
    vstd::arithmetic::div_mod::lemma_fundamental_div_mod_converse(
        r * cols2 + c,
        cols2 as int,
        r,
        c,
    );
}

/// Resizing to the size the buffer already has changes nothing, so a
/// resize request for the current size may skip the work.
pub proof fn lemma_resize_same_size_identity(v: ScreenView)
    requires
        v.wf(),
    ensures
        v.resized(v.cols, v.rows) == v,
{
    let w = v.resized(v.cols, v.rows);
    let cols = v.cols as int;
    let rows = v.rows as int;
    assert forall|i: int| 0 <= i < w.cells.len() implies w.cells[i] == v.cells[i] by {
        vstd::arithmetic::div_mod::lemma_fundamental_div_mod(i, cols);
        vstd::arithmetic::div_mod::lemma_mod_bound(i, cols);
        let q = i / cols;
        let m = i % cols;
        assert(q < rows && q * cols + m == i) by (nonlinear_arith)
            requires
                i == cols * q + m,
                0 <= m < cols,
                0 <= i < cols * rows,
                cols > 0,
        ;
    }
    assert(w.cells =~= v.cells);
    assert forall|l: int| 0 <= l < w.scrollback.len() implies w.scrollback[l] == v.scrollback[l] by {
        assert(v.scrollback[l].len() == v.cols);
        assert(w.scrollback[l] =~= v.scrollback[l]);
    }
    assert(w.scrollback =~= v.scrollback);
    assert(w =~~= v);
}

/// The view offset never leaves [0, scrollback length], whatever delta a
/// scroll request carries.
pub proof fn lemma_scroll_view_clamps(offset: int, delta: int, len: int)
    requires
        0 <= offset <= len,
    ensures
        0 <= ScreenView::clamped_offset(offset, delta, len) <= len,
{
}

/// Once a scroll request has clamped the offset at either bound, repeating
/// the same request leaves the offset where it is.
pub proof fn lemma_scroll_view_idempotent_at_bounds(offset: int, delta: int, len: int)
    requires
        0 <= offset <= len,
    ensures
        ({
            let once = ScreenView::clamped_offset(offset, delta, len);
            (once == 0 || once == len) ==> ScreenView::clamped_offset(once, delta, len) == once
        }),
{
}

/// A run of prints splits off its last operation.
proof fn lemma_prints_snoc(cs: Seq<char>, k: int)
    requires
        0 <= k,
        cs.len() == k + 1,
    ensures
        prints(cs) == prints(cs.take(k)).push(print_at(cs, k)),
{
    let e = print_at(cs, k);
    let p = prints(cs.take(k));
    assert(cs.take(k).len() == k);
    assert(p.len() == k);
    assert forall|i: int| 0 <= i < cs.len() implies prints(cs)[i] == p.push(e)[i] by {
        if i < k {
            assert(cs.take(k)[i] == cs[i]);
            assert(p.push(e)[i] == p[i]);
        } else {
            assert(i == k);
        }
    }
    assert(prints(cs) =~= p.push(e));
}

/// After printing the first `k` characters of a full row from column zero,
/// the first `k` cells of the cursor's row hold them and the cursor sits in
/// column `k`; no wrap has happened yet.
proof fn lemma_print_row_prefix(v: ScreenView, cs: Seq<char>, k: int)
    requires
        v.wf(),
        v.cursor_col == 0,
        cs.len() == v.cols,
        0 <= k < v.cols,
    ensures
        v.after_events(prints(cs.take(k))) == (ScreenView {
            cells: Seq::new(
                v.cells.len(),
                |i: int|
                    {
                        let base = v.cell_index(0, v.cursor_row);
                        if base <= i < base + k {
                            cs[i - base]
                        } else {
                            v.cells[i]
                        }
                    },
            ),
            cursor_col: k as nat,
            ..v
        }),
    decreases k,
{
    let base = v.cell_index(0, v.cursor_row);
    crate::screen::lemma_cell_index_bound(0, v.cursor_row as int, v.cols as int, v.rows as int);
    if k == 0 {
        assert(prints(cs.take(0)) =~= Seq::<VtEvent>::empty());
        assert(v.after_events(prints(cs.take(0))) =~~= (ScreenView {
            cells: Seq::new(
                v.cells.len(),
                |i: int| if base <= i < base + 0 { cs[i - base] } else { v.cells[i] },
            ),
            cursor_col: 0,
            ..v
        }));
    } else {
        lemma_print_row_prefix(v, cs, k - 1);
        let w = v.after_events(prints(cs.take(k - 1)));
        lemma_prints_snoc(cs.take(k), k - 1);
        assert(cs.take(k).take(k - 1) =~= cs.take(k - 1));
        assert(cs.take(k)[k - 1] == cs[k - 1]);
        crate::screen::lemma_after_events_push(
            v,
            prints(cs.take(k - 1)),
            print_at(cs.take(k), k - 1),
        );
        assert(print_at(cs.take(k), k - 1) == VtEvent::Print(cs[k - 1]));
        crate::screen::lemma_cell_index_bound(
            k - 1,
            v.cursor_row as int,
            v.cols as int,
            v.rows as int,
        );
        assert(w.after_print(cs[k - 1]) =~~= (ScreenView {
            cells: Seq::new(
                v.cells.len(),
                |i: int| if base <= i < base + k { cs[i - base] } else { v.cells[i] },
            ),
            cursor_col: k as nat,
            ..v
        }));
    }
}

/// Printing exactly cols characters from column zero writes them into the
/// cursor's row and auto-wraps: the result is the same as overwriting that
/// row and then applying one line feed. In particular the cursor ends at
/// column zero of the next row (or stays on the last row after a scroll).
pub proof fn lemma_full_row_print_wraps(v: ScreenView, cs: Seq<char>)
    requires
        v.wf(),
        v.cursor_col == 0,
        cs.len() == v.cols,
    ensures
        v.after_events(prints(cs)) == row_written(v, cs).after_newline(),
        v.after_events(prints(cs)).cursor_col == 0,
        v.after_events(prints(cs)).cursor_row == if v.cursor_row + 1 < v.rows {
            v.cursor_row + 1 as int
        } else {
            v.rows - 1
        },
{
    let base = v.cell_index(0, v.cursor_row);
    let k = v.cols as int - 1;
    lemma_print_row_prefix(v, cs, k);
    let w = v.after_events(prints(cs.take(k)));
    lemma_prints_snoc(cs, k);
    crate::screen::lemma_after_events_push(v, prints(cs.take(k)), print_at(cs, k));
    assert(print_at(cs, k) == VtEvent::Print(cs[k]));
    crate::screen::lemma_cell_index_bound(k, v.cursor_row as int, v.cols as int, v.rows as int);
    let written = ScreenView {
        cells: w.cells.update(w.cell_index(w.cursor_col, w.cursor_row), cs[k]),
        ..w
    };
    assert((ScreenView { cursor_col: 0, ..written }) =~~= row_written(v, cs));
    crate::screen::lemma_after_event_wf(v, VtEvent::Newline);
}

/// One line feed turns the scrollback length `s` into min(s + 1, cap) when
/// the cursor is on the last row, and leaves it alone otherwise; a blank
/// grid stays blank either way. Stated for a single step.
proof fn lemma_newline_step(v: ScreenView)
    requires
        v.wf(),
    ensures
        v.after_newline().scrollback.len() == if v.cursor_row + 1 < v.rows {
            v.scrollback.len() as int
        } else {
            min(v.scrollback.len() as int + 1, crate::screen::MAX_SCROLLBACK_LINES as int)
        },
        v.after_newline().cursor_row == min(v.cursor_row as int + 1, v.rows as int - 1),
        v.after_newline().cols == v.cols,
        v.after_newline().rows == v.rows,
        all_blank(v) ==> all_blank(v.after_newline()),
{
    if v.cursor_row + 1 >= v.rows {
        let s = v.scrolled_up();
        if all_blank(v) {
            assert forall|i: int| 0 <= i < s.cells.len() implies s.cells[i] == ' ' by {
                assert(v.cols * 1 <= v.cols * v.rows) by (nonlinear_arith)
                    requires
                        1 <= v.rows,
                        0 <= v.cols,
                ;
            }
        }
    }
}

/// Feeding `n` line feeds into a well-formed buffer: the cursor row advances
/// to min(start + n, last row); each step past the last row scrolls, so the
/// scrollback grows by the overflow, capped at the retained maximum; a blank
/// grid stays blank throughout.
pub proof fn lemma_newlines_scrollback(v: ScreenView, n: nat)
    requires
        v.wf(),
    ensures
        ({
            let w = v.after_events(newlines(n));
            let scrolls = max(0, v.cursor_row + n - (v.rows - 1));
            &&& w.scrollback.len() == min(
                v.scrollback.len() + scrolls,
                crate::screen::MAX_SCROLLBACK_LINES as int,
            )
            &&& w.cursor_row == min(v.cursor_row as int + n as int, v.rows as int - 1)
            &&& w.cols == v.cols
            &&& w.rows == v.rows
            &&& (all_blank(v) ==> all_blank(w))
        }),
    decreases n,
{
    if n == 0 {
        assert(newlines(0) =~= Seq::<VtEvent>::empty());
    } else {
        lemma_newlines_scrollback(v, (n - 1) as nat);
        let w = v.after_events(newlines((n - 1) as nat));
        assert(newlines(n) =~= newlines((n - 1) as nat).push(VtEvent::Newline));
        crate::screen::lemma_after_events_push(v, newlines((n - 1) as nat), VtEvent::Newline);
        crate::screen::lemma_after_events_wf(v, newlines((n - 1) as nat));
        lemma_newline_step(w);
    }
}

/// On a freshly created grid, `n` line feeds leave min(max(0, n - (rows-1)),
/// cap) rows in the scrollback and every live cell still blank. In
/// particular `rows` line feeds move exactly one row into the scrollback.
pub proof fn lemma_newlines_on_fresh(cols: nat, rows: nat, n: nat)
    requires
        0 < cols <= u16::MAX,
        0 < rows <= u16::MAX,
    ensures
        ({
            let w = ScreenView::fresh(cols, rows).after_events(newlines(n));
            &&& w.scrollback.len() == min(
                max(0, n - (rows - 1)),
                crate::screen::MAX_SCROLLBACK_LINES as int,
            )
            &&& all_blank(w)
        }),
{
    let v = ScreenView::fresh(cols, rows);
    crate::screen::lemma_grid_area_bound(cols as int, rows as int);
    lemma_newlines_scrollback(v, n);
}

/// How one scroll event changes the history: the grid's top row is appended
/// (so the history stays ordered oldest first, newest last), and only when
/// that would pass the cap is exactly the oldest row evicted; the length
/// never exceeds the cap.
pub proof fn lemma_scroll_up_history(v: ScreenView)
    requires
        v.wf(),
    ensures
        ({
            let s = v.scrolled_up();
            let top = v.cells.subrange(0, v.cols as int);
            &&& s.scrollback.len() == min(
                v.scrollback.len() as int + 1,
                crate::screen::MAX_SCROLLBACK_LINES as int,
            )
            &&& s.scrollback.len() <= crate::screen::MAX_SCROLLBACK_LINES
            &&& v.scrollback.len() < crate::screen::MAX_SCROLLBACK_LINES ==> s.scrollback
                == v.scrollback.push(top)
            &&& v.scrollback.len() == crate::screen::MAX_SCROLLBACK_LINES ==> s.scrollback
                == v.scrollback.push(top).drop_first()
        }),
{
}

/// While the view is scrolled back, a line-feed-induced scroll leaves the
/// rendered window unchanged: the offset adjustment keeps the same
/// historical content anchored, whether or not the scroll evicts the oldest
/// history row. Only a view sitting on the evicted oldest row itself (offset
/// at the cap) can slide, and that input is left out here.
pub proof fn lemma_scroll_keeps_view_anchored(v: ScreenView)
    requires
        v.wf(),
        0 < v.offset < crate::screen::MAX_SCROLLBACK_LINES,
    ensures
        v.scrolled_up().render() == v.render(),
{
    let s = v.scrolled_up();
    let cols = v.cols as int;
    let rows = v.rows as int;
    let sb = v.scrollback.len() as int;
    let off = v.offset as int;
    let cap = crate::screen::MAX_SCROLLBACK_LINES as int;
    crate::screen::lemma_grid_area_bound(cols, rows);
    assert(s.render().len() == v.render().len());
    assert forall|i: int| 0 <= i < rows * cols implies s.render()[i] == v.render()[i] by {
        let r = i / cols;
        let c = i % cols;
        vstd::arithmetic::div_mod::lemma_fundamental_div_mod(i, cols);
        vstd::arithmetic::div_mod::lemma_mod_bound(i, cols);
        assert(0 <= r < rows) by (nonlinear_arith)
            requires
                i == cols * r + c,
                0 <= c < cols,
                0 <= i < rows * cols,
                cols > 0,
        ;
        let l = sb - off + r;
        if sb < cap {
            // No eviction: the history keeps its indices and the window
            // start is unchanged.
            assert(s.scrollback.len() - s.offset + r == l);
            if l < sb {
                assert(s.history_line(l) == v.history_line(l));
            } else if l == sb {
                // The row that just scrolled out: in the new state it is the
                // newest history row, and it equals the old grid's top row.
                assert((l - sb) * cols == 0) by (nonlinear_arith)
                    requires
                        l == sb,
                ;
                assert(cols * 1 <= cols * rows) by (nonlinear_arith)
                    requires
                        1 <= rows,
                        0 <= cols,
                ;
                assert(s.history_line(l) =~= v.history_line(l));
            } else {
                // A live grid row: it moved up one row in the shifted grid.
                let g = l - sb;
                assert(g < rows - 1) by {
                    assert(r <= rows - 1 && off >= 1);
                }
                crate::screen::lemma_cell_index_bound(cols - 1, g, cols, rows);
                crate::screen::lemma_cell_index_bound(cols - 1, g - 1, cols, rows);
                assert forall|j: int| 0 <= j < cols implies s.history_line(l)[j]
                    == v.history_line(l)[j] by {
                    assert((g - 1) * cols + j + cols == g * cols + j) by (nonlinear_arith);
                    assert(g * cols + j < rows * cols) by (nonlinear_arith)
                        requires
                            0 <= j < cols,
                            0 <= g < rows,
                    ;
                }
                assert(s.history_line(l) =~= v.history_line(l));
            }
        } else {
            // The eviction shifts every history line down one index, and the
            // grown offset moves the window start down with it.
            assert(s.scrollback.len() == cap && s.offset == off + 1);
            assert(s.scrollback.len() - s.offset + r == l - 1);
            if l < sb {
                assert(s.scrollback[l - 1] == v.scrollback.push(
                    v.cells.subrange(0, cols),
                ).drop_first()[l - 1]);
                assert(s.history_line(l - 1) == v.history_line(l));
            } else if l == sb {
                // The row that just scrolled out is now the newest history
                // row, at the last history index.
                assert((l - sb) * cols == 0) by (nonlinear_arith)
                    requires
                        l == sb,
                ;
                assert(cols * 1 <= cols * rows) by (nonlinear_arith)
                    requires
                        1 <= rows,
                        0 <= cols,
                ;
                assert(s.history_line(l - 1) =~= v.history_line(l));
            } else {
                // A live grid row, moved up one row in the shifted grid; its
                // history index also dropped by one with the eviction.
                let g = l - sb;
                assert(g < rows - 1) by {
                    assert(r <= rows - 1 && off >= 1);
                }
                crate::screen::lemma_cell_index_bound(cols - 1, g, cols, rows);
                crate::screen::lemma_cell_index_bound(cols - 1, g - 1, cols, rows);
                assert forall|j: int| 0 <= j < cols implies s.history_line(l - 1)[j]
                    == v.history_line(l)[j] by {
                    assert((g - 1) * cols + j + cols == g * cols + j) by (nonlinear_arith);
                    assert(g * cols + j < rows * cols) by (nonlinear_arith)
                        requires
                            0 <= j < cols,
                            0 <= g < rows,
                    ;
                }
                assert(s.history_line(l - 1) =~= v.history_line(l));
            }
        }
    }
    assert(s.render() =~= v.render());
}


} // verus!
