//! Display buffer: a rows-by-cols character grid with a cursor and a capped
//! scrollback history of rows that scrolled off the top. Display operations
//! (print, newline, carriage return, backspace) are applied one at a time;
//! render queries select either the live grid or a window blending scrollback
//! and grid rows according to the scroll offset.

use vstd::arithmetic::div_mod::lemma_fundamental_div_mod_converse;
use vstd::prelude::*;

use crate::vt::VtEvent;

verus! {

/// Most rows of history retained; the oldest row is evicted beyond this.
pub const MAX_SCROLLBACK_LINES: usize = 1000;

#[derive(Debug, Copy, Clone, PartialEq, Eq, Structural)]
pub struct ScreenSize {
    pub cols: u16,
    pub rows: u16,
}

#[derive(Debug, Copy, Clone, PartialEq, Eq, Structural)]
pub struct Cursor {
    pub col: u16,
    pub row: u16,
}

#[derive(Debug, Copy, Clone, PartialEq, Eq, Structural)]
pub struct Cell {
    pub ch: char,
}

impl Default for Cell {
    fn default() -> (c: Self)
        ensures
            c.ch == ' ',
    {
        Self { ch: ' ' }
    }
}

#[derive(Debug, Copy, Clone, PartialEq, Eq, Structural)]
pub enum ScreenError {
    InvalidSize { cols: u16, rows: u16 },
}

/// Rejects a size with a zero dimension, before anything is allocated.
pub fn validate_size(size: ScreenSize) -> (r: Result<(), ScreenError>)
    ensures
        r is Ok <==> size.cols > 0 && size.rows > 0,
        r is Err ==> r == Err::<(), ScreenError>(ScreenError::InvalidSize {
            cols: size.cols,
            rows: size.rows,
        }),
{
    if size.cols == 0 || size.rows == 0 {
        return Err(ScreenError::InvalidSize { cols: size.cols, rows: size.rows });
    }
    Ok(())
}

/// A grid of `u16` dimensions always fits a 32-bit address space.
pub proof fn lemma_grid_area_bound(cols: int, rows: int)
    requires
        0 <= cols <= 0xFFFF,
        0 <= rows <= 0xFFFF,
    ensures
        cols * rows <= 0xFFFE0001,
        rows * cols == cols * rows,
{
    assert(cols * rows <= 0xFFFE0001 && rows * cols == cols * rows) by (nonlinear_arith)
        requires
            0 <= cols <= 0xFFFF,
            0 <= rows <= 0xFFFF,
    ;
}

/// Mathematical model of the display buffer: the live grid as a flat
/// row-major character sequence, the cursor, the scrollback rows (oldest
/// first, each as wide as the grid), and the view offset into history.
#[verifier::ext_equal]
pub ghost struct ScreenView {
    pub cols: nat,
    pub rows: nat,
    pub cursor_col: nat,
    pub cursor_row: nat,
    pub cells: Seq<char>,
    pub scrollback: Seq<Seq<char>>,
    pub offset: nat,
}

impl ScreenView {
    /// Well-formedness: both dimensions positive and representable, the grid
    /// exactly rows*cols cells, the cursor inside the grid, the history
    /// within its cap with every retained row as wide as the grid, and the
    /// view offset within the history.
    pub open spec fn wf(self) -> bool {
        &&& 0 < self.cols <= u16::MAX
        &&& 0 < self.rows <= u16::MAX
        &&& self.cells.len() == self.cols * self.rows
        &&& self.cursor_col < self.cols
        &&& self.cursor_row < self.rows
        &&& self.scrollback.len() <= MAX_SCROLLBACK_LINES
        &&& (forall|i: int|
            0 <= i < self.scrollback.len() ==> (#[trigger] self.scrollback[i]).len() == self.cols)
        &&& self.offset <= self.scrollback.len()
    }

    /// Flat index of a grid position.
    pub open spec fn cell_index(self, col: nat, row: nat) -> int {
        row * self.cols + col as int
    }

    /// A row of spaces, the empty cell value.
    pub open spec fn blank_row(cols: nat) -> Seq<char> {
        Seq::new(cols, |i: int| ' ')
    }

    /// A freshly created buffer: all cells empty, cursor at the origin,
    /// no history, live view.
    pub open spec fn fresh(cols: nat, rows: nat) -> ScreenView {
        ScreenView {
            cols,
            rows,
            cursor_col: 0,
            cursor_row: 0,
            cells: Seq::new(cols * rows, |i: int| ' '),
            scrollback: Seq::empty(),
            offset: 0,
        }
    }

    /// Well-formedness of everything but the cursor; the cursor leaves its
    /// row bound transiently inside a newline, which re-clamps it at once.
    pub open spec fn grid_wf(self) -> bool {
        &&& 0 < self.cols <= u16::MAX
        &&& 0 < self.rows <= u16::MAX
        &&& self.cells.len() == self.cols * self.rows
        &&& self.scrollback.len() <= MAX_SCROLLBACK_LINES
        &&& (forall|i: int|
            0 <= i < self.scrollback.len() ==> (#[trigger] self.scrollback[i]).len() == self.cols)
        &&& self.offset <= self.scrollback.len()
    }

    /// The grid scrolled up one row: the top row joins the history (evicting
    /// the oldest row beyond the cap), every other row moves up, and the
    /// freed bottom row is blank. A scrolled-back view keeps the same
    /// historical content anchored: its offset grows by one, clamped to the
    /// new history length (so only a view already at the evicted oldest row
    /// can slide).
    pub open spec fn scrolled_up(self) -> ScreenView {
        let top = self.cells.subrange(0, self.cols as int);
        let pushed = self.scrollback.push(top);
        let shifted = self.cells.subrange(self.cols as int, self.cells.len() as int)
            + Self::blank_row(self.cols);
        if pushed.len() > MAX_SCROLLBACK_LINES {
            ScreenView {
                cells: shifted,
                scrollback: pushed.drop_first(),
                offset: if self.offset == 0 {
                    0
                } else if self.offset + 1 <= MAX_SCROLLBACK_LINES {
                    self.offset + 1
                } else {
                    MAX_SCROLLBACK_LINES as nat
                },
                ..self
            }
        } else {
            ScreenView {
                cells: shifted,
                scrollback: pushed,
                offset: if self.offset > 0 { self.offset + 1 } else { 0 },
                ..self
            }
        }
    }

    /// A line feed: the cursor moves down one row; from the last row the
    /// grid scrolls instead and the cursor stays on the last row.
    pub open spec fn after_newline(self) -> ScreenView {
        if self.cursor_row + 1 < self.rows {
            ScreenView { cursor_row: self.cursor_row + 1, ..self }
        } else {
            ScreenView { cursor_row: (self.rows - 1) as nat, ..self.scrolled_up() }
        }
    }

    /// A visible character: written at the cursor, which then advances one
    /// column, wrapping to column zero of the next line (with the newline
    /// semantics, scroll included) past the last column.
    pub open spec fn after_print(self, ch: char) -> ScreenView {
        let written = ScreenView {
            cells: self.cells.update(self.cell_index(self.cursor_col, self.cursor_row), ch),
            ..self
        };
        if self.cursor_col + 1 < self.cols {
            ScreenView { cursor_col: self.cursor_col + 1, ..written }
        } else {
            (ScreenView { cursor_col: 0, ..written }).after_newline()
        }
    }

    /// A carriage return: the cursor returns to column zero.
    pub open spec fn after_carriage_return(self) -> ScreenView {
        ScreenView { cursor_col: 0, ..self }
    }

    /// A backspace: left of column zero nothing happens; otherwise the
    /// cursor moves left one column and that cell is blanked.
    pub open spec fn after_backspace(self) -> ScreenView {
        if self.cursor_col > 0 {
            ScreenView {
                cursor_col: (self.cursor_col - 1) as nat,
                cells: self.cells.update(
                    self.cell_index((self.cursor_col - 1) as nat, self.cursor_row),
                    ' ',
                ),
                ..self
            }
        } else {
            self
        }
    }

    /// One display operation applied to the buffer.
    pub open spec fn after_event(self, e: VtEvent) -> ScreenView {
        match e {
            VtEvent::Print(ch) => self.after_print(ch),
            VtEvent::Newline => self.after_newline(),
            VtEvent::CarriageReturn => self.after_carriage_return(),
            VtEvent::Backspace => self.after_backspace(),
        }
    }

    /// A sequence of display operations applied in order.
    pub open spec fn after_events(self, es: Seq<VtEvent>) -> ScreenView
        decreases es.len(),
    {
        if es.len() == 0 {
            self
        } else {
            self.after_event(es[0]).after_events(es.drop_first())
        }
    }

    /// Row `l` of the full history: the retained scrollback rows, oldest
    /// first, followed by the live grid rows.
    pub open spec fn history_line(self, l: int) -> Seq<char> {
        if l < self.scrollback.len() {
            self.scrollback[l]
        } else {
            self.cells.subrange(
                (l - self.scrollback.len()) * self.cols,
                (l - self.scrollback.len()) * self.cols + self.cols,
            )
        }
    }

    /// What a render query returns: a flat row-major array of rows*cols
    /// characters showing the window of history that ends `offset` rows
    /// above the live bottom (offset zero shows the live grid).
    pub open spec fn render(self) -> Seq<char> {
        Seq::new(
            self.rows * self.cols,
            |i: int|
                self.history_line(
                    self.scrollback.len() - self.offset + i / (self.cols as int),
                )[i % (self.cols as int)],
        )
    }

    /// The buffer resized: the overlapping top-left rectangle of grid
    /// content is kept and everything outside it is blank (no reflow);
    /// every retained scrollback row is padded or truncated to the new
    /// width; the view offset is re-clamped to the history and the cursor
    /// to the new bounds.
    pub open spec fn resized(self, cols2: nat, rows2: nat) -> ScreenView {
        ScreenView {
            cols: cols2,
            rows: rows2,
            cells: Seq::new(
                cols2 * rows2,
                |i: int|
                    {
                        let r = i / (cols2 as int);
                        let c = i % (cols2 as int);
                        if r < self.rows && c < self.cols {
                            self.cells[r * self.cols + c]
                        } else {
                            ' '
                        }
                    },
            ),
            scrollback: Seq::new(
                self.scrollback.len(),
                |l: int|
                    Seq::new(
                        cols2,
                        |c: int|
                            if c < self.scrollback[l].len() {
                                self.scrollback[l][c]
                            } else {
                                ' '
                            },
                    ),
            ),
            offset: if self.offset <= self.scrollback.len() {
                self.offset
            } else {
                self.scrollback.len()
            },
            cursor_col: if self.cursor_col < cols2 {
                self.cursor_col
            } else {
                (cols2 - 1) as nat
            },
            cursor_row: if self.cursor_row < rows2 {
                self.cursor_row
            } else {
                (rows2 - 1) as nat
            },
        }
    }

    /// The view offset that `scroll_view` settles on: the requested offset,
    /// clamped to the available history.
    pub open spec fn clamped_offset(offset: int, delta: int, len: int) -> int {
        if offset + delta < 0 {
            0
        } else if offset + delta > len {
            len
        } else {
            offset + delta
        }
    }
}

/// Every grid position indexes into the flat cell sequence.
pub proof fn lemma_cell_index_bound(col: int, row: int, cols: int, rows: int)
    requires
        0 <= col < cols,
        0 <= row < rows,
    ensures
        0 <= row * cols + col < rows * cols,
        rows * cols == cols * rows,
{
    assert(0 <= row * cols + col < rows * cols && rows * cols == cols * rows)
        by (nonlinear_arith)
        requires
            0 <= col < cols,
            0 <= row < rows,
    ;
}

/// Applying one more event at the end of a sequence is the same as applying
/// the sequence and then that event.
pub proof fn lemma_after_events_push(v: ScreenView, es: Seq<VtEvent>, e: VtEvent)
    ensures
        v.after_events(es.push(e)) == v.after_events(es).after_event(e),
    decreases es.len(),
{
    if es.len() == 0 {
        assert(es.push(e).drop_first() =~= Seq::<VtEvent>::empty());
        assert(v.after_events(es.push(e)) == v.after_event(e).after_events(Seq::empty()));
    } else {
        assert(es.push(e).drop_first() =~= es.drop_first().push(e));
        lemma_after_events_push(v.after_event(es[0]), es.drop_first(), e);
    }
}

/// Scrolling the grid up preserves well-formedness of everything but the
/// cursor, which it does not touch.
pub proof fn lemma_scrolled_up_grid_wf(v: ScreenView)
    requires
        v.grid_wf(),
    ensures
        v.scrolled_up().grid_wf(),
        v.scrolled_up().cols == v.cols,
        v.scrolled_up().rows == v.rows,
        v.scrolled_up().cursor_col == v.cursor_col,
        v.scrolled_up().cursor_row == v.cursor_row,
{
    let s = v.scrolled_up();
    let top = v.cells.subrange(0, v.cols as int);
    let pushed = v.scrollback.push(top);
    assert(v.cols * 1 <= v.cols * v.rows) by (nonlinear_arith)
        requires
            1 <= v.rows,
            0 <= v.cols,
    ;
    assert(top.len() == v.cols);
    assert forall|i: int| 0 <= i < s.scrollback.len() implies (#[trigger] s.scrollback[i]).len()
        == s.cols by {
        if pushed.len() > MAX_SCROLLBACK_LINES {
            assert(s.scrollback[i] == pushed[i + 1]);
        } else {
            assert(s.scrollback[i] == pushed[i]);
        }
    }
}

/// Every display operation preserves well-formedness.
pub proof fn lemma_after_event_wf(v: ScreenView, e: VtEvent)
    requires
        v.wf(),
    ensures
        v.after_event(e).wf(),
{
    lemma_cell_index_bound(v.cursor_col as int, v.cursor_row as int, v.cols as int, v.rows as int);
    match e {
        VtEvent::Print(ch) => {
            let written = ScreenView {
                cells: v.cells.update(v.cell_index(v.cursor_col, v.cursor_row), ch),
                ..v
            };
            if v.cursor_col + 1 >= v.cols {
                lemma_scrolled_up_grid_wf(ScreenView { cursor_col: 0, ..written });
            }
        },
        VtEvent::Newline => {
            if v.cursor_row + 1 >= v.rows {
                lemma_scrolled_up_grid_wf(v);
            }
        },
        VtEvent::CarriageReturn => {},
        VtEvent::Backspace => {},
    }
}

/// Any sequence of display operations preserves well-formedness.
pub proof fn lemma_after_events_wf(v: ScreenView, es: Seq<VtEvent>)
    requires
        v.wf(),
    ensures
        v.after_events(es).wf(),
    decreases es.len(),
{
    if es.len() > 0 {
        lemma_after_event_wf(v, es[0]);
        lemma_after_events_wf(v.after_event(es[0]), es.drop_first());
    }
}

/// The display buffer itself. All mutation is synchronous and total over
/// well-formed states; queries never observe a half-applied operation.
pub struct Screen {
    size: ScreenSize,
    cursor: Cursor,
    cells: Vec<Cell>,
    scrollback: Vec<Vec<Cell>>,
    scroll_offset: usize,
}

impl View for Screen {
    type V = ScreenView;

    closed spec fn view(&self) -> ScreenView {
        ScreenView {
            cols: self.size.cols as nat,
            rows: self.size.rows as nat,
            cursor_col: self.cursor.col as nat,
            cursor_row: self.cursor.row as nat,
            cells: Seq::new(self.cells@.len(), |i: int| self.cells@[i].ch),
            scrollback: Seq::new(
                self.scrollback@.len(),
                |i: int| Seq::new(self.scrollback@[i]@.len(), |j: int| self.scrollback@[i]@[j].ch),
            ),
            offset: self.scroll_offset as nat,
        }
    }
}

impl Screen {
    /// Creates an all-blank buffer of the given size, or rejects a zero
    /// dimension.
    pub fn new(size: ScreenSize) -> (r: Result<Self, ScreenError>)
        ensures
            r is Ok <==> size.cols > 0 && size.rows > 0,
            r is Ok ==> r->Ok_0@ == ScreenView::fresh(size.cols as nat, size.rows as nat)
                && r->Ok_0@.wf(),
            r is Err ==> r->Err_0 == (ScreenError::InvalidSize {
                cols: size.cols,
                rows: size.rows,
            }),
    {
        validate_size(size)?;
        proof {
            lemma_grid_area_bound(size.cols as int, size.rows as int);
        }
        let n = (size.cols as usize) * (size.rows as usize);
        let mut cells: Vec<Cell> = Vec::new();
        while cells.len() < n
            invariant
                cells@.len() <= n,
                forall|i: int| 0 <= i < cells@.len() ==> cells@[i].ch == ' ',
            decreases n - cells@.len(),
        {
            cells.push(Cell::default());
        }
        let s = Self {
            size,
            cursor: Cursor { col: 0, row: 0 },
            cells,
            scrollback: Vec::new(),
            scroll_offset: 0,
        };
        proof {
            assert(s@.cells =~= ScreenView::fresh(size.cols as nat, size.rows as nat).cells);
            assert(s@.scrollback =~= ScreenView::fresh(
                size.cols as nat,
                size.rows as nat,
            ).scrollback);
        }
        Ok(s)
    }

    pub fn size(&self) -> (r: ScreenSize)
        ensures
            r.cols == self@.cols,
            r.rows == self@.rows,
    {
        self.size
    }

    pub fn cursor(&self) -> (r: Cursor)
        ensures
            r.col == self@.cursor_col,
            r.row == self@.cursor_row,
    {
        self.cursor
    }

    /// The live grid cells, row-major.
    pub fn cells(&self) -> (r: &[Cell])
        ensures
            r@.len() == self@.cells.len(),
            forall|i: int| 0 <= i < r@.len() ==> (#[trigger] r@[i]).ch == self@.cells[i],
    {
        self.cells.as_slice()
    }

    /// Fills `out` with the flat row-major character window that the current
    /// scroll offset selects: offset zero shows the live grid; each unit of
    /// offset shows one row further into history.
    pub fn render_chars(&self, out: &mut Vec<char>)
        requires
            self@.wf(),
        ensures
            final(out)@ == self@.render(),
    {
        out.clear();
        let rows = self.size.rows as usize;
        let cols = self.size.cols as usize;
        let sb = self.scrollback.len();
        let offset = if self.scroll_offset < sb {
            self.scroll_offset
        } else {
            sb
        };
        let start_line = sb - offset;
        proof {
            lemma_grid_area_bound(cols as int, rows as int);
        }

        let mut row: usize = 0;
        while row < rows
            invariant
                self@.wf(),
                cols == self@.cols,
                rows == self@.rows,
                sb == self@.scrollback.len(),
                offset == self@.offset,
                start_line == sb - offset,
                row <= rows,
                out@.len() == row * cols,
                forall|j: int| 0 <= j < out@.len() ==> out@[j] == self@.render()[j],
            decreases rows - row,
        {
            proof {
                lemma_cell_index_bound(0, row as int, cols as int, rows as int);
            }
            let line_index = start_line + row;
            let mut c: usize = 0;
            while c < cols
                invariant
                    self@.wf(),
                    cols == self@.cols,
                    rows == self@.rows,
                    sb == self@.scrollback.len(),
                    offset == self@.offset,
                    start_line == sb - offset,
                    line_index == start_line + row,
                    row < rows,
                    c <= cols,
                    out@.len() == row * cols + c,
                    forall|j: int| 0 <= j < out@.len() ==> out@[j] == self@.render()[j],
                decreases cols - c,
            {
                proof {
                    lemma_cell_index_bound(c as int, row as int, cols as int, rows as int);
                    lemma_fundamental_div_mod_converse(
                        (row * cols + c) as int,
                        cols as int,
                        row as int,
                        c as int,
                    );
                }
                if line_index < sb {
                    proof {
                        assert(self@.scrollback[line_index as int].len() == cols);
                    }
                    let line = &self.scrollback[line_index];
                    let ch = line[c].ch;
                    out.push(ch);
                } else {
                    let screen_row = line_index - sb;
                    proof {
                        lemma_grid_area_bound(cols as int, rows as int);
                        lemma_cell_index_bound(
                            c as int,
                            screen_row as int,
                            cols as int,
                            rows as int,
                        );
                        lemma_cell_index_bound(
                            cols as int - 1,
                            screen_row as int,
                            cols as int,
                            rows as int,
                        );
                    }
                    let start = screen_row * cols;
                    let ch = self.cells[start + c].ch;
                    out.push(ch);
                }
                c = c + 1;
            }
            proof {
                assert((row + 1) * cols == row * cols + cols) by (nonlinear_arith);
            }
            row = row + 1;
        }
        proof {
            assert(out@ =~= self@.render());
        }
    }

    /// Blanks every cell, homes the cursor, and returns to the live view.
    /// The scrollback history is retained.
    pub fn clear(&mut self)
        requires
            old(self)@.wf(),
        ensures
            final(self)@.wf(),
            final(self)@ == (ScreenView {
                cells: ScreenView::blank_row((old(self)@.cols * old(self)@.rows) as nat),
                cursor_col: 0,
                cursor_row: 0,
                offset: 0,
                ..old(self)@
            }),
    {
        let n = self.cells.len();
        let mut i: usize = 0;
        while i < n
            invariant
                n == self.cells@.len(),
                i <= n,
                self.size == old(self).size,
                self.cursor == old(self).cursor,
                self.scrollback == old(self).scrollback,
                self.scroll_offset == old(self).scroll_offset,
                forall|j: int| 0 <= j < i ==> self.cells@[j].ch == ' ',
                forall|j: int| i <= j < n ==> self.cells@[j] == old(self).cells@[j],
            decreases n - i,
        {
            self.cells[i] = Cell::default();
            i = i + 1;
        }
        self.cursor = Cursor { col: 0, row: 0 };
        self.scroll_offset = 0;
        proof {
            assert(self@.cells =~= ScreenView::blank_row(
                (old(self)@.cols * old(self)@.rows) as nat,
            ));
            assert(self@.scrollback =~= old(self)@.scrollback);
        }
    }

    /// Returns the view to the live grid.
    pub fn scroll_to_bottom(&mut self)
        ensures
            final(self)@ == (ScreenView { offset: 0, ..old(self)@ }),
    {
        self.scroll_offset = 0;
        proof {
            assert(self@ =~= (ScreenView { offset: 0, ..old(self)@ }));
        }
    }

    /// Whether the view currently shows history rather than the live grid.
    pub fn is_scrolled(&self) -> (r: bool)
        ensures
            r == (self@.offset > 0),
    {
        self.scroll_offset > 0
    }

    /// Moves the view offset by `delta` rows into history (positive deltas
    /// scroll back), clamped to the retained history; reports whether the
    /// view actually changed, so the caller can decide whether to redraw.
    pub fn scroll_view(&mut self, delta: i32) -> (changed: bool)
        requires
            old(self)@.wf(),
        ensures
            final(self)@ == (ScreenView {
                offset: ScreenView::clamped_offset(
                    old(self)@.offset as int,
                    delta as int,
                    old(self)@.scrollback.len() as int,
                ) as nat,
                ..old(self)@
            }),
            changed == (final(self)@.offset != old(self)@.offset),
            final(self)@.wf(),
    {
        let max_offset = self.scrollback.len() as i64;
        let current = self.scroll_offset as i64;
        let requested = current + (delta as i64);
        let next = if requested < 0 {
            0
        } else if requested > max_offset {
            max_offset
        } else {
            requested
        };
        proof {
            assert(self@ =~= (ScreenView { offset: self@.offset, ..old(self)@ }));
        }
        if next != current {
            self.scroll_offset = next as usize;
            proof {
                assert(self@ =~= (ScreenView { offset: next as nat, ..old(self)@ }));
            }
            return true;
        }
        false
    }

    /// Changes the grid to the given size, keeping the overlapping top-left
    /// rectangle of content, adjusting every scrollback row to the new
    /// width, and re-clamping cursor and view offset; rejects a zero
    /// dimension and then changes nothing.
    pub fn resize(&mut self, size: ScreenSize) -> (r: Result<(), ScreenError>)
        requires
            old(self)@.wf(),
        ensures
            r is Ok <==> size.cols > 0 && size.rows > 0,
            r is Ok ==> final(self)@ == old(self)@.resized(size.cols as nat, size.rows as nat),
            r is Ok ==> final(self)@.wf(),
            r is Err ==> *final(self) == *old(self) && r->Err_0 == (ScreenError::InvalidSize {
                cols: size.cols,
                rows: size.rows,
            }),
    {
        if let Err(e) = validate_size(size) {
            return Err(e);
        }
        let new_cols = size.cols as usize;
        let new_rows = size.rows as usize;
        let old_cols = self.size.cols as usize;
        let old_rows = self.size.rows as usize;
        proof {
            lemma_grid_area_bound(new_cols as int, new_rows as int);
            lemma_grid_area_bound(old_cols as int, old_rows as int);
        }
        let min_cols = if old_cols < new_cols {
            old_cols
        } else {
            new_cols
        };
        let min_rows = if old_rows < new_rows {
            old_rows
        } else {
            new_rows
        };
        let ghost target = old(self)@.resized(size.cols as nat, size.rows as nat);

        let mut new_cells: Vec<Cell> = Vec::new();
        let mut r: usize = 0;
        while r < new_rows
            invariant
                *self == *old(self),
                self@.wf(),
                target == old(self)@.resized(size.cols as nat, size.rows as nat),
                new_cols == size.cols && new_rows == size.rows,
                size.cols > 0 && size.rows > 0,
                old_cols == self@.cols && old_rows == self@.rows,
                min_cols == if old_cols < new_cols { old_cols } else { new_cols },
                min_rows == if old_rows < new_rows { old_rows } else { new_rows },
                r <= new_rows,
                new_cells@.len() == r * new_cols,
                forall|j: int|
                    0 <= j < new_cells@.len() ==> (#[trigger] new_cells@[j]).ch == target.cells[j],
            decreases new_rows - r,
        {
            let mut c: usize = 0;
            while c < new_cols
                invariant
                    *self == *old(self),
                    self@.wf(),
                    target == old(self)@.resized(size.cols as nat, size.rows as nat),
                    new_cols == size.cols && new_rows == size.rows,
                    size.cols > 0 && size.rows > 0,
                    old_cols == self@.cols && old_rows == self@.rows,
                    min_cols == if old_cols < new_cols { old_cols } else { new_cols },
                    min_rows == if old_rows < new_rows { old_rows } else { new_rows },
                    r < new_rows,
                    c <= new_cols,
                    new_cells@.len() == r * new_cols + c,
                    forall|j: int|
                        0 <= j < new_cells@.len() ==> (#[trigger] new_cells@[j]).ch
                            == target.cells[j],
                decreases new_cols - c,
            {
                proof {
                    lemma_grid_area_bound(new_cols as int, new_rows as int);
                    lemma_cell_index_bound(c as int, r as int, new_cols as int, new_rows as int);
                    lemma_fundamental_div_mod_converse(
                        (r * new_cols + c) as int,
                        new_cols as int,
                        r as int,
                        c as int,
                    );
                }
                if r < min_rows && c < min_cols {
                    proof {
                        lemma_grid_area_bound(old_cols as int, old_rows as int);
                        lemma_cell_index_bound(
                            c as int,
                            r as int,
                            old_cols as int,
                            old_rows as int,
                        );
                    }
                    let cell = self.cells[r * old_cols + c];
                    new_cells.push(cell);
                } else {
                    new_cells.push(Cell { ch: ' ' });
                }
                c = c + 1;
            }
            proof {
                assert((r + 1) * new_cols == r * new_cols + new_cols) by (nonlinear_arith);
            }
            r = r + 1;
        }

        let mut new_scrollback: Vec<Vec<Cell>> = Vec::new();
        let sb = self.scrollback.len();
        let mut l: usize = 0;
        while l < sb
            invariant
                *self == *old(self),
                self@.wf(),
                target == old(self)@.resized(size.cols as nat, size.rows as nat),
                new_cols == size.cols,
                sb == self@.scrollback.len(),
                l <= sb,
                new_scrollback@.len() == l,
                forall|i: int|
                    0 <= i < l ==> (#[trigger] new_scrollback@[i])@.len() == new_cols,
                forall|i: int, j: int|
                    0 <= i < l && 0 <= j < new_cols ==> (#[trigger] new_scrollback@[i]@[j]).ch
                        == target.scrollback[i][j],
            decreases sb - l,
        {
            let line = &self.scrollback[l];
            let line_len = line.len();
            let mut adjusted: Vec<Cell> = Vec::new();
            let mut c: usize = 0;
            while c < new_cols
                invariant
                    target == old(self)@.resized(size.cols as nat, size.rows as nat),
                    new_cols == size.cols,
                    0 <= l < old(self)@.scrollback.len(),
                    line_len == line@.len(),
                    line@ == old(self).scrollback@[l as int]@,
                    c <= new_cols,
                    adjusted@.len() == c,
                    forall|j: int|
                        0 <= j < c ==> (#[trigger] adjusted@[j]).ch == target.scrollback[l as int][j],
                decreases new_cols - c,
            {
                if c < line_len {
                    let cell = line[c];
                    adjusted.push(cell);
                } else {
                    adjusted.push(Cell { ch: ' ' });
                }
                c = c + 1;
            }
            new_scrollback.push(adjusted);
            l = l + 1;
        }

        self.size = size;
        self.cells = new_cells;
        self.scrollback = new_scrollback;
        if self.scroll_offset > self.scrollback.len() {
            self.scroll_offset = self.scrollback.len();
        }
        if self.cursor.col >= size.cols {
            self.cursor.col = size.cols - 1;
        }
        if self.cursor.row >= size.rows {
            self.cursor.row = size.rows - 1;
        }
        proof {
            assert(self@.cells =~= target.cells);
            assert(self@.scrollback =~~= target.scrollback);
            assert(self@ =~~= target);
            lemma_grid_area_bound(new_cols as int, new_rows as int);
        }
        Ok(())
    }

    fn index(&self, col: u16, row: u16) -> (r: usize)
        requires
            self@.wf(),
            col < self@.cols,
            row < self@.rows,
        ensures
            r == self@.cell_index(col as nat, row as nat),
            r < self@.cells.len(),
    {
        proof {
            let c = self.size.cols as int;
            let r = self.size.rows as int;
            assert(self@.cols == self.size.cols as nat);
            assert(self@.rows == self.size.rows as nat);
            lemma_cell_index_bound(col as int, row as int, c, r);
            lemma_grid_area_bound(c, r);
            assert(r * c == c * r) by (nonlinear_arith);
        }
        (row as usize) * (self.size.cols as usize) + (col as usize)
    }

    fn carriage_return(&mut self)
        requires
            old(self)@.wf(),
        ensures
            final(self)@ == old(self)@.after_carriage_return(),
            final(self)@.wf(),
    {
        self.cursor.col = 0;
        proof {
            assert(self@ =~= old(self)@.after_carriage_return());
        }
    }

    fn backspace(&mut self)
        requires
            old(self)@.wf(),
        ensures
            final(self)@ == old(self)@.after_backspace(),
            final(self)@.wf(),
    {
        if self.cursor.col > 0 {
            self.cursor.col = self.cursor.col - 1;
            let idx = self.index(self.cursor.col, self.cursor.row);
            self.cells[idx] = Cell { ch: ' ' };
            proof {
                assert(self@.cells =~= old(self)@.after_backspace().cells);
                assert(self@ =~= old(self)@.after_backspace());
            }
        }
    }

    fn scroll_up(&mut self)
        requires
            old(self)@.grid_wf(),
        ensures
            final(self)@ == old(self)@.scrolled_up(),
            final(self)@.grid_wf(),
    {
        let cols = self.size.cols as usize;
        let n = self.cells.len();
        proof {
            assert(self@.cols * 1 <= self@.cols * self@.rows) by (nonlinear_arith)
                requires
                    1 <= self@.rows,
                    0 <= self@.cols,
            ;
        }

        let mut top_line: Vec<Cell> = Vec::new();
        let mut c: usize = 0;
        while c < cols
            invariant
                *self == *old(self),
                cols == self@.cols,
                cols <= self.cells@.len(),
                c <= cols,
                top_line@.len() == c,
                forall|j: int| 0 <= j < c ==> top_line@[j] == self.cells@[j],
            decreases cols - c,
        {
            let cell = self.cells[c];
            top_line.push(cell);
            c = c + 1;
        }

        self.scrollback.push(top_line);
        if self.scrollback.len() > MAX_SCROLLBACK_LINES {
            self.scrollback.remove(0);
            if self.scroll_offset > 0 && self.scroll_offset < MAX_SCROLLBACK_LINES {
                self.scroll_offset = self.scroll_offset + 1;
            }
        } else if self.scroll_offset > 0 {
            self.scroll_offset = self.scroll_offset + 1;
        }

        let ghost sb_mid = self.scrollback@;
        let ghost off_mid = self.scroll_offset;

        let mut i: usize = cols;
        while i < n
            invariant
                n == self.cells@.len(),
                n == old(self).cells@.len(),
                cols <= i <= n,
                self.size == old(self).size,
                self.cursor == old(self).cursor,
                self.scrollback@ == sb_mid,
                self.scroll_offset == off_mid,
                forall|j: int| 0 <= j < i - cols ==> self.cells@[j] == old(self).cells@[j + cols],
                forall|j: int| i - cols <= j < n ==> self.cells@[j] == old(self).cells@[j],
            decreases n - i,
        {
            let cell = self.cells[i];
            self.cells[i - cols] = cell;
            i = i + 1;
        }

        let start = n - cols;
        let mut k: usize = start;
        while k < n
            invariant
                n == self.cells@.len(),
                n == old(self).cells@.len(),
                start == n - cols,
                start <= k <= n,
                self.size == old(self).size,
                self.cursor == old(self).cursor,
                self.scrollback@ == sb_mid,
                self.scroll_offset == off_mid,
                forall|j: int| 0 <= j < start ==> self.cells@[j] == old(self).cells@[j + cols],
                forall|j: int| start <= j < k ==> self.cells@[j].ch == ' ',
            decreases n - k,
        {
            self.cells[k] = Cell { ch: ' ' };
            k = k + 1;
        }

        proof {
            let v = old(self)@;
            let s = v.scrolled_up();
            assert(self@.cells =~= s.cells);
            assert(self@.scrollback =~~= s.scrollback);
            assert(self@ =~~= s);
            lemma_scrolled_up_grid_wf(v);
        }
    }

    fn newline(&mut self)
        requires
            old(self)@.wf(),
        ensures
            final(self)@ == old(self)@.after_newline(),
            final(self)@.wf(),
    {
        self.cursor.row = self.cursor.row + 1;
        if self.cursor.row >= self.size.rows {
            self.scroll_up();
            self.cursor.row = self.size.rows - 1;
        }
        proof {
            assert(self@ =~~= old(self)@.after_newline());
            lemma_after_event_wf(old(self)@, VtEvent::Newline);
        }
    }

    fn advance_cursor(&mut self)
        requires
            old(self)@.wf(),
        ensures
            final(self)@ == (if old(self)@.cursor_col + 1 < old(self)@.cols {
                ScreenView { cursor_col: old(self)@.cursor_col + 1, ..old(self)@ }
            } else {
                (ScreenView { cursor_col: 0, ..old(self)@ }).after_newline()
            }),
            final(self)@.wf(),
    {
        self.cursor.col = self.cursor.col + 1;
        if self.cursor.col >= self.size.cols {
            self.cursor.col = 0;
            proof {
                assert(self@ =~~= (ScreenView { cursor_col: 0, ..old(self)@ }));
            }
            self.newline();
        } else {
            proof {
                assert(self@ =~~= (ScreenView {
                    cursor_col: old(self)@.cursor_col + 1,
                    ..old(self)@
                }));
            }
        }
    }

    fn print_char(&mut self, ch: char)
        requires
            old(self)@.wf(),
        ensures
            final(self)@ == old(self)@.after_print(ch),
            final(self)@.wf(),
    {
        let idx = self.index(self.cursor.col, self.cursor.row);
        self.cells[idx] = Cell { ch };
        proof {
            assert(self@ =~~= (ScreenView {
                cells: old(self)@.cells.update(
                    old(self)@.cell_index(old(self)@.cursor_col, old(self)@.cursor_row),
                    ch,
                ),
                ..old(self)@
            }));
        }
        self.advance_cursor();
        proof {
            assert(self@ =~~= old(self)@.after_print(ch));
        }
    }

    /// Applies one display operation; synchronous and total.
    pub fn apply_event(&mut self, event: VtEvent)
        requires
            old(self)@.wf(),
        ensures
            final(self)@ == old(self)@.after_event(event),
            final(self)@.wf(),
    {
        match event {
            VtEvent::Print(ch) => self.print_char(ch),
            VtEvent::Newline => self.newline(),
            VtEvent::CarriageReturn => self.carriage_return(),
            VtEvent::Backspace => self.backspace(),
        }
    }

    /// Applies a batch of display operations in order.
    pub fn apply_events(&mut self, events: &[VtEvent])
        requires
            old(self)@.wf(),
        ensures
            final(self)@ == old(self)@.after_events(events@),
            final(self)@.wf(),
    {
        let n = events.len();
        let mut i: usize = 0;
        while i < n
            invariant
                n == events@.len(),
                i <= n,
                self@ == old(self)@.after_events(events@.subrange(0, i as int)),
                self@.wf(),
            decreases n - i,
        {
            proof {
                lemma_after_events_push(old(self)@, events@.subrange(0, i as int), events@[i as int]);
                assert(events@.subrange(0, i as int).push(events@[i as int]) =~= events@.subrange(
                    0,
                    i as int + 1,
                ));
            }
            self.apply_event(events[i]);
            i = i + 1;
        }
        proof {
            assert(events@.subrange(0, n as int) =~= events@);
        }
    }
}

} // verus!
