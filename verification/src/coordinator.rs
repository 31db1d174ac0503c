//! Session coordinator: glues the byte decoder, the display buffer and the
//! liveness policy behind a poll-based interface. Raw bytes from the child
//! process arrive as ordered messages (a data chunk or a closed notice) from
//! the host's relay; the coordinator drains them one message at a time on the
//! interactive loop's thread, so the grid and cursor never need a lock.

use vstd::prelude::*;

use crate::screen::{Cursor, Screen, ScreenError, ScreenSize, ScreenView};
use crate::session::{LivenessMonitor, ProbeOutcome};
use crate::vt::{decode_bytes, VtParser};

verus! {

/// One message from the background byte relay: a chunk of child-process
/// output, or the notice that the stream ended (end of stream and read
/// error alike: either way no more bytes come).
#[derive(Debug, PartialEq, Eq)]
pub enum SessionMessage {
    Data(Vec<u8>),
    Closed,
}

/// Owns one session's decoder, display buffer and liveness state. All
/// mutation happens through `&mut self` on one logical thread.
pub struct Coordinator {
    parser: VtParser,
    screen: Screen,
    monitor: LivenessMonitor,
}

impl Coordinator {
    /// The display buffer's mathematical state.
    pub closed spec fn screen_view(&self) -> ScreenView {
        self.screen@
    }

    /// Whether the session has been declared exited.
    pub closed spec fn is_closed_spec(&self) -> bool {
        self.monitor.is_closed_spec()
    }

    /// Consecutive "not running" probes seen so far.
    pub closed spec fn misses(&self) -> u8 {
        self.monitor.misses()
    }

    /// Creates a coordinator with a blank grid of the given size, an open
    /// session and a fresh liveness record.
    pub fn new(size: ScreenSize) -> (r: Result<Self, ScreenError>)
        ensures
            r is Ok <==> size.cols > 0 && size.rows > 0,
            r is Ok ==> r->Ok_0.screen_view() == ScreenView::fresh(
                size.cols as nat,
                size.rows as nat,
            ),
            r is Ok ==> r->Ok_0.screen_view().wf() && !r->Ok_0.is_closed_spec()
                && r->Ok_0.misses() == 0,
            r is Err ==> r->Err_0 == (ScreenError::InvalidSize {
                cols: size.cols,
                rows: size.rows,
            }),
    {
        let screen = match Screen::new(size) {
            Ok(s) => s,
            Err(e) => {
                return Err(e);
            },
        };
        Ok(Self { parser: VtParser::new(), screen, monitor: LivenessMonitor::new() })
    }

    /// Drains one relay message: a data chunk is decoded and applied to the
    /// grid in arrival order; a closed notice marks the session exited and
    /// leaves the grid alone.
    pub fn handle_message(&mut self, msg: SessionMessage)
        requires
            old(self).screen_view().wf(),
        ensures
            final(self).screen_view().wf(),
            msg matches SessionMessage::Data(bytes) ==> final(self).screen_view() == old(self).screen_view().after_events(decode_bytes(bytes@)) && final(self).is_closed_spec()
                == old(self).is_closed_spec(),
            msg is Closed ==> final(self).screen_view() == old(self).screen_view() && final(self).is_closed_spec(),
    {
        match msg {
            SessionMessage::Data(bytes) => {
                let mut events = Vec::new();
                self.parser.advance(bytes.as_slice(), &mut events);
                if events.len() > 0 {
                    self.screen.apply_events(events.as_slice());
                } else {
                    proof {
                        assert(decode_bytes(bytes@) =~= events@);
                        assert(self.screen@.after_events(events@) == self.screen@);
                    }
                }
            },
            SessionMessage::Closed => {
                self.monitor.mark_closed();
            },
        }
    }

    /// Records one liveness probe under the session's exit policy and
    /// reports whether the session now counts as exited.
    pub fn record_probe(&mut self, outcome: ProbeOutcome) -> (closed: bool)
        ensures
            closed == final(self).is_closed_spec(),
            final(self).screen_view() == old(self).screen_view(),
            outcome is Running ==> final(self).misses() == 0 && final(self).is_closed_spec()
                == old(self).is_closed_spec(),
            outcome is ProbeFailed ==> final(self).misses() == old(self).misses() && final(self).is_closed_spec() == old(self).is_closed_spec(),
            outcome is NotRunning ==> final(self).misses() == (if old(self).misses()
                < crate::session::EXIT_PROBES_REQUIRED {
                old(self).misses() + 1
            } else {
                old(self).misses() as int
            }),
            outcome is NotRunning ==> final(self).is_closed_spec() == (old(self).is_closed_spec()
                || final(self).misses() >= crate::session::EXIT_PROBES_REQUIRED),
    {
        self.monitor.observe(outcome)
    }

    pub fn is_closed(&self) -> (r: bool)
        ensures
            r == self.is_closed_spec(),
    {
        self.monitor.is_closed()
    }

    /// Resizes the display buffer; a request for the current size is
    /// idempotent and skips the work.
    pub fn resize(&mut self, size: ScreenSize) -> (r: Result<(), ScreenError>)
        requires
            old(self).screen_view().wf(),
        ensures
            r is Ok <==> size.cols > 0 && size.rows > 0,
            r is Ok ==> final(self).screen_view() == old(self).screen_view().resized(
                size.cols as nat,
                size.rows as nat,
            ),
            r is Ok ==> final(self).screen_view().wf(),
            r is Err ==> final(self).screen_view() == old(self).screen_view() && r->Err_0 == (
            ScreenError::InvalidSize { cols: size.cols, rows: size.rows }),
            final(self).is_closed_spec() == old(self).is_closed_spec(),
            final(self).misses() == old(self).misses(),
    {
        let current = self.screen.size();
        if current.cols == size.cols && current.rows == size.rows {
            proof {
                crate::laws::lemma_resize_same_size_identity(self.screen@);
            }
            return Ok(());
        }
        self.screen.resize(size)
    }

    /// Whether a size request differs from the current grid size (and so
    /// warrants propagating to the pseudo-terminal).
    pub fn needs_resize(&self, size: ScreenSize) -> (r: bool)
        ensures
            r == (size.cols != self.screen_view().cols || size.rows != self.screen_view().rows),
    {
        let current = self.screen.size();
        current.cols != size.cols || current.rows != size.rows
    }

    /// Moves the view into or out of history; reports whether a redraw is
    /// warranted.
    pub fn scroll_view(&mut self, delta: i32) -> (changed: bool)
        requires
            old(self).screen_view().wf(),
        ensures
            final(self).screen_view() == (ScreenView {
                offset: ScreenView::clamped_offset(
                    old(self).screen_view().offset as int,
                    delta as int,
                    old(self).screen_view().scrollback.len() as int,
                ) as nat,
                ..old(self).screen_view()
            }),
            changed == (final(self).screen_view().offset != old(self).screen_view().offset),
            final(self).screen_view().wf(),
            final(self).is_closed_spec() == old(self).is_closed_spec(),
    {
        self.screen.scroll_view(delta)
    }

    /// Returns the view to the live grid (on user input, so typed text is
    /// seen where it lands).
    pub fn scroll_to_bottom(&mut self)
        ensures
            final(self).screen_view() == (ScreenView { offset: 0, ..old(self).screen_view() }),
            final(self).is_closed_spec() == old(self).is_closed_spec(),
            final(self).misses() == old(self).misses(),
    {
        self.screen.scroll_to_bottom();
    }

    pub fn is_scrolled(&self) -> (r: bool)
        ensures
            r == (self.screen_view().offset > 0),
    {
        self.screen.is_scrolled()
    }

    pub fn size(&self) -> (r: ScreenSize)
        ensures
            r.cols == self.screen_view().cols,
            r.rows == self.screen_view().rows,
    {
        self.screen.size()
    }

    pub fn cursor(&self) -> (r: Cursor)
        ensures
            r.col == self.screen_view().cursor_col,
            r.row == self.screen_view().cursor_row,
    {
        self.screen.cursor()
    }

    /// Where the host should draw the cursor, if at all: nowhere once the
    /// session has exited or while the view is scrolled into history.
    pub fn cursor_for_render(&self) -> (r: Option<crate::render::CursorPosition>)
        ensures
            (self.is_closed_spec() || self.screen_view().offset > 0) <==> r is None,
            r matches Some(p) ==> p.col == self.screen_view().cursor_col && p.row
                == self.screen_view().cursor_row,
    {
        if self.monitor.is_closed() || self.screen.is_scrolled() {
            None
        } else {
            let cursor = self.screen.cursor();
            Some(crate::render::CursorPosition { col: cursor.col, row: cursor.row })
        }
    }

    /// Fills `out` with the flat character window the current scroll offset
    /// selects.
    pub fn render_chars(&self, out: &mut Vec<char>)
        requires
            self.screen_view().wf(),
        ensures
            final(out)@ == self.screen_view().render(),
    {
        self.screen.render_chars(out)
    }

    /// Blanks the grid and returns to the live view, as when a system
    /// notice replaces the session's output.
    pub fn clear(&mut self)
        requires
            old(self).screen_view().wf(),
        ensures
            final(self).screen_view() == (ScreenView {
                cells: ScreenView::blank_row(
                    (old(self).screen_view().cols * old(self).screen_view().rows) as nat,
                ),
                cursor_col: 0,
                cursor_row: 0,
                offset: 0,
                ..old(self).screen_view()
            }),
            final(self).screen_view().wf(),
            final(self).is_closed_spec() == old(self).is_closed_spec(),
    {
        self.screen.clear();
    }
}

} // verus!
