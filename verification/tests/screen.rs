use termgrid::screen::{Cursor, Screen, ScreenError, ScreenSize};
use termgrid::vt::{VtEvent, VtParser};

fn feed(screen: &mut Screen, bytes: &[u8]) {
    let mut parser = VtParser::new();
    let mut events = Vec::new();
    parser.advance(bytes, &mut events);
    screen.apply_events(&events);
}

fn rendered(screen: &Screen) -> Vec<char> {
    let mut out = Vec::new();
    screen.render_chars(&mut out);
    out
}

fn row_string(chars: &[char], cols: usize, row: usize) -> String {
    chars[row * cols..(row + 1) * cols].iter().collect()
}

#[test]
fn new_rejects_zero_dimension() {
    assert!(matches!(
        Screen::new(ScreenSize { cols: 0, rows: 24 }),
        Err(ScreenError::InvalidSize { cols: 0, rows: 24 })
    ));
    assert!(matches!(
        Screen::new(ScreenSize { cols: 80, rows: 0 }),
        Err(ScreenError::InvalidSize { cols: 80, rows: 0 })
    ));
}

#[test]
fn new_screen_is_blank_with_home_cursor() {
    let screen = Screen::new(ScreenSize { cols: 4, rows: 2 }).unwrap();
    assert_eq!(screen.cursor(), Cursor { col: 0, row: 0 });
    assert_eq!(screen.size(), ScreenSize { cols: 4, rows: 2 });
    assert!(!screen.is_scrolled());
    let chars = rendered(&screen);
    assert_eq!(chars.len(), 8);
    assert!(chars.iter().all(|c| *c == ' '));
}

#[test]
fn crlf_fixture_on_empty_grid() {
    // The literal regression fixture: "AB\r\nC" into an empty 80x24 grid.
    let mut screen = Screen::new(ScreenSize { cols: 80, rows: 24 }).unwrap();
    feed(&mut screen, b"AB\r\nC");
    let chars = rendered(&screen);
    assert_eq!(chars.len(), 80 * 24);
    let row0 = row_string(&chars, 80, 0);
    let row1 = row_string(&chars, 80, 1);
    assert_eq!(row0.trim_end(), "AB");
    assert_eq!(row1.trim_end(), "C");
    assert_eq!(screen.cursor(), Cursor { col: 1, row: 1 });
}

#[test]
fn printing_full_row_auto_wraps() {
    let mut screen = Screen::new(ScreenSize { cols: 80, rows: 24 }).unwrap();
    let line: Vec<u8> = std::iter::repeat(b'x').take(80).collect();
    feed(&mut screen, &line);
    assert_eq!(screen.cursor(), Cursor { col: 0, row: 1 });
    let chars = rendered(&screen);
    assert_eq!(row_string(&chars, 80, 0), "x".repeat(80));
    assert_eq!(row_string(&chars, 80, 1).trim_end(), "");
}

#[test]
fn newlines_move_one_row_into_scrollback() {
    // Mark row 0, then feed exactly `rows` line feeds: the marked row is the
    // one row scrolled into history, and the live grid is fully blank.
    let mut screen = Screen::new(ScreenSize { cols: 80, rows: 24 }).unwrap();
    feed(&mut screen, b"A\r");
    feed(&mut screen, &[b'\n'; 24]);
    let chars = rendered(&screen);
    assert!(chars.iter().all(|c| *c == ' '));
    // Exactly one row of history: one step back changes the view, a second
    // does not.
    assert!(screen.scroll_view(1));
    let back = rendered(&screen);
    assert_eq!(row_string(&back, 80, 0).trim_end(), "A");
    assert!(!screen.scroll_view(1));
}

#[test]
fn scrollback_is_capped_at_thousand_rows() {
    // On a 2-row grid every line feed past the first scrolls, so 1002 line
    // feeds make 1001 scroll events; the oldest row is evicted at the cap.
    let mut screen = Screen::new(ScreenSize { cols: 2, rows: 2 }).unwrap();
    for _ in 0..1002 {
        feed(&mut screen, b"\n");
    }
    assert!(screen.scroll_view(999));
    assert!(screen.scroll_view(1));
    assert!(!screen.scroll_view(1));
}

#[test]
fn scroll_view_clamps_and_is_idempotent_at_bounds() {
    let mut screen = Screen::new(ScreenSize { cols: 4, rows: 2 }).unwrap();
    // No history yet: nothing to scroll either way.
    assert!(!screen.scroll_view(5));
    assert!(!screen.scroll_view(-5));
    // Two scroll events.
    feed(&mut screen, b"\n\n\n");
    assert!(screen.scroll_view(100));
    assert!(!screen.scroll_view(100));
    assert!(screen.is_scrolled());
    assert!(screen.scroll_view(-100));
    assert!(!screen.scroll_view(-100));
    assert!(!screen.is_scrolled());
    assert!(screen.scroll_view(i32::MAX));
    assert!(screen.scroll_view(i32::MIN));
}

#[test]
fn resize_rejects_zero_dimension() {
    let mut screen = Screen::new(ScreenSize { cols: 4, rows: 2 }).unwrap();
    feed(&mut screen, b"hi");
    assert!(matches!(
        screen.resize(ScreenSize { cols: 0, rows: 2 }),
        Err(ScreenError::InvalidSize { cols: 0, rows: 2 })
    ));
    let chars = rendered(&screen);
    assert_eq!(row_string(&chars, 4, 0), "hi  ");
}

#[test]
fn resize_keeps_top_left_rectangle() {
    let mut screen = Screen::new(ScreenSize { cols: 4, rows: 3 }).unwrap();
    feed(&mut screen, b"ABC\r\nDEF\r\nGHI");
    screen.resize(ScreenSize { cols: 2, rows: 2 }).unwrap();
    let chars = rendered(&screen);
    assert_eq!(chars, vec!['A', 'B', 'D', 'E']);
    // Growing again pads with blanks; the lost content does not return.
    screen.resize(ScreenSize { cols: 4, rows: 3 }).unwrap();
    let chars = rendered(&screen);
    assert_eq!(row_string(&chars, 4, 0), "AB  ");
    assert_eq!(row_string(&chars, 4, 1), "DE  ");
    assert_eq!(row_string(&chars, 4, 2), "    ");
}

#[test]
fn resize_to_one_by_one_clamps_cursor() {
    let mut screen = Screen::new(ScreenSize { cols: 4, rows: 3 }).unwrap();
    feed(&mut screen, b"ABC\r\nDE");
    assert_eq!(screen.cursor(), Cursor { col: 2, row: 1 });
    screen.resize(ScreenSize { cols: 1, rows: 1 }).unwrap();
    assert_eq!(screen.cursor(), Cursor { col: 0, row: 0 });
    assert_eq!(rendered(&screen), vec!['A']);
}

#[test]
fn resize_adjusts_scrollback_rows_to_new_width() {
    let mut screen = Screen::new(ScreenSize { cols: 2, rows: 2 }).unwrap();
    // "ABCD" wraps twice: "AB" scrolls into history, the grid holds "CD".
    feed(&mut screen, b"ABCD");
    assert!(screen.scroll_view(1));
    screen.resize(ScreenSize { cols: 3, rows: 2 }).unwrap();
    let chars = rendered(&screen);
    assert_eq!(row_string(&chars, 3, 0), "AB ");
    assert_eq!(row_string(&chars, 3, 1), "CD ");
}

#[test]
fn clear_blanks_grid_and_homes_cursor() {
    let mut screen = Screen::new(ScreenSize { cols: 4, rows: 2 }).unwrap();
    feed(&mut screen, b"hi\n\n\n");
    screen.scroll_view(1);
    screen.clear();
    assert_eq!(screen.cursor(), Cursor { col: 0, row: 0 });
    assert!(!screen.is_scrolled());
    assert!(rendered(&screen).iter().all(|c| *c == ' '));
}

#[test]
fn backspace_erases_left_and_stops_at_column_zero() {
    let mut screen = Screen::new(ScreenSize { cols: 4, rows: 2 }).unwrap();
    feed(&mut screen, b"ab");
    feed(&mut screen, &[0x08]);
    assert_eq!(screen.cursor(), Cursor { col: 1, row: 0 });
    let chars = rendered(&screen);
    assert_eq!(row_string(&chars, 4, 0), "a   ");
    // At column zero a backspace does nothing, and does not climb a row.
    feed(&mut screen, &[0x08, 0x08, 0x08]);
    assert_eq!(screen.cursor(), Cursor { col: 0, row: 0 });
    let chars = rendered(&screen);
    assert_eq!(row_string(&chars, 4, 0), "    ");
}

#[test]
fn carriage_return_resets_column_only() {
    let mut screen = Screen::new(ScreenSize { cols: 4, rows: 2 }).unwrap();
    feed(&mut screen, b"ab\ncd\r");
    assert_eq!(screen.cursor(), Cursor { col: 0, row: 1 });
}

#[test]
fn cells_expose_live_grid_row_major() {
    let mut screen = Screen::new(ScreenSize { cols: 3, rows: 2 }).unwrap();
    feed(&mut screen, b"ab\r\ncd");
    let cells = screen.cells();
    let chars: Vec<char> = cells.iter().map(|c| c.ch).collect();
    assert_eq!(chars, vec!['a', 'b', ' ', 'c', 'd', ' ']);
}

#[test]
fn scrolled_view_stays_anchored_while_output_arrives() {
    let mut screen = Screen::new(ScreenSize { cols: 2, rows: 2 }).unwrap();
    feed(&mut screen, b"ABCD");
    // History holds "AB"; view it.
    assert!(screen.scroll_view(1));
    let before = rendered(&screen);
    // More output scrolls again; the anchored view still shows the same rows.
    feed(&mut screen, b"EF");
    let after = rendered(&screen);
    assert_eq!(before, after);
}

#[test]
fn scrolled_view_stays_anchored_at_the_cap() {
    let mut screen = Screen::new(ScreenSize { cols: 2, rows: 2 }).unwrap();
    // Fill the history to its cap with distinct rows.
    let letters = [b'a', b'b', b'c', b'd', b'e'];
    for k in 0..1004usize {
        feed(&mut screen, &[letters[k % 5], b'\r', b'\n']);
    }
    // The history sits exactly at the cap.
    assert!(screen.scroll_view(999));
    assert!(screen.scroll_view(1));
    assert!(!screen.scroll_view(1));
    assert!(screen.scroll_view(-995));
    let before = rendered(&screen);
    // One more line of output scrolls and evicts the oldest row, but the
    // anchored view still shows the same rows.
    feed(&mut screen, b"z\r\n");
    assert_eq!(rendered(&screen), before);
}
