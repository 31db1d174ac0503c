use termgrid::icon::{draw_glyph, fill_rect, make_terminal_icon_rgba, set_pixel};

fn pixel(buffer: &[u8], width: u32, x: u32, y: u32) -> [u8; 4] {
    let idx = ((y * width + x) * 4) as usize;
    [buffer[idx], buffer[idx + 1], buffer[idx + 2], buffer[idx + 3]]
}

#[test]
fn set_pixel_writes_four_bytes() {
    let mut buffer = vec![0u8; 4 * 4];
    set_pixel(&mut buffer, 2, 1, 1, [1, 2, 3, 4]);
    assert_eq!(pixel(&buffer, 2, 1, 1), [1, 2, 3, 4]);
    assert_eq!(pixel(&buffer, 2, 0, 0), [0, 0, 0, 0]);
}

#[test]
fn set_pixel_outside_buffer_is_ignored() {
    let mut buffer = vec![7u8; 4 * 4];
    set_pixel(&mut buffer, 2, 0, 5, [1, 2, 3, 4]);
    assert!(buffer.iter().all(|b| *b == 7));
}

#[test]
fn fill_rect_clips_to_row_width() {
    // A 2x2 buffer; a rectangle five wide starting at column 1 touches only
    // column 1.
    let mut buffer = vec![0u8; 2 * 2 * 4];
    fill_rect(&mut buffer, 2, 1, 0, 5, 2, [9, 9, 9, 9]);
    assert_eq!(pixel(&buffer, 2, 0, 0), [0, 0, 0, 0]);
    assert_eq!(pixel(&buffer, 2, 1, 0), [9, 9, 9, 9]);
    assert_eq!(pixel(&buffer, 2, 0, 1), [0, 0, 0, 0]);
    assert_eq!(pixel(&buffer, 2, 1, 1), [9, 9, 9, 9]);
}

#[test]
fn fill_rect_below_buffer_is_ignored() {
    let mut buffer = vec![0u8; 2 * 2 * 4];
    fill_rect(&mut buffer, 2, 0, 2, 2, 3, [9, 9, 9, 9]);
    assert!(buffer.iter().all(|b| *b == 0));
}

#[test]
fn glyph_cells_marked_one_are_squares() {
    let mut buffer = vec![0u8; 8 * 8 * 4];
    let dot: [&str; 7] = ["10000", "00000", "00000", "00000", "00000", "00000", "00000"];
    draw_glyph(&mut buffer, 8, 1, 1, &dot, 2, [5, 6, 7, 8]);
    // The single '1' cell becomes a 2x2 square at (1, 1).
    for y in 1..3 {
        for x in 1..3 {
            assert_eq!(pixel(&buffer, 8, x, y), [5, 6, 7, 8]);
        }
    }
    assert_eq!(pixel(&buffer, 8, 3, 1), [0, 0, 0, 0]);
    assert_eq!(pixel(&buffer, 8, 0, 0), [0, 0, 0, 0]);
}

#[test]
fn icon_has_expected_size_and_is_opaque() {
    let icon = make_terminal_icon_rgba(32, 32);
    assert_eq!(icon.len(), 32 * 32 * 4);
    for p in 0..(32 * 32) {
        assert_eq!(icon[p * 4 + 3], 255);
    }
}

#[test]
fn icon_layers_land_where_composed() {
    let icon = make_terminal_icon_rgba(32, 32);
    // The title bar (eight rows tall here) covers the top-left corner.
    assert_eq!(pixel(&icon, 32, 0, 0), [20, 26, 34, 255]);
    // Below the bar the background shows.
    assert_eq!(pixel(&icon, 32, 0, 31), [12, 16, 22, 255]);
    // The first accent square sits at (4, 2) with side 4.
    assert_eq!(pixel(&icon, 32, 4, 2), [80, 160, 255, 255]);
    // The prompt glyph starts at (8, 10) with scale 3.
    assert_eq!(pixel(&icon, 32, 8, 10), [220, 240, 250, 255]);
}
