use termgrid::render::{
    blend_pixel, cursor_blink_step, draw_cursor_bar, fill_background, screen_size_from_pixels,
    validate_grid, validate_surface_size, RenderError, RenderGrid, RenderSize, CELL_HEIGHT,
    CELL_WIDTH, PADDING_X, PADDING_Y,
};
use termgrid::screen::ScreenSize;

#[test]
fn grid_mismatch_is_rejected() {
    let cells = vec![' '; 5];
    let grid = RenderGrid { cols: 2, rows: 3, cells: &cells, cursor: None, cursor_visible: false };
    assert!(matches!(
        validate_grid(&grid),
        Err(RenderError::GridMismatch { expected: 6, actual: 5 })
    ));
}

#[test]
fn matching_grid_is_accepted() {
    let cells = vec!['x'; 6];
    let grid = RenderGrid { cols: 2, rows: 3, cells: &cells, cursor: None, cursor_visible: true };
    assert!(validate_grid(&grid).is_ok());
}

#[test]
fn surface_size_must_be_nonzero() {
    assert!(matches!(
        validate_surface_size(RenderSize { width: 0, height: 10 }),
        Err(RenderError::InvalidSize { width: 0, height: 10 })
    ));
    assert!(validate_surface_size(RenderSize { width: 1, height: 1 }).is_ok());
}

#[test]
fn window_pixels_map_to_grid_cells() {
    // 120 columns and 30 rows fit exactly inside the padding.
    let width = CELL_WIDTH * 120 + PADDING_X * 2;
    let height = CELL_HEIGHT * 30 + PADDING_Y * 2;
    assert_eq!(screen_size_from_pixels(width, height), ScreenSize { cols: 120, rows: 30 });
}

#[test]
fn tiny_window_still_gets_one_cell() {
    assert_eq!(screen_size_from_pixels(0, 0), ScreenSize { cols: 1, rows: 1 });
    assert_eq!(screen_size_from_pixels(5, 5), ScreenSize { cols: 1, rows: 1 });
}

#[test]
fn blend_opaque_replaces_and_transparent_keeps() {
    let mut buffer = vec![10u8, 20, 30, 0, 99, 99, 99, 99];
    blend_pixel(&mut buffer, 0, [100, 200, 50, 255], 255);
    assert_eq!(&buffer[0..4], &[100, 200, 50, 255]);
    assert_eq!(&buffer[4..8], &[99, 99, 99, 99]);
    let mut buffer = vec![10u8, 20, 30, 0];
    blend_pixel(&mut buffer, 0, [100, 200, 50, 255], 0);
    assert_eq!(buffer, vec![10, 20, 30, 255]);
}

#[test]
fn blend_half_alpha_exact_values() {
    let mut buffer = vec![0u8, 0, 0, 0];
    blend_pixel(&mut buffer, 0, [100, 200, 50, 255], 128);
    // (channel * 128 + 0 * 127) / 255, truncated.
    assert_eq!(buffer, vec![50, 100, 25, 255]);
}

#[test]
fn cursor_blink_toggles_on_interval() {
    assert_eq!(cursor_blink_step(true, false, 599), (true, false));
    assert_eq!(cursor_blink_step(true, false, 600), (false, true));
    assert_eq!(cursor_blink_step(false, false, 600), (true, true));
    assert_eq!(cursor_blink_step(true, true, 600), (false, false));
}

#[test]
fn background_fills_complete_pixels_of_complete_rows() {
    // Stride 10 holds two complete pixels and two padding bytes; the
    // buffer holds one complete row and a partial one.
    let mut buffer = vec![0u8; 16];
    fill_background(&mut buffer, 10, [1, 2, 3, 4]);
    assert_eq!(&buffer[0..4], &[1, 2, 3, 4]);
    assert_eq!(&buffer[4..8], &[1, 2, 3, 4]);
    // Row padding and the partial trailing row stay untouched.
    assert_eq!(&buffer[8..10], &[0, 0]);
    assert_eq!(&buffer[10..16], &[0, 0, 0, 0, 0, 0]);
}

#[test]
fn cursor_bar_lands_inset_and_clipped() {
    // A 4x24 pixel frame, tightly packed.
    let width = 4usize;
    let height = 24usize;
    let stride = width * 4;
    let mut buffer = vec![0u8; stride * height];
    draw_cursor_bar(0, 0, width, height, stride, &mut buffer);
    let pixel = |x: usize, y: usize| {
        let idx = y * stride + x * 4;
        [buffer[idx], buffer[idx + 1], buffer[idx + 2], buffer[idx + 3]]
    };
    // The bar is two wide and sixteen tall, inset one right and two down.
    assert_eq!(pixel(1, 2), [88, 168, 255, 255]);
    assert_eq!(pixel(2, 17), [88, 168, 255, 255]);
    assert_eq!(pixel(0, 2), [0, 0, 0, 0]);
    assert_eq!(pixel(3, 2), [0, 0, 0, 0]);
    assert_eq!(pixel(1, 1), [0, 0, 0, 0]);
    assert_eq!(pixel(1, 18), [0, 0, 0, 0]);
}

#[test]
fn huge_window_clamps_to_grid_maximum() {
    // Wide enough that more cells fit than the grid can index: the size
    // clamps instead of wrapping to zero.
    assert_eq!(
        screen_size_from_pixels(u32::MAX, u32::MAX),
        ScreenSize { cols: u16::MAX, rows: u16::MAX }
    );
    assert_eq!(screen_size_from_pixels(655_384, 44).cols, u16::MAX);
}
