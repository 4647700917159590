use beefu::frame::{clear_background, draw_glyph, draw_rect, Size};
use beefu::viewer::{
    cell_look, decimal_digits, grid_cell, grid_color, grid_rows, is_near, is_printable,
    strip_color, strip_index, CellLook, Command, GridCell, Layout, Viewer, THEME_BACKGROUND,
    THEME_COMMENT, THEME_FOREGROUND, THEME_SELECTION,
};

const RED: [u8; 4] = [255, 0, 0, 255];

fn pixel(frame: &[u8], q: usize) -> [u8; 4] {
    [frame[4 * q], frame[4 * q + 1], frame[4 * q + 2], frame[4 * q + 3]]
}

#[test]
fn clear_fills_whole_pixels_only() {
    let mut frame = vec![7u8; 10];
    clear_background(&mut frame, [1, 2, 3, 4]);
    assert_eq!(frame, vec![1, 2, 3, 4, 1, 2, 3, 4, 7, 7]);
}

#[test]
fn rect_fills_its_pixels() {
    let size = Size { width: 4, height: 3 };
    let mut frame = vec![0u8; 48];
    draw_rect(size, &mut frame, 1, 1, 2, 1, RED);
    for q in 0..12 {
        let expected = if q == 5 || q == 6 { RED } else { [0; 4] };
        assert_eq!(pixel(&frame, q), expected, "pixel {}", q);
    }
}

#[test]
fn rect_row_running_past_the_edge_goes_on_below() {
    let size = Size { width: 2, height: 2 };
    let mut frame = vec![0u8; 16];
    draw_rect(size, &mut frame, 1, 0, 2, 1, RED);
    assert_eq!(pixel(&frame, 0), [0; 4]);
    assert_eq!(pixel(&frame, 1), RED);
    assert_eq!(pixel(&frame, 2), RED);
    assert_eq!(pixel(&frame, 3), [0; 4]);
}

#[test]
fn rect_outside_the_frame_draws_nothing() {
    let size = Size { width: 2, height: 2 };
    let mut frame = vec![0u8; 16];
    draw_rect(size, &mut frame, 0, 5, 2, 2, RED);
    draw_rect(size, &mut frame, 0, 0, 0, 2, RED);
    draw_rect(size, &mut frame, u32::MAX, u32::MAX, 3, 3, RED);
    assert_eq!(frame, vec![0u8; 16]);
}

#[test]
fn glyph_draws_inked_pixels_only() {
    let size = Size { width: 4, height: 2 };
    let mut frame = vec![0u8; 32];
    draw_glyph(size, &mut frame, &[255, 10, 64, 63], 2, 1, 0, RED);
    for q in 0..8 {
        let expected = if q == 1 || q == 5 { RED } else { [0; 4] };
        assert_eq!(pixel(&frame, q), expected, "pixel {}", q);
    }
}

#[test]
fn glyph_is_clipped_at_the_edges() {
    let size = Size { width: 2, height: 2 };
    let mut frame = vec![0u8; 16];
    // Two columns drawn from column one: the second falls off the right.
    draw_glyph(size, &mut frame, &[200, 200, 200, 200], 2, 1, 1, RED);
    assert_eq!(pixel(&frame, 3), RED);
    assert_eq!(pixel(&frame, 0), [0; 4]);
    assert_eq!(pixel(&frame, 1), [0; 4]);
    assert_eq!(pixel(&frame, 2), [0; 4]);
}

#[test]
fn glyph_of_zero_width_draws_nothing() {
    let size = Size { width: 2, height: 2 };
    let mut frame = vec![0u8; 16];
    draw_glyph(size, &mut frame, &[255, 255], 0, 0, 0, RED);
    assert_eq!(frame, vec![0u8; 16]);
}

#[test]
fn digits_of_numbers() {
    assert_eq!(decimal_digits(0), b"0".to_vec());
    assert_eq!(decimal_digits(7), b"7".to_vec());
    assert_eq!(decimal_digits(42), b"42".to_vec());
    assert_eq!(decimal_digits(100), b"100".to_vec());
    assert_eq!(decimal_digits(255), b"255".to_vec());
}

#[test]
fn layouts_cycle() {
    let mut l = Layout::default();
    assert_eq!(l, Layout::Number);
    l.next();
    assert_eq!(l, Layout::Ascii);
    l.next();
    assert_eq!(l, Layout::Color);
    l.next();
    assert_eq!(l, Layout::Number);
}

#[test]
fn printable_ascii() {
    assert!(is_printable(b' '));
    assert!(is_printable(b'~'));
    assert!(is_printable(b'A'));
    assert!(!is_printable(31));
    assert!(!is_printable(127));
    assert!(!is_printable(200));
}

#[test]
fn looks_of_cells() {
    assert!(matches!(
        cell_look(Layout::Number, 65),
        CellLook::Number { value: 65, color } if color == THEME_FOREGROUND
    ));
    assert!(matches!(
        cell_look(Layout::Ascii, 65),
        CellLook::Character { ch: 65, color } if color == THEME_FOREGROUND
    ));
    assert!(matches!(
        cell_look(Layout::Ascii, 10),
        CellLook::Number { value: 10, color } if color == THEME_BACKGROUND
    ));
    assert!(matches!(
        cell_look(Layout::Color, 9),
        CellLook::Shade { color: [9, 9, 9, 255] }
    ));
}

#[test]
fn nearness_and_colors() {
    assert!(is_near(0, 4));
    assert!(!is_near(0, 5));
    assert!(is_near(9, 5));
    assert!(!is_near(10, 5));
    assert!(is_near(usize::MAX, usize::MAX - 4));
    assert_eq!(grid_color(3, 0), THEME_COMMENT);
    assert_eq!(grid_color(5, 0), THEME_SELECTION);
    assert_eq!(strip_color(3, 3), THEME_COMMENT);
    assert_eq!(strip_color(4, 3), THEME_SELECTION);
}

#[test]
fn strip_slots() {
    assert_eq!(strip_index(0, 100, 0), None);
    assert_eq!(strip_index(0, 100, 4), Some(0));
    assert_eq!(strip_index(10, 100, 0), Some(6));
    assert_eq!(strip_index(10, 100, 8), Some(14));
    // Near the end the strip stops four short of the last item.
    assert_eq!(strip_index(95, 100, 4), Some(95));
    assert_eq!(strip_index(95, 100, 5), None);
    assert_eq!(strip_index(0, 0, 4), None);
}

#[test]
fn grid_geometry() {
    assert_eq!(grid_rows(Size { width: 1280, height: 720 }), 13);
    assert_eq!(grid_rows(Size { width: 1280, height: 49 }), 0);
    let size = Size { width: 1280, height: 720 };
    assert_eq!(
        grid_cell(size, 0, 30000, 3, 2),
        Some(GridCell { index: 35, x: 790, y: 100 })
    );
    assert_eq!(
        grid_cell(size, 1, 30000, 0, 0),
        Some(GridCell { index: 16, x: 640, y: 0 })
    );
    assert_eq!(grid_cell(size, 0, 35, 3, 2), None);
}

#[test]
fn viewer_commands() {
    let mut v = Viewer::new();
    assert!(!v.handle(Command::Step, 100));
    assert!(v.step_requested);
    assert!(v.handle(Command::NextLayout, 100));
    assert_eq!(v.layout, Layout::Ascii);
    assert!(v.handle(Command::ScrollUp, 100));
    assert_eq!(v.scroll, 0);
    assert!(v.handle(Command::ScrollDown, 40));
    assert!(v.handle(Command::ScrollDown, 40));
    assert!(v.handle(Command::ScrollDown, 40));
    assert_eq!(v.scroll, 2);
    assert!(v.handle(Command::ScrollUp, 40));
    assert_eq!(v.scroll, 1);
    assert!(!v.handle(Command::Ignore, 40));
    assert_eq!(v.scroll, 1);
}
