use softrender::display::{ColorBuffer, GRID_COLOR};
use softrender::pipeline::{
    render, time_to_wait, BACKGROUND_COLOR, FRAME_TARGET_TIME, MARKER_COLOR, MARKER_SIZE,
};
use softrender::triangle::{ScreenPoint, Triangle};

fn cell(buf: &ColorBuffer, x: usize, y: usize) -> u32 {
    buf.pixels[buf.width * y + x]
}

fn p(x: u32, y: u32) -> ScreenPoint {
    ScreenPoint { x, y }
}

#[test]
fn frame_budget_is_thirty_three_ms() {
    assert_eq!(FRAME_TARGET_TIME, 33);
    assert_eq!(MARKER_SIZE, 3);
}

#[test]
fn wait_is_what_is_left_of_the_budget() {
    assert_eq!(time_to_wait(100, 80), Some(13));
    assert_eq!(time_to_wait(100, 100), Some(33));
    assert_eq!(time_to_wait(132, 100), Some(1));
}

#[test]
fn no_wait_when_budget_is_spent() {
    assert_eq!(time_to_wait(133, 100), None);
    assert_eq!(time_to_wait(5000, 100), None);
}

#[test]
fn no_wait_when_clock_goes_backwards() {
    assert_eq!(time_to_wait(10, 50), None);
    assert_eq!(time_to_wait(0, u32::MAX), None);
}

#[test]
fn first_frame_from_zero() {
    assert_eq!(time_to_wait(0, 0), Some(33));
    assert_eq!(time_to_wait(u32::MAX, 0), None);
}

#[test]
fn render_draws_grid_then_markers() {
    let mut buf = ColorBuffer::new(40, 30, 0xFF000000).unwrap();
    let t = Triangle { point: [p(9, 9), p(20, 5), p(38, 28)] };
    let frame = render(&mut buf, &[t]);
    assert!(buf.pixels.iter().all(|&c| c == BACKGROUND_COLOR));
    let buf = frame;
    // the first marker covers the grid dot at (10, 10)
    assert_eq!(cell(&buf, 10, 10), MARKER_COLOR);
    assert_eq!(cell(&buf, 9, 9), MARKER_COLOR);
    assert_eq!(cell(&buf, 11, 11), MARKER_COLOR);
    assert_eq!(cell(&buf, 12, 12), 0xFF000000);
    assert_eq!(cell(&buf, 20, 10), GRID_COLOR);
    assert_eq!(cell(&buf, 22, 7), MARKER_COLOR);
    assert_eq!(cell(&buf, 20, 20), GRID_COLOR);
    // the last marker is clipped at the frame's corner
    assert_eq!(cell(&buf, 39, 29), MARKER_COLOR);
    assert_eq!(cell(&buf, 0, 0), GRID_COLOR);
    let markers = buf.pixels.iter().filter(|&&c| c == MARKER_COLOR).count();
    assert_eq!(markers, 9 + 9 + 4);
}

#[test]
fn render_with_no_triangles_is_the_grid() {
    let mut buf = ColorBuffer::new(21, 11, 0).unwrap();
    let frame = render(&mut buf, &[]);
    assert_eq!(frame.pixels.iter().filter(|&&c| c == GRID_COLOR).count(), 6);
}

#[test]
fn render_offscreen_vertex_is_dropped() {
    let mut buf = ColorBuffer::new(20, 20, 0).unwrap();
    let t = Triangle { point: [p(u32::MAX, 3), p(3, 20), p(20, 20)] };
    let frame = render(&mut buf, &[t]);
    assert_eq!(frame.pixels.iter().filter(|&&c| c == MARKER_COLOR).count(), 0);
}

#[test]
fn render_leaves_the_buffer_cleared() {
    let mut buf = ColorBuffer::new(1, 1, 0x12345678).unwrap();
    let frame = render(&mut buf, &[]);
    assert_eq!(frame.pixels, vec![GRID_COLOR]);
    assert_eq!((frame.width, frame.height), (1, 1));
    assert_eq!(buf.pixels, vec![BACKGROUND_COLOR]);
    assert_eq!((buf.width, buf.height), (1, 1));
}

#[test]
fn consecutive_frames_do_not_accumulate() {
    let mut buf = ColorBuffer::new(30, 20, BACKGROUND_COLOR).unwrap();
    let first = render(&mut buf, &[Triangle { point: [p(5, 5), p(5, 5), p(5, 5)] }]);
    assert_eq!(first.pixels[30 * 5 + 5], MARKER_COLOR);
    let second = render(&mut buf, &[Triangle { point: [p(15, 5), p(15, 5), p(15, 5)] }]);
    assert_eq!(second.pixels[30 * 5 + 5], BACKGROUND_COLOR);
    assert_eq!(second.pixels[30 * 5 + 15], MARKER_COLOR);
}
