use verle::canvas::Canvas;
use verle::pos::Pos;
use verle::rect::Rect;
use verle::size::Size;

const BG: u32 = 0x0011_2233;
const C1: u32 = 0x00ff_0000;
const C2: u32 = 0x0000_ff00;

fn pixels(canvas: &Canvas) -> Vec<u32> {
    canvas.flush().unwrap()
}

#[test]
fn fresh_canvas_flushes_uniform_default() {
    let canvas = Canvas::new(BG, Size::new(3, 2));
    let buf = pixels(&canvas);
    assert_eq!(buf.len(), 6);
    assert!(buf.iter().all(|&p| p == BG));
}

#[test]
fn empty_canvas_flushes_empty() {
    let canvas = Canvas::new(BG, Size::new(0, 5));
    assert_eq!(pixels(&canvas).len(), 0);
}

#[test]
fn dot_writes_inside_canvas() {
    let mut canvas = Canvas::new(BG, Size::new(4, 3));
    canvas.draw_dot(Pos::new(2, 1), C1);
    let buf = pixels(&canvas);
    for y in 0..3i32 {
        for x in 0..4i32 {
            let expected = if (x, y) == (2, 1) { C1 } else { BG };
            assert_eq!(buf[(y * 4 + x) as usize], expected);
        }
    }
}

#[test]
fn dot_outside_canvas_is_skipped() {
    let mut canvas = Canvas::new(BG, Size::new(4, 3));
    canvas.draw_dot(Pos::new(-1, 0), C1);
    canvas.draw_dot(Pos::new(4, 0), C1);
    canvas.draw_dot(Pos::new(0, 3), C1);
    assert!(pixels(&canvas).iter().all(|&p| p == BG));
}

#[test]
fn dot_at_clip_top_left_writes() {
    let mut canvas = Canvas::new(BG, Size::new(8, 8));
    let clip = Rect::try_new(Pos::new(2, 2), Pos::new(6, 6)).unwrap();
    canvas.draw_dot_in_rect(Pos::new(2, 2), C1, &clip);
    assert_eq!(pixels(&canvas)[2 * 8 + 2], C1);
}

#[test]
fn dot_at_clip_bottom_right_never_writes() {
    let mut canvas = Canvas::new(BG, Size::new(8, 8));
    let clip = Rect::try_new(Pos::new(2, 2), Pos::new(6, 6)).unwrap();
    canvas.draw_dot_in_rect(Pos::new(6, 6), C1, &clip);
    assert!(pixels(&canvas).iter().all(|&p| p == BG));
}

#[test]
fn diagonal_line_visits_exactly_the_diagonal() {
    let mut canvas = Canvas::new(BG, Size::new(5, 5));
    canvas.draw_line(Pos::new(0, 0), Pos::new(3, 3), C1);
    let buf = pixels(&canvas);
    for y in 0..5i32 {
        for x in 0..5i32 {
            let expected = if x == y && x <= 3 { C1 } else { BG };
            assert_eq!(buf[(y * 5 + x) as usize], expected, "pixel ({x}, {y})");
        }
    }
}

#[test]
fn horizontal_line_visits_all_five_pixels() {
    let mut canvas = Canvas::new(BG, Size::new(6, 3));
    canvas.draw_line(Pos::new(0, 0), Pos::new(4, 0), C1);
    let buf = pixels(&canvas);
    for y in 0..3i32 {
        for x in 0..6i32 {
            let expected = if y == 0 && x <= 4 { C1 } else { BG };
            assert_eq!(buf[(y * 6 + x) as usize], expected, "pixel ({x}, {y})");
        }
    }
}

#[test]
fn line_fully_outside_clip_leaves_buffer_unchanged() {
    let mut canvas = Canvas::new(BG, Size::new(10, 10));
    let clip = Rect::try_new(Pos::new(2, 2), Pos::new(6, 6)).unwrap();
    canvas.draw_line_in_rect(Pos::new(7, 0), Pos::new(9, 9), C1, &clip);
    canvas.draw_line_in_rect(Pos::new(0, 0), Pos::new(9, 0), C1, &clip);
    assert!(pixels(&canvas).iter().all(|&p| p == BG));
}

#[test]
fn line_partially_in_clip_writes_only_inside() {
    let mut canvas = Canvas::new(BG, Size::new(10, 10));
    let clip = Rect::try_new(Pos::new(2, 2), Pos::new(6, 6)).unwrap();
    canvas.draw_line_in_rect(Pos::new(0, 4), Pos::new(9, 4), C1, &clip);
    let buf = pixels(&canvas);
    for y in 0..10i32 {
        for x in 0..10i32 {
            let expected = if y == 4 && (2..6).contains(&x) { C1 } else { BG };
            assert_eq!(buf[(y * 10 + x) as usize], expected, "pixel ({x}, {y})");
        }
    }
}

#[test]
fn zero_radius_circle_writes_one_outline_pixel() {
    let mut canvas = Canvas::new(BG, Size::new(9, 9));
    canvas.draw_circle(Pos::new(5, 5), 0, C1, C2);
    let buf = pixels(&canvas);
    for y in 0..9i32 {
        for x in 0..9i32 {
            let expected = if (x, y) == (5, 5) { C1 } else { BG };
            assert_eq!(buf[(y * 9 + x) as usize], expected, "pixel ({x}, {y})");
        }
    }
}

#[test]
fn circle_bands_follow_the_squared_distance_thresholds() {
    let mut canvas = Canvas::new(BG, Size::new(21, 21));
    let (cx, cy, r) = (10i32, 10i32, 5i32);
    canvas.draw_circle(Pos::new(cx, cy), r as u32, C1, C2);
    let buf = pixels(&canvas);
    for y in 0..21i32 {
        for x in 0..21i32 {
            let d = (x - cx) * (x - cx) + (y - cy) * (y - cy);
            let expected = if d <= r * r - r {
                C2
            } else if d < r * r + r {
                C1
            } else {
                BG
            };
            assert_eq!(buf[(y * 21 + x) as usize], expected, "pixel ({x}, {y})");
        }
    }
}

#[test]
fn circle_example_pixels_from_the_thresholds() {
    let mut canvas = Canvas::new(BG, Size::new(21, 21));
    canvas.draw_circle(Pos::new(10, 10), 5, C1, C2);
    let buf = pixels(&canvas);
    assert_eq!(buf[10 * 21 + 10], C2, "center is fill");
    assert_eq!(buf[10 * 21 + 15], C1, "squared distance 25 is outline");
    assert_eq!(buf[10 * 21 + 16], BG, "squared distance 36 is untouched");
}

#[test]
fn circle_fully_outside_clip_leaves_buffer_unchanged() {
    let mut canvas = Canvas::new(BG, Size::new(10, 10));
    let clip = Rect::try_new(Pos::new(2, 2), Pos::new(6, 6)).unwrap();
    canvas.draw_circle_in_rect(Pos::new(9, 3), 2, C1, C2, &clip);
    assert!(pixels(&canvas).iter().all(|&p| p == BG));
}

#[test]
fn circle_in_zero_size_clip_is_skipped() {
    let mut canvas = Canvas::new(BG, Size::new(10, 10));
    let clip = Rect::try_new(Pos::new(3, 3), Pos::new(3, 8)).unwrap();
    canvas.draw_circle_in_rect(Pos::new(4, 4), 2, C1, C2, &clip);
    canvas.draw_circle_in_rect(Pos::new(4, 4), 0, C1, C2, &clip);
    assert!(pixels(&canvas).iter().all(|&p| p == BG));
}

#[test]
fn circle_clipped_to_rect_writes_only_inside() {
    let mut canvas = Canvas::new(BG, Size::new(12, 12));
    let clip = Rect::try_new(Pos::new(5, 0), Pos::new(12, 12)).unwrap();
    let (cx, cy, r) = (5i32, 5i32, 3i32);
    canvas.draw_circle_in_rect(Pos::new(cx, cy), r as u32, C1, C2, &clip);
    let buf = pixels(&canvas);
    for y in 0..12i32 {
        for x in 0..12i32 {
            let d = (x - cx) * (x - cx) + (y - cy) * (y - cy);
            let expected = if x >= 5 && d <= r * r - r {
                C2
            } else if x >= 5 && d < r * r + r {
                C1
            } else {
                BG
            };
            assert_eq!(buf[(y * 12 + x) as usize], expected, "pixel ({x}, {y})");
        }
    }
}

#[test]
fn partly_off_canvas_circle_is_clamped() {
    let mut canvas = Canvas::new(BG, Size::new(6, 6));
    let (cx, cy, r) = (0i32, 0i32, 3i32);
    canvas.draw_circle(Pos::new(cx, cy), r as u32, C1, C2);
    let buf = pixels(&canvas);
    for y in 0..6i32 {
        for x in 0..6i32 {
            let d = x * x + y * y;
            let expected = if d <= r * r - r {
                C2
            } else if d < r * r + r {
                C1
            } else {
                BG
            };
            assert_eq!(buf[(y * 6 + x) as usize], expected, "pixel ({x}, {y})");
        }
    }
}

#[test]
fn line_direction_does_not_change_the_endpoints() {
    let mut forward = Canvas::new(BG, Size::new(8, 8));
    forward.draw_line(Pos::new(1, 1), Pos::new(6, 4), C1);
    let fbuf = pixels(&forward);
    assert_eq!(fbuf[1 * 8 + 1], C1);
    assert_eq!(fbuf[4 * 8 + 6], C1);
    let mut backward = Canvas::new(BG, Size::new(8, 8));
    backward.draw_line(Pos::new(6, 4), Pos::new(1, 1), C1);
    let bbuf = pixels(&backward);
    assert_eq!(bbuf[1 * 8 + 1], C1);
    assert_eq!(bbuf[4 * 8 + 6], C1);
}

#[test]
fn flush_error_message_text() {
    let canvas = Canvas::new(BG, Size::new(2, 2));
    assert!(canvas.flush().is_ok());
    assert_eq!(
        verle::canvas::Error::InvalidBufferLayout.message(),
        "Invalid buffer layout"
    );
}
