use hourglass::display::{Color, DisplayBuffer, PixelError, Point, HEIGHT, WIDTH};

fn all_points() -> Vec<Point> {
    let mut points = Vec::new();
    for x in 0..WIDTH {
        for y in 0..HEIGHT {
            points.push(Point { x, y });
        }
    }
    points
}

#[test]
fn test_after_display_creation_buffer_is_black() {
    let display = DisplayBuffer::new();
    let mut point: Point = Point { x: 0, y: 0 };
    for x in 0..WIDTH {
        point.x = x;
        for y in 0..HEIGHT {
            point.y = y;
            assert!(display.get_pixel_color(&point) == Ok(Color::Black));
        }
    }
}

#[test]
fn test_after_fill_with_white_buffer_is_white() {
    let mut display = DisplayBuffer::new();
    display.fill_with_white();
    let mut point: Point = Point { x: 0, y: 0 };
    for x in 0..WIDTH {
        point.x = x;
        for y in 0..HEIGHT {
            point.y = y;
            assert!(display.get_pixel_color(&point) == Ok(Color::White));
        }
    }
}

#[test]
fn test_after_fill_with_black_buffer_is_all_black() {
    let mut display = DisplayBuffer::new();
    display.fill_with_white();
    display.fill_with_black();
    let mut point: Point = Point { x: 0, y: 0 };
    for x in 0..WIDTH {
        point.x = x;
        for y in 0..HEIGHT {
            point.y = y;
            assert!(display.get_pixel_color(&point) == Ok(Color::Black));
        }
    }
}

#[test]
fn test_set_and_get_of_pixels() {
    let mut display = DisplayBuffer::new();

    let mut points = Vec::<Point>::new();
    points.push(Point { x: 0, y: 0 });
    points.push(Point { x: 0, y: 127 });
    points.push(Point { x: 31, y: 0 });
    points.push(Point { x: 31, y: 127 });

    for point in points {
        assert!(display.get_pixel_color(&point) == Ok(Color::Black));
        display.set_pixel_color(&point, &Color::White);
        assert!(display.get_pixel_color(&point) == Ok(Color::White));
        display.set_pixel_color(&point, &Color::Black);
        assert!(display.get_pixel_color(&point) == Ok(Color::Black));
    }
}

#[test]
fn test_pixel_toggle() {
    let mut display = DisplayBuffer::new();

    let mut points = Vec::<Point>::new();
    points.push(Point { x: 0, y: 0 });
    points.push(Point { x: 0, y: 127 });
    points.push(Point { x: 31, y: 0 });
    points.push(Point { x: 31, y: 127 });

    for point in points {
        assert!(display.get_pixel_color(&point) == Ok(Color::Black));
        display.toggle_pixel(&point);
        assert!(display.get_pixel_color(&point) == Ok(Color::White));
        display.toggle_pixel(&point);
        assert!(display.get_pixel_color(&point) == Ok(Color::Black));
    }
}

fn check_rect(
    display: &DisplayBuffer,
    x0: isize,
    y0: isize,
    x1: isize,
    y1: isize,
    fill_color: &Color,
    border_color: &Color,
) -> bool {
    let bottom_left = Point { x: std::cmp::min(x0, x1), y: std::cmp::min(y0, y1) };
    let top_right = Point { x: std::cmp::max(x0, x1), y: std::cmp::max(y0, y1) };
    for x in bottom_left.x..(top_right.x + 1) {
        if display.get_pixel_color(&Point { x, y: bottom_left.y }).unwrap().ne(border_color) {
            return false;
        };
        if display.get_pixel_color(&Point { x, y: top_right.y }).unwrap().ne(border_color) {
            return false;
        };
    }
    for y in (bottom_left.y + 1)..top_right.y {
        if display.get_pixel_color(&Point { x: bottom_left.x, y }).unwrap().ne(border_color) {
            return false;
        };
        if display.get_pixel_color(&Point { x: top_right.x, y }).unwrap().ne(border_color) {
            return false;
        };
        for x in (bottom_left.x + 1)..top_right.x {
            if display.get_pixel_color(&Point { x, y }).unwrap().ne(fill_color) {
                return false;
            };
        }
    }
    true
}

#[test]
fn test_draw_boxes() {
    let mut display = DisplayBuffer::new();

    display.draw_box_with_points(&Point { x: 0, y: 0 }, &Point { x: 31, y: 127 }, &Color::Black, &Color::White);
    assert!(check_rect(&display, 0, 0, 31, 127, &Color::Black, &Color::White));
    display.fill_with_black();

    display.draw_box_with_coords(0, 0, 31, 127, &Color::Black, &Color::White);
    assert!(check_rect(&display, 0, 0, 31, 127, &Color::Black, &Color::White));
    display.fill_with_black();
}

#[test]
fn corners_read_white_and_the_rest_stays_black() {
    let mut display = DisplayBuffer::new();
    display.set_pixel_color(&Point { x: 0, y: 0 }, &Color::White);
    display.set_pixel_color(&Point { x: 31, y: 127 }, &Color::White);
    assert_eq!(display.get_pixel_color(&Point { x: 0, y: 0 }), Ok(Color::White));
    assert_eq!(display.get_pixel_color(&Point { x: 31, y: 127 }), Ok(Color::White));
    for p in [Point { x: 1, y: 0 }, Point { x: 0, y: 1 }, Point { x: 31, y: 0 }, Point { x: 0, y: 127 }, Point { x: 30, y: 127 }, Point { x: 16, y: 64 }] {
        assert_eq!(display.get_pixel_color(&p), Ok(Color::Black));
    }
    let whites = all_points().iter().filter(|p| display.get_pixel_color(p) == Ok(Color::White)).count();
    assert_eq!(whites, 2);
}

#[test]
fn pixel_addressing_is_bit_x_mod_8_of_byte_y_times_4_plus_x_div_8() {
    let mut display = DisplayBuffer::new();
    display.set_pixel_color(&Point { x: 10, y: 3 }, &Color::White);
    assert_eq!(display.buffer[13], 0b0000_0100);
    display.set_pixel_color(&Point { x: 7, y: 0 }, &Color::White);
    assert_eq!(display.buffer[0], 0b1000_0000);
    display.set_pixel_color(&Point { x: 10, y: 3 }, &Color::Black);
    assert_eq!(display.buffer[13], 0);
}

#[test]
fn reading_outside_the_frame_fails() {
    let display = DisplayBuffer::new();
    assert_eq!(display.get_pixel_color(&Point { x: 0, y: 128 }), Err(PixelError::OutOfRange));
    assert_eq!(display.get_pixel_color(&Point { x: 0, y: -1 }), Err(PixelError::OutOfRange));
    assert_eq!(display.get_pixel_color(&Point { x: isize::MAX, y: isize::MAX }), Err(PixelError::OutOfRange));
    assert_eq!(display.get_pixel_color(&Point { x: isize::MIN, y: 0 }), Err(PixelError::OutOfRange));
}

#[test]
fn writing_outside_the_frame_changes_nothing() {
    let mut display = DisplayBuffer::new();
    display.set_pixel_color(&Point { x: 0, y: 128 }, &Color::White);
    display.set_pixel_color(&Point { x: -1, y: 0 }, &Color::White);
    assert_eq!(display.toggle_pixel(&Point { x: 5, y: 200 }), Err(PixelError::OutOfRange));
    assert!(display.buffer.iter().all(|b| *b == 0));
}

#[test]
fn points_right_of_the_panel_fall_on_the_next_row() {
    let mut display = DisplayBuffer::new();
    display.set_pixel_color(&Point { x: 33, y: 0 }, &Color::White);
    assert_eq!(display.get_pixel_color(&Point { x: 1, y: 1 }), Ok(Color::White));
}

#[test]
fn toggling_twice_restores_every_byte() {
    let mut display = DisplayBuffer::new();
    display.buffer = [0x5Au8; 512];
    assert_eq!(display.toggle_pixel(&Point { x: 3, y: 9 }), Ok(()));
    assert_ne!(display.buffer, [0x5Au8; 512]);
    display.toggle_pixel(&Point { x: 3, y: 9 });
    assert_eq!(display.buffer, [0x5Au8; 512]);
}

#[test]
fn fill_white_then_black_ignores_the_prior_pattern() {
    let mut display = DisplayBuffer::new();
    display.draw_line_with_coords(0, 0, 31, 127, &Color::White);
    display.fill_with_white();
    assert!(display.buffer.iter().all(|b| *b == 0xFF));
    display.fill_with_black();
    assert!(display.buffer.iter().all(|b| *b == 0));
}

fn white_points(display: &DisplayBuffer) -> Vec<(isize, isize)> {
    all_points()
        .iter()
        .filter(|p| display.get_pixel_color(p) == Ok(Color::White))
        .map(|p| (p.x, p.y))
        .collect()
}

#[test]
fn shallow_line_visits_one_pixel_per_column() {
    let mut display = DisplayBuffer::new();
    display.draw_line_with_coords(0, 0, 2, 1, &Color::White);
    assert_eq!(white_points(&display), vec![(0, 0), (1, 1), (2, 1)]);
}

#[test]
fn line_drawn_backwards_covers_the_same_pixels() {
    let pairs = [((0, 0), (2, 1)), ((3, 5), (20, 90)), ((31, 0), (0, 127)), ((5, 60), (29, 57)), ((7, 7), (7, 40))];
    for ((ax, ay), (bx, by)) in pairs {
        let mut forward = DisplayBuffer::new();
        forward.draw_line_with_coords(ax, ay, bx, by, &Color::White);
        let mut backward = DisplayBuffer::new();
        backward.draw_line_with_coords(bx, by, ax, ay, &Color::White);
        assert_eq!(forward.buffer, backward.buffer);
        assert_eq!(forward.get_pixel_color(&Point { x: ax, y: ay }), Ok(Color::White));
        assert_eq!(forward.get_pixel_color(&Point { x: bx, y: by }), Ok(Color::White));
    }
}

#[test]
fn single_point_line_draws_one_pixel() {
    let mut display = DisplayBuffer::new();
    display.draw_line_with_points(&Point { x: 4, y: 4 }, &Point { x: 4, y: 4 }, &Color::White);
    assert_eq!(white_points(&display), vec![(4, 4)]);
}

#[test]
fn steep_line_visits_one_pixel_per_row() {
    let mut display = DisplayBuffer::new();
    display.draw_line_with_coords(0, 0, 1, 3, &Color::White);
    assert_eq!(white_points(&display), vec![(0, 0), (0, 1), (1, 2), (1, 3)]);
}

#[test]
fn box_from_any_pair_of_opposite_corners_is_the_same() {
    let mut reference = DisplayBuffer::new();
    reference.draw_box_with_coords(3, 10, 12, 20, &Color::White, &Color::White);
    for (x0, y0, x1, y1) in [(12, 20, 3, 10), (3, 20, 12, 10), (12, 10, 3, 20)] {
        let mut other = DisplayBuffer::new();
        other.draw_box_with_coords(x0, y0, x1, y1, &Color::White, &Color::White);
        assert_eq!(other.buffer, reference.buffer);
    }
}

#[test]
fn box_has_border_and_fill_colors() {
    let mut display = DisplayBuffer::new();
    display.fill_with_white();
    display.draw_box_with_points(&Point { x: 20, y: 50 }, &Point { x: 4, y: 40 }, &Color::Black, &Color::White);
    assert!(check_rect(&display, 4, 40, 20, 50, &Color::Black, &Color::White));
    assert_eq!(display.get_pixel_color(&Point { x: 12, y: 45 }), Ok(Color::Black));
    assert_eq!(display.get_pixel_color(&Point { x: 4, y: 45 }), Ok(Color::White));
    assert_eq!(display.get_pixel_color(&Point { x: 3, y: 45 }), Ok(Color::White));
    let blacks = all_points().iter().filter(|p| display.get_pixel_color(p) == Ok(Color::Black)).count();
    assert_eq!(blacks, 15 * 9);
}

#[test]
fn flat_and_thin_boxes_do_not_overrun() {
    let mut display = DisplayBuffer::new();
    display.draw_box_with_coords(5, 5, 5, 5, &Color::Black, &Color::White);
    assert_eq!(white_points(&display), vec![(5, 5)]);
    let mut display = DisplayBuffer::new();
    display.draw_box_with_coords(2, 7, 6, 8, &Color::Black, &Color::White);
    assert_eq!(white_points(&display).len(), 10);
    let mut display = DisplayBuffer::new();
    display.draw_box_with_coords(isize::MAX - 1, isize::MAX - 1, isize::MAX, isize::MAX, &Color::Black, &Color::White);
    assert!(display.buffer.iter().all(|b| *b == 0));
}
