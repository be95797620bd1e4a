use raytracer::color::{black, FIXED_ONE};
use raytracer::{Canvas, Color};

#[test]
fn create_canvas() {
    let c = Canvas::new(10, 20);
    assert_eq!(c.width, 10);
    assert_eq!(c.height, 20);
    for x in -5..5 {
        for y in -10..10 {
            let color = c.pixel_at(x, y);
            assert!(color.is_equal(&Color::new(0, 0, 0)))
        }
    }
}

#[test]
fn write_pixel_to_canvas() {
    let mut c: Canvas = Canvas::new(10, 20);
    let red = Color::new(FIXED_ONE, 0, 0);
    let red_clone = red.clone();
    c.write_pixel(2, 3, red);
    let res = c.pixel_at(2, 3);
    assert!(res.is_equal(&red_clone));
}

#[test]
fn construct_ppm_header() {
    let c = Canvas::new(5, 3);
    let ppm = c.to_ppm();
    let lines = ppm.lines().collect::<Vec<_>>();
    assert_eq!(lines[0], "P3");
    assert_eq!(lines[1], "5 3");
    assert_eq!(lines[2], "255");
}

#[test]
fn construct_ppm_pixel_data() {
    let mut c = Canvas::new(6, 4);
    let c1 = Color::new(150_000, 0, 0);
    let c2 = Color::new(0, 50_000, 0);
    let c3 = Color::new(-50_000, 0, 100_000);

    c.write_pixel(2, 1, c1);
    c.write_pixel(0, 0, c2);
    c.write_pixel(-3, -1, c3);
    let ppm = c.to_ppm();
    let lines = ppm.lines().collect::<Vec<_>>();
    assert_eq!(lines[3], "0 0 0 0 0 0 0 0 0 0 0 0 0 0 0 255 0 0");
    assert_eq!(lines[4], "0 0 0 0 0 0 0 0 0 0 128 0 0 0 0 0 0 0");
    assert_eq!(lines[5], "0 0 255 0 0 0 0 0 0 0 0 0 0 0 0 0 0 0");
}

#[test]
fn split_long_lines() {
    let fill_color = Color::new(100_000, 80_000, 60_000);
    let c = Canvas::new_with_fill(10, 2, &fill_color);
    let ppm = c.to_ppm();
    let lines = ppm.lines().collect::<Vec<_>>();
    assert_eq!(
        lines[3],
        "255 204 153 255 204 153 255 204 153 255 204 153 255 204 153 255 204"
    );
    assert_eq!(
        lines[4],
        "153 255 204 153 255 204 153 255 204 153 255 204 153"
    );
    assert_eq!(
        lines[3],
        "255 204 153 255 204 153 255 204 153 255 204 153 255 204 153 255 204"
    );
    assert_eq!(
        lines[4],
        "153 255 204 153 255 204 153 255 204 153 255 204 153"
    );
}

#[test]
fn is_terminated_by_newline() {
    let c = Canvas::new(5, 3);
    let ppm = c.to_ppm();
    let last = ppm.chars().last().unwrap();
    assert_eq!(last, '\n');
}

#[test]
fn empty_canvas_is_header_only() {
    let c = Canvas::new(0, 0);
    assert_eq!(c.to_ppm(), "P3\n0 0\n255\n");
}

#[test]
fn whole_ppm_text_of_small_canvas() {
    let mut c = Canvas::new(2, 2);
    c.write_pixel(-1, 0, Color::new(FIXED_ONE, FIXED_ONE, FIXED_ONE));
    c.write_pixel(0, -1, Color::new(0, 20_000, 1_000_000));
    assert_eq!(c.to_ppm(), "P3\n2 2\n255\n255 255 255 0 0 0\n0 0 0 0 51 255\n");
}

#[test]
fn channels_round_half_up_and_clamp() {
    let mut c = Canvas::new(1, 1);
    c.write_pixel(0, 0, Color::new(-1, 197, 99_999));
    assert_eq!(c.to_ppm().lines().nth(3), Some("0 1 255"));
    c.write_pixel(0, 0, Color::new(196, 1, 250_000));
    assert_eq!(c.to_ppm().lines().nth(3), Some("0 0 255"));
}

#[test]
fn lines_never_exceed_seventy_characters() {
    let c = Canvas::new_with_fill(30, 3, &Color::new(FIXED_ONE, FIXED_ONE, FIXED_ONE));
    let ppm = c.to_ppm();
    let lines = ppm.lines().collect::<Vec<_>>();
    for line in &lines {
        assert!(line.len() <= 70);
    }
    // 90 words of 4 characters a row: 17 words fit on a line of 70 characters.
    assert_eq!(lines[3].len(), 17 * 4 - 1);
    assert_eq!(lines.len(), 3 + 3 * 6);
}

#[test]
fn write_outside_canvas_changes_nothing() {
    let mut c = Canvas::new(4, 4);
    let before = c.to_ppm();
    let red = Color::new(FIXED_ONE, 0, 0);
    c.write_pixel(2, 0, red);
    c.write_pixel(-3, 0, red);
    c.write_pixel(0, 2, red);
    c.write_pixel(0, -3, red);
    assert_eq!(c.to_ppm(), before);
    assert_eq!(c.pixels, vec![black(); 16]);
}

#[test]
fn grid_pixel_counts_from_top_left() {
    let mut c = Canvas::new(5, 3);
    let red = Color::new(FIXED_ONE, 0, 0);
    c.write_grid_pixel(0, 0, red);
    assert_eq!(*c.pixel_at(-2, 1), red);
    c.write_grid_pixel(4, 2, red);
    assert_eq!(*c.pixel_at(2, -1), red);
    c.write_grid_pixel(5, 0, Color::new(0, FIXED_ONE, 0));
    assert_eq!(c.pixels.iter().filter(|p| **p == red).count(), 2);
    assert_eq!(c.pixels.iter().filter(|p| **p == black()).count(), 13);
}
