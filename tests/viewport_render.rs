use mandelbrot::control::{
    apply_command, command_for_event, command_for_key, next_phase, pace, prepare_frame, Command,
    Event, Key, Pace,
};
use mandelbrot::escape::mand;
use mandelbrot::fixed::{ONE, TWO};
use mandelbrot::palette::colormap;
use mandelbrot::render::{draw_frame, draw_row_rgba32, render_frame};
use mandelbrot::report::push_decimal;
use mandelbrot::viewport::{calc_side, Zoom};

fn text(z: &Zoom) -> String {
    String::from_utf8(z.describe()).unwrap()
}

#[test]
fn default_viewport() {
    let z = Zoom::default();
    assert_eq!((z.center_x, z.center_y, z.zoom), (0, 0, 0));
    assert_eq!(z.side, 4 * ONE);
    assert_eq!(z.max_iter, 200);
    assert_eq!(z.resolution, 4);
}

#[test]
fn pan_then_print() {
    let mut z = Zoom::default();
    z.right();
    assert_eq!(z.center_x, 4 * ONE / 10);
    assert_eq!(z.center_y, 0);
    assert_eq!(text(&z), "Zoom: (0.4,0), zoom=10^0, maxiter=200");
}

#[test]
fn print_after_other_moves() {
    let mut z = Zoom::default();
    z.up();
    z.zoom_in();
    z.more_iter(25);
    assert_eq!(text(&z), "Zoom: (0,-0.4), zoom=10^0.1, maxiter=225");
    for _ in 0..10 {
        z.zoom_in();
    }
    assert_eq!(text(&z), "Zoom: (0,-0.4), zoom=10^1.1, maxiter=225");
}

#[test]
fn decimal_text_of_values() {
    let cases: [(i128, &str); 6] = [
        (0, "0"),
        (ONE, "1"),
        (-ONE / 4, "-0.25"),
        (3 * ONE / 2, "1.5"),
        (-TWO, "-2"),
        (1, "0"),
    ];
    for (v, t) in cases {
        let mut out = Vec::new();
        push_decimal(&mut out, v);
        assert_eq!(String::from_utf8(out).unwrap(), t);
    }
}

#[test]
fn pans_clamp_to_square() {
    let mut z = Zoom::default();
    for _ in 0..100 {
        z.left();
        z.up();
    }
    assert_eq!((z.center_x, z.center_y), (-TWO, -TWO));
    for _ in 0..100 {
        z.right();
        z.down();
    }
    assert_eq!((z.center_x, z.center_y), (TWO, TWO));
}

#[test]
fn zoom_out_stops_at_zero() {
    let mut z = Zoom::default();
    z.zoom_out();
    assert_eq!(z.zoom, 0);
    assert_eq!(z.side, 4 * ONE);
    z.zoom_in();
    z.zoom_in();
    z.zoom_out();
    assert_eq!(z.zoom, 1);
    assert_eq!(z.side, calc_side(1));
}

#[test]
fn zooming_in_never_widens() {
    let mut z = Zoom::default();
    for _ in 0..200 {
        let before = z.side;
        z.zoom_in();
        assert!(z.side <= before);
    }
    for _ in 0..200 {
        let before = z.side;
        z.zoom_out();
        assert!(z.side >= before);
    }
    assert_eq!(z.side, 4 * ONE);
}

#[test]
fn side_follows_powers_of_ten() {
    assert_eq!(calc_side(0), 4 * ONE);
    assert_eq!(calc_side(10), 4 * ONE / 10);
    assert_eq!(calc_side(20), 4 * ONE / 100);
    // 4 * 10^-0.5 = 1.2649...
    let s = calc_side(5);
    assert!(s > 12649 * ONE / 10000 && s < 12650 * ONE / 10000);
    // Past 10^-18 the view has no height left.
    assert_eq!(calc_side(180), 0);
    assert_eq!(calc_side(u32::MAX), 0);
}

#[test]
fn iteration_and_resolution_limits() {
    let mut z = Zoom::default();
    z.less_iter(500);
    assert_eq!(z.max_iter, 2);
    z.more_iter(25);
    assert_eq!(z.max_iter, 27);
    z.more_iter(u64::MAX);
    assert_eq!(z.max_iter, u64::MAX);
    z.more_resolution();
    z.more_resolution();
    z.more_resolution();
    assert_eq!(z.resolution, 2);
    z.less_resolution();
    assert_eq!(z.resolution, 3);
}

#[test]
fn transform_centre_pixel() {
    let mut z = Zoom::default();
    z.right();
    z.down();
    for (w, h) in [(200u32, 150u32), (201, 151), (7, 3), (1, 1)] {
        z.set_size((w, h));
        assert_eq!(z.get_cx(w / 2), z.center_x);
        let dy = z.get_cy(h / 2) - z.center_y;
        assert!(dy >= 0 && dy <= z.side / (h as i128) + 1);
        assert!(2 * (h as i128) * dy < z.side + 2 * (h as i128));
    }
}

#[test]
fn transform_pixel_steps() {
    let mut z = Zoom::default();
    z.set_size((4, 2));
    // Height 4 over 2 rows: 2 per pixel; the top row is at +2.
    assert_eq!(z.get_cy(0), TWO);
    assert_eq!(z.get_cy(1), 0);
    assert_eq!(z.get_cx(0), -2 * TWO);
    assert_eq!(z.get_cx(3), TWO);
}

#[test]
fn default_view_frame() {
    let mut z = Zoom::default();
    let (w, h) = prepare_frame(&mut z, (800, 600));
    assert_eq!((w, h), (200, 150));
    assert_eq!((z.width, z.height), (200, 150));
    assert_eq!(z.get_cx(100), 0);
    assert_eq!(z.get_cy(75), 0);
    let stride = 4 * w as usize;
    let mut buf = vec![7u8; stride * h as usize];
    assert!(draw_frame(&mut buf, stride, &z, 0));
    let at = 75 * stride + 4 * 100;
    assert_eq!(&buf[at..at + 4], &[0, 0, 0, 255]);
    // The top-left corner, at (-2.67, 2), escapes: not black, opaque.
    assert_eq!(buf[3], 255);
    assert_ne!(&buf[0..3], &[0, 0, 0]);
}

#[test]
fn pixel_bytes_are_blue_green_red_alpha() {
    let mut z = Zoom::default();
    z.set_size((3, 2));
    let mut row = vec![0u8; 12];
    draw_row_rgba32(&mut row, 0, &z, 0, 5);
    for x in 0..3u32 {
        let c = colormap(mand(z.get_cx(x), z.get_cy(0), z.max_iter), 5);
        let p = 4 * x as usize;
        assert_eq!(&row[p..p + 4], &[c.b, c.g, c.r, 255]);
    }
}

#[test]
fn row_padding_left_alone() {
    let mut z = Zoom::default();
    z.set_size((3, 2));
    let stride = 16;
    let mut buf = vec![9u8; stride * 2 + 5];
    render_frame(&mut buf, stride, &z, 0);
    for y in 0..2 {
        assert_eq!(&buf[y * stride + 12..y * stride + 16], &[9, 9, 9, 9]);
    }
    assert_eq!(&buf[32..], &[9, 9, 9, 9, 9]);
}

#[test]
fn renders_are_identical() {
    let mut z = Zoom::default();
    z.zoom_in();
    z.left();
    let (w, h) = prepare_frame(&mut z, (160, 120));
    let stride = 4 * w as usize + 8;
    let mut a = vec![0u8; stride * h as usize];
    let mut b = vec![0u8; stride * h as usize];
    assert!(draw_frame(&mut a, stride, &z, 300));
    assert!(draw_frame(&mut b, stride, &z, 300));
    assert_eq!(a, b);
    let first = a.clone();
    assert!(draw_frame(&mut a, stride, &z, 300));
    assert_eq!(a, first);
}

#[test]
fn row_order_does_not_matter() {
    let mut z = Zoom::default();
    let (w, h) = prepare_frame(&mut z, (120, 96));
    let stride = 4 * w as usize;
    let mut sequential = vec![1u8; stride * h as usize];
    render_frame(&mut sequential, stride, &z, 77);
    let mut parallel = vec![1u8; stride * h as usize];
    assert!(draw_frame(&mut parallel, stride, &z, 77));
    assert_eq!(sequential, parallel);
    let mut reversed = vec![1u8; stride * h as usize];
    for y in (0..h).rev() {
        draw_row_rgba32(&mut reversed, y as usize * stride, &z, y, 77);
    }
    assert_eq!(sequential, reversed);
}

#[test]
fn unusable_layout_is_refused() {
    let mut z = Zoom::default();
    z.set_size((10, 10));
    let mut buf = vec![3u8; 400];
    assert!(!draw_frame(&mut buf, 0, &z, 0));
    assert!(!draw_frame(&mut buf, 39, &z, 0));
    assert!(!draw_frame(&mut buf, 41, &z, 0));
    assert_eq!(buf, vec![3u8; 400]);
    assert!(draw_frame(&mut buf, 40, &z, 0));
}

#[test]
fn key_bindings() {
    assert_eq!(command_for_key(Key::Escape, false), Command::Quit);
    assert_eq!(command_for_key(Key::Q, true), Command::Quit);
    assert_eq!(command_for_key(Key::Q, false), Command::Unbound);
    assert_eq!(command_for_key(Key::Up, false), Command::PanUp);
    assert_eq!(command_for_key(Key::Kp8, false), Command::PanUp);
    assert_eq!(command_for_key(Key::Kp2, false), Command::PanDown);
    assert_eq!(command_for_key(Key::Kp4, false), Command::PanLeft);
    assert_eq!(command_for_key(Key::Right, false), Command::PanRight);
    assert_eq!(command_for_key(Key::KpPlus, false), Command::ZoomIn);
    assert_eq!(command_for_key(Key::KpMinus, false), Command::ZoomOut);
    assert_eq!(command_for_key(Key::Kp9, false), Command::MoreIter);
    assert_eq!(command_for_key(Key::PageDown, false), Command::LessIter);
    assert_eq!(command_for_key(Key::Period, false), Command::Sharpen);
    assert_eq!(command_for_key(Key::Comma, false), Command::Coarsen);
    assert_eq!(command_for_key(Key::Equals, false), Command::Print);
    assert_eq!(command_for_key(Key::Other, true), Command::Unbound);
}

#[test]
fn events_to_commands() {
    assert_eq!(command_for_event(Event::Quit), Command::Quit);
    assert_eq!(command_for_event(Event::Other), Command::Nothing);
    let down = Event::KeyDown { key: Key::Left, ctrl: false, repeat: false };
    assert_eq!(command_for_event(down), Command::PanLeft);
    let held = Event::KeyDown { key: Key::Left, ctrl: false, repeat: true };
    assert_eq!(command_for_event(held), Command::Nothing);
}

#[test]
fn commands_move_viewport() {
    let mut z = Zoom::default();
    apply_command(&mut z, Command::PanUp);
    assert_eq!(z.center_y, -(4 * ONE / 10));
    apply_command(&mut z, Command::MoreIter);
    assert_eq!(z.max_iter, 225);
    apply_command(&mut z, Command::LessIter);
    apply_command(&mut z, Command::LessIter);
    assert_eq!(z.max_iter, 175);
    apply_command(&mut z, Command::Coarsen);
    assert_eq!(z.resolution, 5);
    let before = z;
    apply_command(&mut z, Command::Print);
    apply_command(&mut z, Command::Quit);
    apply_command(&mut z, Command::Nothing);
    assert_eq!(z, before);
}

#[test]
fn pacing_under_and_over_budget() {
    let period = 33_333_333u64;
    assert_eq!(
        pace(1_000, 11_000_000, period),
        Pace { sleep: period - 10_999_000, tick: 1_000 + period, elapsed: period }
    );
    assert_eq!(pace(0, 50_000_000, period), Pace { sleep: 0, tick: 50_000_000, elapsed: 50_000_000 });
    assert_eq!(pace(0, period, period), Pace { sleep: 0, tick: period, elapsed: period });
}

#[test]
fn phase_advance() {
    let period = 33_333_333u64;
    assert_eq!(next_phase(0, period, period), 2);
    assert_eq!(next_phase(1023, period, period), 1);
    assert_eq!(next_phase(10, 50_000_000, period), 13);
    assert_eq!(next_phase(10, 0, period), 10);
    assert_eq!(next_phase(0, 1024 * period / 2, period), 0);
}
