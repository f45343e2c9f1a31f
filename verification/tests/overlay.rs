use sshot::config::AppearanceConfig;
use sshot::coord::Coord;
use sshot::coord::Point;
use sshot::overlay::output_geometry;
use sshot::overlay::Highlight;
use sshot::overlay::OutputGeometry;
use sshot::overlay::OutputMode;
use sshot::overlay::PointerEvent;
use sshot::overlay::Selection;
use sshot::overlay::Session;
use sshot::overlay::WindowInfo;

fn coord(n: f64) -> Coord {
    Coord { bits: n.to_bits() }
}

fn point(x: f64, y: f64) -> Point {
    Point { x: coord(x), y: coord(y) }
}

fn window(name: &str, x: f64, y: f64, w: f64, h: f64) -> WindowInfo {
    WindowInfo {
        title: name.to_string(),
        id: format!("id-{name}"),
        x: coord(x),
        y: coord(y),
        width: coord(w),
        height: coord(h),
        right: coord(x + w),
        bottom: coord(y + h),
    }
}

fn session() -> Session {
    let shot: Vec<u8> = (0..64).collect();
    let windows = vec![
        window("low", 0.0, 0.0, 100.0, 100.0),
        window("high", 50.0, 50.0, 100.0, 100.0),
    ];
    Session::new(AppearanceConfig::default(), shot, 4, 16, windows)
}

fn two_by_two() -> OutputGeometry {
    OutputGeometry {
        phys_w: 2,
        phys_h: 2,
        logical_w: 2,
        logical_h: 2,
        logical_x: 1,
        logical_y: 1,
    }
}

/// Moves the pointer, as far from where the button was pressed as it is.
fn go(s: &mut Session, x: f64, y: f64) -> bool {
    let dx = coord(x - f64::from_bits(s.pointer.press.x.bits));
    let dy = coord(y - f64::from_bits(s.pointer.press.y.bits));
    s.pointer_event(PointerEvent::Moved { mouse: point(x, y), dx, dy })
}

fn drag_size(s: &Session) -> (Coord, Coord) {
    let (a, b) = (s.pointer.drag_start, s.pointer.drag_end);
    let difference = |p: Coord, q: Coord| coord(f64::from_bits(p.bits) - f64::from_bits(q.bits));
    (difference(a.x, b.x), difference(a.y, b.y))
}

fn press(s: &mut Session, button: u32) -> bool {
    s.pointer_event(PointerEvent::Pressed { button })
}

fn release(s: &mut Session, button: u32) -> bool {
    let (dx, dy) = drag_size(s);
    s.pointer_event(PointerEvent::Released { button, dx, dy })
}

#[test]
fn the_topmost_window_is_found() {
    let s = session();
    assert_eq!(s.window_at(point(10.0, 10.0)), Some(0));
    assert_eq!(s.window_at(point(60.0, 60.0)), Some(1));
    assert_eq!(s.window_at(point(0.0, 0.0)), Some(0));
    assert_eq!(s.window_at(point(-0.0, 0.0)), Some(0));
    assert_eq!(s.window_at(point(100.0, 10.0)), None);
    assert_eq!(s.window_at(point(149.9, 149.9)), Some(1));
    assert_eq!(s.window_at(point(150.0, 149.0)), None);
    assert_eq!(s.window_at(point(-1.0, 5.0)), None);
    assert_eq!(s.window_at(point(f64::NAN, 5.0)), None);
}

#[test]
fn moving_hovers_windows() {
    let mut s = session();
    assert!(go(&mut s, 10.0, 10.0));
    assert_eq!(s.pointer.hovered, Some(0));
    assert!(!go(&mut s, 11.0, 10.0));
    assert!(go(&mut s, 60.0, 60.0));
    assert_eq!(s.pointer.hovered, Some(1));
    assert!(go(&mut s, 500.0, 500.0));
    assert_eq!(s.pointer.hovered, None);
    assert!(!go(&mut s, 501.0, 500.0));
    assert!(!s.pointer.exit);
}

#[test]
fn a_click_selects_the_window() {
    let mut s = session();
    go(&mut s, 60.0, 60.0);
    assert!(!press(&mut s, 272));
    assert!(!release(&mut s, 272));
    assert!(s.pointer.exit);
    let result = s.into_result().unwrap();
    match result.selection {
        Selection::Window { title, id } => {
            assert_eq!((title.as_str(), id.as_str()), ("high", "id-high"));
        }
        _ => panic!("a region was selected"),
    }
    assert_eq!((result.ss_width, result.ss_stride, result.ss_data.len()), (4, 16, 64));
}

#[test]
fn a_click_beside_windows_selects_nothing() {
    let mut s = session();
    go(&mut s, 500.0, 60.0);
    press(&mut s, 272);
    release(&mut s, 272);
    assert!(s.pointer.exit);
    assert!(s.into_result().is_none());
}

#[test]
fn a_drag_selects_the_region() {
    let mut s = session();
    go(&mut s, 80.0, 20.0);
    press(&mut s, 272);
    assert!(!go(&mut s, 85.0, 15.0));
    assert!(!s.pointer.dragging);
    assert!(go(&mut s, 20.0, 60.5));
    assert!(s.pointer.dragging);
    // Coming back does not end the drag.
    assert!(go(&mut s, 79.0, 21.0));
    assert!(go(&mut s, 30.0, 60.5));
    release(&mut s, 272);
    match s.into_result().unwrap().selection {
        Selection::Region { x, y, w, h } => {
            assert_eq!((x, y, w, h), (coord(30.0), coord(20.0), coord(50.0), coord(40.5)));
        }
        _ => panic!("a window was selected"),
    }
}

#[test]
fn a_thin_drag_selects_nothing() {
    let mut s = session();
    go(&mut s, 10.0, 10.0);
    press(&mut s, 272);
    go(&mut s, 40.0, 11.0);
    assert!(s.pointer.dragging);
    release(&mut s, 272);
    assert!(s.pointer.exit);
    assert!(s.into_result().is_none());
}

#[test]
fn right_button_and_escape_end_the_session() {
    let mut s = session();
    press(&mut s, 273);
    assert!(s.pointer.exit);
    let mut s = session();
    press(&mut s, 274);
    release(&mut s, 273);
    s.pointer_event(PointerEvent::Other);
    s.press_key(0x61, 30);
    assert!(!s.pointer.exit && !s.pointer.pressed);
    s.press_key(0xff1b, 9);
    assert!(s.pointer.exit);
    let mut s = session();
    s.press_key(0, 1);
    assert!(s.pointer.exit);
    let mut s = session();
    s.closed();
    assert!(s.pointer.exit);
    assert!(s.into_result().is_none());
}

#[test]
fn the_hovered_window_is_highlighted() {
    let mut s = session();
    assert_eq!(s.highlight_for(coord(0.0), coord(0.0)), None);
    go(&mut s, 60.0, 60.0);
    let h = Highlight {
        x: coord(50.0),
        y: coord(50.0),
        w: coord(100.0),
        h: coord(100.0),
        is_region: false,
    };
    assert_eq!(s.highlight_for(coord(0.0), coord(0.0)), Some(h));
}

#[test]
fn the_drag_is_highlighted() {
    let mut s = session();
    go(&mut s, 60.0, 60.0);
    press(&mut s, 272);
    go(&mut s, 40.0, 70.0);
    let (dx, dy) = drag_size(&s);
    let h = Highlight {
        x: coord(40.0),
        y: coord(60.0),
        w: coord(20.0),
        h: coord(10.0),
        is_region: true,
    };
    assert_eq!(s.highlight_for(dx, dy), Some(h));
    go(&mut s, 40.0, 60.5);
    let (dx, dy) = drag_size(&s);
    assert_eq!(s.highlight_for(dx, dy), None);
    // A side of exactly one is shown, but not selected.
    go(&mut s, 40.0, 61.0);
    let (dx, dy) = drag_size(&s);
    assert!(s.highlight_for(dx, dy).is_some());
    s.handle_selection(dx, dy);
    assert!(s.selection.is_none());
}

#[test]
fn a_drag_may_start_at_any_corner() {
    let mut seen = Vec::new();
    for (from, to) in [
        ((20.0, 30.0), (60.0, 50.0)),
        ((60.0, 50.0), (20.0, 30.0)),
        ((20.0, 50.0), (60.0, 30.0)),
    ] {
        let mut s = session();
        go(&mut s, from.0, from.1);
        press(&mut s, 272);
        go(&mut s, to.0, to.1);
        let (dx, dy) = drag_size(&s);
        seen.push(s.highlight_for(dx, dy).unwrap());
    }
    assert_eq!(seen[0], seen[1]);
    assert_eq!(seen[0], seen[2]);
    assert_eq!((seen[0].x, seen[0].y), (coord(20.0), coord(30.0)));
}

fn identity() -> [u8; 256] {
    let mut dim = [0u8; 256];
    for (i, d) in dim.iter_mut().enumerate() {
        *d = (i / 2) as u8;
    }
    dim
}

#[test]
fn a_surface_shows_its_part_of_the_shot() {
    let mut s = session();
    s.add_surface(two_by_two(), coord(2.0), 1, 1, &identity());
    s.add_surface(two_by_two(), coord(3.0), 9, 9, &identity());
    assert_eq!(s.global_scale, coord(2.0));
    assert_eq!(s.surfaces[0].normal, [20, 21, 22, 23, 24, 25, 26, 27, 36, 37, 38, 39, 40, 41, 42, 43]);
    assert_eq!(s.surfaces[0].dimmed[..4], [10, 10, 11, 23]);
    assert_eq!(s.surfaces[1].normal, vec![0u8; 16]);
    assert_eq!(s.surfaces[1].scale, coord(3.0));
    assert!(!s.surfaces[0].configured);
}

#[test]
fn a_zero_scale_is_replaced() {
    let mut s = session();
    s.add_surface(two_by_two(), coord(-0.0), 0, 0, &identity());
    s.add_surface(two_by_two(), coord(1.5), 0, 0, &identity());
    s.add_surface(two_by_two(), coord(2.5), 0, 0, &identity());
    assert_eq!(s.global_scale, coord(1.5));
}

#[test]
fn surfaces_are_drawn_once_a_frame() {
    let mut s = session();
    for _ in 0..3 {
        s.add_surface(two_by_two(), coord(1.0), 0, 0, &identity());
    }
    assert_eq!(s.request_redraw(), Vec::<usize>::new());
    assert!(!s.configure(0, 0, 7));
    assert_eq!(s.surfaces[0].geometry.logical_w, 2);
    assert!(s.configure(2, 30, 40));
    assert_eq!(
        (s.surfaces[2].geometry.logical_w, s.surfaces[2].geometry.logical_h),
        (30, 40)
    );
    assert_eq!(s.request_redraw(), vec![0, 2]);
    let mut canvas = vec![0u8; 16];
    s.draw_surface(0, &mut canvas, None);
    assert_eq!(canvas, s.surfaces[0].dimmed);
    assert!(s.surfaces[0].frame_pending && !s.surfaces[0].needs_redraw);
    assert_eq!(s.request_redraw(), vec![2]);
    assert!(s.surfaces[0].needs_redraw);
    // The frame that was waited for brings the redraw.
    assert!(s.frame(0));
    assert_eq!(s.request_redraw(), vec![0, 2]);
    // A surface without a size is not drawn.
    let mut blank = vec![7u8; 16];
    s.draw_surface(1, &mut blank, None);
    assert_eq!(blank, vec![7u8; 16]);
    assert!(!s.frame(1));
}

#[test]
fn highlights_have_their_border_colours() {
    let mut s = session();
    s.add_surface(two_by_two(), coord(1.0), 0, 0, &identity());
    s.configure(0, 2, 2);
    let mut canvas = vec![0u8; 16];
    s.draw_surface(0, &mut canvas, Some(((0, 0, 1, 1), false)));
    assert_eq!(canvas[..4], s.surfaces[0].normal[..4]);
    assert_eq!(canvas[4..8], [255, 140, 80, 255]);
    s.draw_surface(0, &mut canvas, Some(((0, 0, 1, 1), true)));
    assert_eq!(canvas[4..8], [255, 255, 255, 255]);
}

#[test]
fn outputs_report_their_geometry() {
    let mode = |current, width, height| OutputMode { current, width, height };
    let modes = vec![mode(false, 1, 1), mode(true, 2560, 1440), mode(true, 3, 3)];
    let g = output_geometry(&modes, Some((1280, 720)), Some((-5, 6)));
    assert_eq!((g.phys_w, g.phys_h, g.logical_w, g.logical_h), (2560, 1440, 1280, 720));
    assert_eq!((g.logical_x, g.logical_y), (-5, 6));
    assert_eq!(g.scale(coord(2.0)), coord(2.0));
    assert_eq!(g.pool_size(), 2560 * 1440 * 12);
    let g = output_geometry(&vec![mode(false, 1, 1)], None, None);
    assert_eq!((g.phys_w, g.phys_h, g.logical_w, g.logical_h), (3840, 2160, 3840, 2160));
    assert_eq!((g.logical_x, g.logical_y), (0, 0));
    let g = output_geometry(&vec![mode(true, -1, 0)], Some((0, 4)), None);
    assert_eq!((g.phys_w, g.phys_h), (u32::MAX, 0));
    assert_eq!(g.scale(coord(9.0)), coord(1.0));
    assert_eq!(g.pool_size(), 1);
}
