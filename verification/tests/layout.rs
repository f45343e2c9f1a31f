use sshot::coord::Coord;
use sshot::coord::Point;
use sshot::coord::Rect;
use sshot::layout::at_least_zero;
use sshot::layout::column_width;
use sshot::layout::largest;
use sshot::layout::listed;
use sshot::layout::placed_window;
use sshot::layout::scroll_offset;
use sshot::layout::visible;
use sshot::niri::Column;
use sshot::niri::Desktop;
use sshot::niri::Screen;
use sshot::niri::Window;

fn coord(n: f64) -> Coord {
    Coord { bits: n.to_bits() }
}

fn value(c: Coord) -> f64 {
    f64::from_bits(c.bits)
}

const SAMPLES: [f64; 14] = [
    0.0,
    -0.0,
    1.0,
    -1.0,
    0.5,
    1e300,
    -1e300,
    5e-324,
    -5e-324,
    f64::INFINITY,
    f64::NEG_INFINITY,
    f64::NAN,
    1920.0,
    1920.5,
];

#[test]
fn coords_compare_like_doubles() {
    for a in SAMPLES {
        assert_eq!(coord(a).abs().bits, a.abs().to_bits());
        for b in SAMPLES {
            assert_eq!(coord(a).less_than(coord(b)), a < b, "{a} < {b}");
            assert_eq!(coord(a).at_most(coord(b)), a <= b, "{a} <= {b}");
            let (min, max) = (value(coord(a).min(coord(b))), value(coord(a).max(coord(b))));
            assert!(min == a.min(b) || (min.is_nan() && a.min(b).is_nan()), "{a} {b}");
            assert!(max == a.max(b) || (max.is_nan() && a.max(b).is_nan()), "{a} {b}");
        }
    }
}

fn window(tile_width: f64) -> Window {
    let zero = Point { x: coord(0.0), y: coord(0.0) };
    Window {
        title: "t".to_string(),
        id: 12,
        workspace: 1,
        floating: false,
        focused: false,
        placed: false,
        column: None,
        row: 0,
        position: zero,
        offset: zero,
        size: Point { x: coord(30.0), y: coord(40.0) },
        tile: Point { x: coord(tile_width), y: coord(7.0) },
    }
}

#[test]
fn the_largest_size_counts() {
    assert_eq!(value(largest(&vec![])), 0.0);
    assert_eq!(value(largest(&vec![coord(-3.0)])), 0.0);
    assert_eq!(value(largest(&vec![coord(1.0), coord(f64::NAN), coord(3.5), coord(2.0)])), 3.5);
    assert_eq!(value(at_least_zero(coord(-2.0))), 0.0);
    assert_eq!(value(at_least_zero(coord(2.0))), 2.0);
}

#[test]
fn a_column_is_as_wide_as_its_widest_tile() {
    let windows = vec![window(100.0), window(900.0), window(300.0)];
    let column = Column { index: 1, rows: vec![2, 0] };
    assert_eq!(value(column_width(&windows, &column)), 300.0);
}

#[test]
fn screens_scroll_to_the_focus() {
    let offset = |total: f64, at_focus: f64| {
        let (view, centred, limit) = (100.0, -7.0, total - 100.0);
        value(scroll_offset(coord(total), coord(view), coord(centred), coord(at_focus), coord(limit)))
    };
    assert_eq!(offset(80.0, 30.0), -7.0);
    assert_eq!(offset(100.0, 30.0), -7.0);
    assert_eq!(offset(250.0, 30.0), 30.0);
    assert_eq!(offset(250.0, -30.0), 0.0);
    assert_eq!(offset(250.0, 200.0), 150.0);
}

#[test]
fn windows_are_described_by_their_place() {
    let w = placed_window(&window(1.0), coord(5.0), coord(6.0), coord(35.0), coord(46.0));
    assert_eq!((w.title.as_str(), w.id.as_str()), ("t", "12"));
    assert_eq!((value(w.x), value(w.y), value(w.width), value(w.height)), (5.0, 6.0, 30.0, 40.0));
    assert_eq!((value(w.right), value(w.bottom)), (35.0, 46.0));
}

#[test]
fn windows_outside_are_not_visible() {
    let area = Rect { x: coord(10.0), y: coord(10.0), width: coord(90.0), height: coord(90.0) };
    let seen = |x: f64, y: f64| {
        let w = placed_window(&window(1.0), coord(x), coord(y), coord(x + 30.0), coord(y + 40.0));
        visible(&w, area, coord(100.0), coord(100.0))
    };
    assert!(seen(50.0, 50.0));
    assert!(seen(-19.0, 50.0));
    assert!(!seen(-20.0, 50.0));
    assert!(seen(99.0, 50.0));
    assert!(!seen(100.0, 50.0));
    assert!(seen(50.0, -29.0));
    assert!(!seen(50.0, -30.0));
    assert!(seen(50.0, 99.0));
    assert!(!seen(50.0, 100.0));
}

fn screen(workspace: u64, x: f64, floating: Vec<usize>, rows: Vec<Vec<usize>>) -> Screen {
    let columns = rows
        .into_iter()
        .enumerate()
        .map(|(i, rows)| Column { index: i as u64, rows })
        .collect();
    let area = Rect { x: coord(x), y: coord(0.0), width: coord(100.0), height: coord(100.0) };
    Screen { workspace, area, floating, columns, focused: 0 }
}

#[test]
fn windows_are_listed_from_the_bottom_up() {
    let mut windows: Vec<Window> = (0..7).map(|_| window(1.0)).collect();
    for (i, w) in windows.iter_mut().enumerate() {
        w.title = format!("w{i}");
        w.id = i as u64;
        w.floating = i == 1 || i == 5;
    }
    let screens = vec![
        screen(1, 0.0, vec![1, 5], vec![vec![3], vec![0, 2]]),
        screen(2, 100.0, vec![], vec![vec![4, 6]]),
    ];
    let desktop = Desktop { windows, screens };
    let at = |x: f64| Some((coord(x), coord(10.0), coord(x + 30.0), coord(50.0)));
    // The floating window 5 and the tiled window 2 are off their screen; 6 has no place.
    let places = vec![at(20.0), at(0.0), at(-30.0), at(60.0), at(150.0), at(500.0), None];
    let edges = vec![(coord(100.0), coord(100.0)), (coord(200.0), coord(100.0))];
    let list = listed(&desktop, &places, &edges);
    let titles: Vec<&str> = list.iter().map(|w| w.title.as_str()).collect();
    assert_eq!(titles, vec!["w1", "w5", "w3", "w0", "w4"]);
    assert_eq!(list[4].id, "4");
    assert_eq!((value(list[4].x), value(list[4].right)), (150.0, 180.0));
    assert_eq!((value(list[4].y), value(list[4].bottom)), (10.0, 50.0));
    assert_eq!((value(list[4].width), value(list[4].height)), (30.0, 40.0));
    // A window of the first screen does not come up for being on the second.
    let places = vec![at(150.0), None, None, None, at(20.0), None, None];
    assert!(listed(&desktop, &places, &edges).is_empty());
}
