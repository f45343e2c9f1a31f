use sshot::coord::Coord;
use sshot::coord::Point;
use sshot::json::parse;
use sshot::niri::arrange;
use sshot::niri::focused_title;
use sshot::niri::get_windows;
use sshot::niri::read_window;
use sshot::niri::read_workspace;
use sshot::niri::stacking;
use sshot::niri::Desktop;
use sshot::niri::ReplyError;
use sshot::niri::Screen;
use sshot::niri::Window;
use sshot::niri::Workspace;

fn coord(n: f64) -> Coord {
    Coord { bits: n.to_bits() }
}

fn point(x: f64, y: f64) -> Point {
    Point { x: coord(x), y: coord(y) }
}

const OUTPUTS: &str = r#"{
    "DP-1": {"logical": {"x": 0, "y": 0, "width": 1920, "height": 1080.5}},
    "DP-2": {"logical": {"x": -1280, "y": 10, "width": 1280, "height": 720}}
}"#;

const WORKSPACES: &str = r#"[
    {"id": 1, "output": "DP-1", "is_active": true},
    {"id": 2, "output": "DP-1", "is_active": false},
    {"id": 3, "output": "DP-2", "is_active": true},
    {"id": 4, "output": "HDMI-1", "is_active": true}
]"#;

const WINDOWS: &str = r#"[
    {"id": 10, "title": "b", "workspace_id": 1, "is_floating": false, "is_focused": true,
     "layout": {"pos_in_scrolling_layout": [2, 1], "tile_size": [800, 600],
                "window_size": [780, 580], "window_offset_in_tile": [10, 10],
                "tile_pos_in_workspace_view": null}},
    {"id": 11, "title": "a", "workspace_id": 1, "is_floating": false, "is_focused": false,
     "layout": {"pos_in_scrolling_layout": [1, 2], "tile_size": [400, 300],
                "window_size": [380, 280], "window_offset_in_tile": [1.5, 2.5]}},
    {"id": 12, "title": "top", "workspace_id": 1, "is_floating": false,
     "layout": {"pos_in_scrolling_layout": [1, 1], "tile_size": [500, 300]}},
    {"id": 13, "title": "float", "workspace_id": 1, "is_floating": true,
     "layout": {"tile_pos_in_workspace_view": [30, 40], "window_size": [50, 60]}},
    {"id": 14, "title": "lost", "workspace_id": 1, "is_floating": true,
     "layout": {"tile_pos_in_workspace_view": null}},
    {"id": 15, "title": "hidden", "workspace_id": 2, "is_floating": false, "layout": {}},
    {"id": 16, "title": "other", "workspace_id": 3, "is_floating": false, "layout": {}},
    {"id": 17, "title": "nowhere", "workspace_id": 4, "is_floating": false, "layout": {}}
]"#;

fn desktop() -> Desktop {
    get_windows(WINDOWS.as_bytes(), WORKSPACES.as_bytes(), OUTPUTS.as_bytes()).unwrap()
}

fn screen(d: &Desktop, id: u64) -> &Screen {
    d.screens.iter().find(|s| s.workspace == id).unwrap()
}

#[test]
fn windows_of_active_workspaces_are_arranged() {
    let d = desktop();
    assert_eq!(d.windows.len(), 8);
    assert_eq!(d.screens.len(), 2);
    let s = screen(&d, 1);
    assert_eq!(s.area.width, coord(1920.0));
    assert_eq!(s.area.height, coord(1080.5));
    assert_eq!(s.floating, vec![3]);
    assert_eq!(s.columns.len(), 2);
    assert_eq!((s.columns[0].index, &s.columns[0].rows), (1, &vec![2, 1]));
    assert_eq!((s.columns[1].index, &s.columns[1].rows), (2, &vec![0]));
    assert_eq!(s.focused, 1);
    let t = screen(&d, 3);
    assert_eq!(t.area.x, coord(-1280.0));
    assert!(t.floating.is_empty());
    assert_eq!((t.columns[0].index, &t.columns[0].rows), (0, &vec![6]));
    assert_eq!(t.focused, 0);
}

#[test]
fn no_window_has_two_places() {
    let d = desktop();
    let mut seen = Vec::new();
    for s in &d.screens {
        seen.extend(s.floating.iter().copied());
        for c in &s.columns {
            seen.extend(c.rows.iter().copied());
        }
    }
    seen.sort();
    assert_eq!(seen, vec![0, 1, 2, 3, 6]);
}

#[test]
fn tiled_windows_lie_over_floating_ones() {
    let d = desktop();
    assert_eq!(stacking(screen(&d, 1)), vec![3, 2, 1, 0]);
    assert_eq!(stacking(screen(&d, 3)), vec![6]);
}

#[test]
fn a_report_of_a_window_is_read() {
    let d = desktop();
    let w = &d.windows[1];
    assert_eq!((w.title.as_str(), w.id, w.workspace), ("a", 11, 1));
    assert!(!w.floating && !w.focused && !w.placed);
    assert_eq!((w.column, w.row), (Some(1), 2));
    assert_eq!(w.offset, point(1.5, 2.5));
    assert_eq!(w.size, point(380.0, 280.0));
    assert_eq!(w.tile, point(400.0, 300.0));
    assert!(d.windows[0].focused);
    assert!(d.windows[3].placed);
    assert_eq!(d.windows[3].position, point(30.0, 40.0));
}

#[test]
fn an_empty_report_is_all_defaults() {
    let w = read_window(&parse(b"{}").unwrap());
    assert_eq!((w.title.as_str(), w.id, w.workspace, w.column, w.row), ("", 0, 0, None, 0));
    assert!(!w.floating && !w.focused && !w.placed);
    assert_eq!(w.size, point(0.0, 0.0));
    let w = read_window(&parse(b"{\"id\": -1, \"title\": 5, \"is_floating\": 1}").unwrap());
    assert_eq!((w.title.as_str(), w.id, w.floating), ("", 0, false));
    let s = read_workspace(&parse(b"[]").unwrap(), &parse(b"{}").unwrap());
    assert_eq!((s.id, s.active, s.area), (0, false, None));
}

#[test]
fn an_output_without_a_size_is_empty() {
    let report = parse(b"{\"id\": 7, \"output\": \"X\", \"is_active\": true}").unwrap();
    let s = read_workspace(&report, &parse(b"{\"X\": null}").unwrap());
    assert_eq!((s.id, s.active), (7, true));
    assert_eq!(s.area.unwrap().width, coord(0.0));
    // An output without a name is found under the empty one.
    let s = read_workspace(&parse(b"{}").unwrap(), &parse(b"{\"\": {}}").unwrap());
    assert!(s.area.is_some());
}

#[test]
fn broken_replies_are_refused() {
    let (w, s, o) = (WINDOWS.as_bytes(), WORKSPACES.as_bytes(), OUTPUTS.as_bytes());
    assert!(matches!(get_windows(b"", s, o), Err(ReplyError::Windows)));
    assert!(matches!(get_windows(b"{}", s, o), Err(ReplyError::Windows)));
    assert!(matches!(get_windows(w, b"[", o), Err(ReplyError::Workspaces)));
    assert!(matches!(get_windows(w, b"null", o), Err(ReplyError::Workspaces)));
    assert!(matches!(get_windows(w, s, b"{]"), Err(ReplyError::Outputs)));
    assert!(matches!(get_windows(w, s, b"[]"), Err(ReplyError::Outputs)));
    // The windows are looked at first.
    assert!(matches!(get_windows(b"1", b"1", b"1"), Err(ReplyError::Windows)));
}

fn tile(id: u64, column: Option<u64>, row: u64, focused: bool) -> Window {
    Window {
        title: String::new(),
        id,
        workspace: 5,
        floating: false,
        focused,
        placed: false,
        column,
        row,
        position: point(0.0, 0.0),
        offset: point(0.0, 0.0),
        size: point(0.0, 0.0),
        tile: point(0.0, 0.0),
    }
}

fn shown(area: f64) -> Workspace {
    let area = sshot::coord::Rect {
        x: coord(area),
        y: coord(0.0),
        width: coord(1.0),
        height: coord(1.0),
    };
    Workspace { id: 5, active: true, area: Some(area) }
}

#[test]
fn equal_rows_keep_their_order() {
    let windows = vec![
        tile(1, Some(3), 2, false),
        tile(2, None, 9, false),
        tile(3, Some(3), 1, false),
        tile(4, Some(3), 2, false),
        tile(5, Some(0), 4, true),
    ];
    let screens = arrange(&windows, &vec![shown(1.0)]);
    assert_eq!(screens.len(), 1);
    let columns = &screens[0].columns;
    assert_eq!((columns[0].index, &columns[0].rows), (0, &vec![4, 1]));
    assert_eq!((columns[1].index, &columns[1].rows), (3, &vec![2, 0, 3]));
    assert_eq!(screens[0].focused, 0);
}

#[test]
fn the_last_workspace_of_an_id_gives_the_area() {
    let windows = vec![tile(1, Some(1), 1, false)];
    let mut hidden = shown(3.0);
    hidden.active = false;
    let screens = arrange(&windows, &vec![shown(1.0), shown(2.0), hidden]);
    assert_eq!(screens[0].area.x, coord(2.0));
    assert!(arrange(&windows, &vec![hidden]).is_empty());
}

#[test]
fn a_focus_without_a_column_is_the_first_column() {
    let windows = vec![tile(1, Some(4), 1, false), tile(2, None, 1, true), tile(3, Some(6), 1, true)];
    let screens = arrange(&windows, &vec![shown(1.0)]);
    assert_eq!(screens[0].columns.len(), 3);
    assert_eq!(screens[0].focused, 0);
    let windows = vec![tile(1, Some(4), 1, false), tile(3, Some(6), 1, true)];
    assert_eq!(arrange(&windows, &vec![shown(1.0)])[0].focused, 1);
}

#[test]
fn the_title_of_the_focused_window_is_read() {
    assert_eq!(focused_title(b"{\"title\": \"caf\\u00e9\"}"), Some("café".to_string()));
    assert_eq!(focused_title(b"{\"title\": null}"), None);
    assert_eq!(focused_title(b"{}"), None);
    assert_eq!(focused_title(b"null"), None);
    assert_eq!(focused_title(b"{\"title\""), None);
}
