//! The windows that the niri compositor reports, sorted into screens, columns and rows.
//!
//! niri tells of its windows, workspaces and outputs in three JSON replies. A window is shown when
//! its workspace is active on a known output. Floating windows know where they are; the place of a
//! tiled window follows from its column and its row.
use vstd::prelude::*;

use crate::coord::Coord;
use crate::coord::Point;
use crate::coord::Rect;
use crate::json::bool_of;
use crate::json::coord_of;
use crate::json::element_of;
use crate::json::get_member;
use crate::json::json_of;
use crate::json::json_text;
use crate::json::member_of;
use crate::json::parse;
use crate::json::point_of;
use crate::json::text_of_json;
use crate::json::u64_of;
use crate::json::Cursor;
use crate::json::Json;

verus! {

/// A workspace.
#[derive(Debug, Clone, Copy)]
pub struct Workspace {
    pub id: u64,
    pub active: bool,
    /// The logical area of the output that it is on, if that output is known.
    pub area: Option<Rect>,
}

/// A window.
#[derive(Debug, Clone)]
pub struct Window {
    pub title: String,
    pub id: u64,
    /// The workspace that it is on.
    pub workspace: u64,
    pub floating: bool,
    pub focused: bool,
    /// Whether `position` is known.
    pub placed: bool,
    /// The column that it is tiled in.
    pub column: Option<u64>,
    /// Its row in that column.
    pub row: u64,
    /// Where its tile is in the view of the workspace.
    pub position: Point,
    /// Where the window is in its tile.
    pub offset: Point,
    /// The size of the window.
    pub size: Point,
    /// The size of its tile.
    pub tile: Point,
}

/// A column of tiled windows.
#[derive(Debug, Clone)]
pub struct Column {
    pub index: u64,
    /// Its windows from the top, by their places in the list of windows.
    pub rows: Vec<usize>,
}

/// An active workspace with the windows on it.
#[derive(Debug, Clone)]
pub struct Screen {
    pub workspace: u64,
    /// The logical area of its output.
    pub area: Rect,
    /// The floating windows whose position is known, by their places in the list of windows.
    pub floating: Vec<usize>,
    /// The columns from the left.
    pub columns: Vec<Column>,
    /// The column with the focus, by its place in `columns`.
    pub focused: usize,
}

/// A reply of niri that is not what it should be.
#[derive(Debug, Clone, Copy, PartialEq, Eq, Structural)]
pub enum ReplyError {
    /// The reply on windows is no JSON array.
    Windows,
    /// The reply on workspaces is no JSON array.
    Workspaces,
    /// The reply on outputs is no JSON object.
    Outputs,
}

// ── Reading the replies ──────────────────────────────────────────

/// A number that may be missing, and then counts as zero.
pub open spec fn or_zero(n: Option<u64>) -> u64 {
    match n {
        Some(n) => n,
        None => 0,
    }
}

/// The area that an output reports.
pub open spec fn area_in(j: Json) -> Rect {
    Rect {
        x: coord_of(member_of(j, "x"@)),
        y: coord_of(member_of(j, "y"@)),
        width: coord_of(member_of(j, "width"@)),
        height: coord_of(member_of(j, "height"@)),
    }
}

/// The name of the output that a workspace reports, empty where it reports none.
pub open spec fn output_name(j: Json) -> Seq<char> {
    match text_of_json(member_of(j, "output"@)) {
        Some(s) => s,
        None => ""@,
    }
}

/// The workspace that a report describes, with the outputs there are.
pub open spec fn workspace_in(j: Json, outputs: Map<Seq<char>, Json>) -> Workspace {
    Workspace {
        id: or_zero(u64_of(member_of(j, "id"@))),
        active: bool_of(member_of(j, "is_active"@)) == Some(true),
        area: if outputs.dom().contains(output_name(j)) {
            Some(area_in(member_of(outputs[output_name(j)], "logical"@)))
        } else {
            None
        },
    }
}

/// The title that a report gives a window, empty where it gives none.
pub open spec fn title_in(j: Json) -> Seq<char> {
    match text_of_json(member_of(j, "title"@)) {
        Some(s) => s,
        None => ""@,
    }
}

/// The window is the one that the report describes.
pub open spec fn describes(j: Json, w: Window) -> bool {
    let layout = member_of(j, "layout"@);
    let tiled_at = member_of(layout, "pos_in_scrolling_layout"@);
    let view_pos = member_of(layout, "tile_pos_in_workspace_view"@);
    &&& w.title@ == title_in(j)
    &&& w.id == or_zero(u64_of(member_of(j, "id"@)))
    &&& w.workspace == or_zero(u64_of(member_of(j, "workspace_id"@)))
    &&& w.floating == (bool_of(member_of(j, "is_floating"@)) == Some(true))
    &&& w.focused == (bool_of(member_of(j, "is_focused"@)) == Some(true))
    &&& w.placed == (view_pos !is Null)
    &&& w.column == u64_of(element_of(tiled_at, 0))
    &&& w.row == or_zero(u64_of(element_of(tiled_at, 1)))
    &&& w.position == point_of(view_pos)
    &&& w.offset == point_of(member_of(layout, "window_offset_in_tile"@))
    &&& w.size == point_of(member_of(layout, "window_size"@))
    &&& w.tile == point_of(member_of(layout, "tile_size"@))
}

/// Reads what niri reports of an output's area.
fn read_area(at: Cursor) -> (r: Rect)
    ensures
        r == area_in(at@),
{
    Rect {
        x: at.member("x").coord(),
        y: at.member("y").coord(),
        width: at.member("width").coord(),
        height: at.member("height").coord(),
    }
}

fn zero_if_none(n: Option<u64>) -> (r: u64)
    ensures
        r == or_zero(n),
{
    match n {
        Some(n) => n,
        None => 0,
    }
}

/// Reads what niri reports of a workspace.
pub fn read_workspace(report: &serde_json::Value, outputs: &serde_json::Value) -> (r: Workspace)
    ensures
        match json_of(*outputs) {
            Json::Object(m) => r == workspace_in(json_of(*report), m),
            _ => r == workspace_in(json_of(*report), Map::empty()),
        },
{
    let at: Cursor = Cursor::new(report);
    let name: String = match at.member("output").text() {
        Some(s) => s,
        None => "".to_owned(),
    };
    let area: Option<Rect> = match get_member(outputs, name.as_str()) {
        Some(output) => Some(read_area(Cursor::new(output).member("logical"))),
        None => None,
    };
    Workspace {
        id: zero_if_none(at.member("id").integer()),
        active: at.member("is_active").flag(),
        area,
    }
}

/// Reads what niri reports of a window.
pub fn read_window(report: &serde_json::Value) -> (r: Window)
    ensures
        describes(json_of(*report), r),
{
    let at: Cursor = Cursor::new(report);
    let layout: Cursor = at.member("layout");
    let tiled_at: Cursor = layout.member("pos_in_scrolling_layout");
    let view_pos: Cursor = layout.member("tile_pos_in_workspace_view");
    let title: String = match at.member("title").text() {
        Some(s) => s,
        None => "".to_owned(),
    };
    Window {
        title,
        id: zero_if_none(at.member("id").integer()),
        workspace: zero_if_none(at.member("workspace_id").integer()),
        floating: at.member("is_floating").flag(),
        focused: at.member("is_focused").flag(),
        placed: !view_pos.is_null(),
        column: tiled_at.element(0).integer(),
        row: zero_if_none(tiled_at.element(1).integer()),
        position: view_pos.point(),
        offset: layout.member("window_offset_in_tile").point(),
        size: layout.member("window_size").point(),
        tile: layout.member("tile_size").point(),
    }
}

/// The title of the focused window, if the reply on it gives one.
pub open spec fn focused_title_in(reply: Seq<u8>) -> Option<Seq<char>> {
    match json_text(reply) {
        Some(j) => text_of_json(member_of(j, "title"@)),
        None => None,
    }
}

/// Reads the title of the focused window from niri's reply on it.
pub fn focused_title(reply: &[u8]) -> (r: Option<String>)
    ensures
        match focused_title_in(reply@) {
            Some(s) => r matches Some(t) && t@ == s,
            None => r is None,
        },
{
    match parse(reply) {
        Some(v) => Cursor::new(&v).member("title").text(),
        None => None,
    }
}

// ── Sorting windows into screens ─────────────────────────────────

/// The area where the workspace `id` is shown: that of the last active workspace of this id whose
/// output is known.
pub open spec fn area_of(workspaces: Seq<Workspace>, id: u64) -> Option<Rect>
    decreases workspaces.len(),
{
    if workspaces.len() == 0 {
        None
    } else {
        let w = workspaces.last();
        if w.active && w.id == id && w.area is Some {
            w.area
        } else {
            area_of(workspaces.drop_last(), id)
        }
    }
}

/// A floating window of a workspace whose position is known.
pub open spec fn is_float(w: Window, id: u64) -> bool {
    w.workspace == id && w.floating && w.placed
}

/// A tiled window of a workspace.
pub open spec fn is_tile(w: Window, id: u64) -> bool {
    w.workspace == id && !w.floating
}

/// The column that a tiled window stands in.
pub open spec fn column_of(w: Window) -> u64 {
    or_zero(w.column)
}

/// The floating windows of a workspace, in the order of the list.
pub open spec fn floats(windows: Seq<Window>, id: u64) -> Seq<usize>
    decreases windows.len(),
{
    if windows.len() == 0 {
        Seq::empty()
    } else {
        let rest = floats(windows.drop_last(), id);
        if is_float(windows.last(), id) {
            rest.push((windows.len() - 1) as usize)
        } else {
            rest
        }
    }
}

/// The window at `i` stands before the one at `j`: in an earlier column, in the same column in an
/// earlier row, or in the same row earlier in the list.
pub open spec fn stands_before(windows: Seq<Window>, i: usize, j: usize) -> bool {
    let (a, b) = (windows[i as int], windows[j as int]);
    ||| column_of(a) < column_of(b)
    ||| column_of(a) == column_of(b) && a.row < b.row
    ||| column_of(a) == column_of(b) && a.row == b.row && i < j
}

/// The window at `i` stands in one of the columns.
pub open spec fn stands_in(columns: Seq<Column>, i: usize) -> bool {
    exists|c: int, r: int|
        0 <= c < columns.len() && 0 <= r < columns[c].rows@.len() && #[trigger] columns[c].rows@[r]
            == i
}

/// The columns hold the tiled windows of a workspace: columns by increasing number and none of them
/// empty, each with the windows of its number and no others, from the top row down.
pub open spec fn tiles(windows: Seq<Window>, id: u64, columns: Seq<Column>) -> bool {
    &&& forall|c: int| 0 <= c < columns.len() ==> (#[trigger] columns[c]).rows@.len() > 0
    &&& forall|c: int, d: int|
        0 <= c < d < columns.len() ==> (#[trigger] columns[c]).index < (
        #[trigger] columns[d]).index
    &&& forall|c: int, r: int|
        0 <= c < columns.len() && 0 <= r < columns[c].rows@.len() ==> {
            let i = #[trigger] columns[c].rows@[r];
            i < windows.len() && is_tile(windows[i as int], id) && column_of(windows[i as int])
                == columns[c].index
        }
    &&& forall|c: int, q: int, r: int|
        0 <= c < columns.len() && 0 <= q < r < columns[c].rows@.len() ==> stands_before(
            windows,
            #[trigger] columns[c].rows@[q],
            #[trigger] columns[c].rows@[r],
        )
    &&& forall|i: int|
        0 <= i < windows.len() && is_tile(#[trigger] windows[i], id) ==> stands_in(
            columns,
            i as usize,
        )
}

/// The column of the first focused window of a workspace at or after place `i`.
pub open spec fn focus_from(windows: Seq<Window>, id: u64, i: int) -> Option<u64>
    decreases windows.len() - i,
{
    if 0 <= i < windows.len() {
        if windows[i].workspace == id && windows[i].focused {
            windows[i].column
        } else {
            focus_from(windows, id, i + 1)
        }
    } else {
        None
    }
}

/// `place` is where the column with the focus stands, or zero if there is none.
pub open spec fn has_focus(windows: Seq<Window>, id: u64, columns: Seq<Column>, place: int) -> bool {
    match focus_from(windows, id, 0) {
        Some(index) => {
            ||| 0 <= place < columns.len() && columns[place].index == index
            ||| place == 0 && forall|c: int|
                0 <= c < columns.len() ==> (#[trigger] columns[c]).index != index
        },
        None => place == 0,
    }
}

/// The screen shows the windows of its workspace.
pub open spec fn is_screen(
    windows: Seq<Window>,
    workspaces: Seq<Workspace>,
    s: Screen,
) -> bool {
    &&& area_of(workspaces, s.workspace) == Some(s.area)
    &&& exists|i: int| 0 <= i < windows.len() && (#[trigger] windows[i]).workspace == s.workspace
    &&& s.floating@ == floats(windows, s.workspace)
    &&& tiles(windows, s.workspace, s.columns@)
    &&& has_focus(windows, s.workspace, s.columns@, s.focused as int)
}

/// One of the screens is that of the workspace `id`.
pub open spec fn has_screen(screens: Seq<Screen>, id: u64) -> bool {
    exists|s: int| 0 <= s < screens.len() && (#[trigger] screens[s]).workspace == id
}

/// The screens show the windows: one screen for each shown workspace that has windows.
pub open spec fn shows(
    windows: Seq<Window>,
    workspaces: Seq<Workspace>,
    screens: Seq<Screen>,
) -> bool {
    &&& forall|s: int|
        0 <= s < screens.len() ==> is_screen(windows, workspaces, #[trigger] screens[s])
    &&& forall|s: int, t: int|
        0 <= s < t < screens.len() ==> (#[trigger] screens[s]).workspace != (
        #[trigger] screens[t]).workspace
    &&& forall|i: int|
        0 <= i < windows.len() && area_of(workspaces, (#[trigger] windows[i]).workspace) is Some
            ==> has_screen(screens, windows[i].workspace)
}

/// Finds the area where a workspace is shown.
fn find_area(workspaces: &Vec<Workspace>, id: u64) -> (r: Option<Rect>)
    ensures
        r == area_of(workspaces@, id),
{
    let mut i: usize = workspaces.len();
    assert(workspaces@.take(i as int) =~= workspaces@);
    while i > 0
        invariant
            i <= workspaces.len(),
            area_of(workspaces@.take(i as int), id) == area_of(workspaces@, id),
        decreases i,
    {
        i = i - 1;
        let ghost part = workspaces@.take(i + 1);
        assert(part.drop_last() =~= workspaces@.take(i as int));
        assert(part.last() == workspaces@[i as int]);
        let w: Workspace = workspaces[i];
        if w.active && w.id == id && w.area.is_some() {
            return w.area;
        }
    }
    None
}

/// Collects the floating windows of a workspace.
fn collect_floats(windows: &Vec<Window>, id: u64) -> (r: Vec<usize>)
    ensures
        r@ == floats(windows@, id),
{
    let mut out: Vec<usize> = Vec::new();
    let mut i: usize = 0;
    assert(windows@.take(0) =~= Seq::<Window>::empty());
    while i < windows.len()
        invariant
            i <= windows.len(),
            out@ == floats(windows@.take(i as int), id),
        decreases windows.len() - i,
    {
        let ghost part = windows@.take(i + 1);
        assert(part.drop_last() =~= windows@.take(i as int));
        assert(part.last() == windows@[i as int]);
        if windows[i].workspace == id && windows[i].floating && windows[i].placed {
            out.push(i);
        }
        i = i + 1;
    }
    assert(windows@.take(i as int) =~= windows@);
    out
}

fn goes_before(windows: &Vec<Window>, i: usize, j: usize) -> (r: bool)
    requires
        i < windows.len(),
        j < windows.len(),
    ensures
        r == stands_before(windows@, i, j),
{
    let a: u64 = zero_if_none(windows[i].column);
    let b: u64 = zero_if_none(windows[j].column);
    a < b || (a == b && windows[i].row < windows[j].row) || (a == b && windows[i].row
        == windows[j].row && i < j)
}

/// The places in `order` are tiled windows of a workspace, each standing before the next.
spec fn in_order(windows: Seq<Window>, id: u64, order: Seq<usize>) -> bool {
    &&& forall|q: int|
        0 <= q < order.len() ==> (#[trigger] order[q]) < windows.len() && is_tile(
            windows[order[q] as int],
            id,
        )
    &&& forall|q: int, r: int|
        0 <= q < r < order.len() ==> stands_before(windows, #[trigger] order[q], #[trigger] order[r])
}

/// Lists the tiled windows of a workspace by column, row and place in the list.
fn sort_tiles(windows: &Vec<Window>, id: u64) -> (r: Vec<usize>)
    ensures
        in_order(windows@, id, r@),
        forall|i: int|
            0 <= i < windows.len() && is_tile(#[trigger] windows@[i], id) ==> r@.contains(
                i as usize,
            ),
{
    let mut order: Vec<usize> = Vec::new();
    let mut i: usize = 0;
    while i < windows.len()
        invariant
            i <= windows.len(),
            in_order(windows@, id, order@),
            forall|q: int| 0 <= q < order@.len() ==> (#[trigger] order@[q]) < i,
            forall|j: int|
                0 <= j < i && is_tile(#[trigger] windows@[j], id) ==> order@.contains(j as usize),
        decreases windows.len() - i,
    {
        if windows[i].workspace == id && !windows[i].floating {
            let mut p: usize = 0;
            while p < order.len() && !goes_before(windows, i, order[p])
                invariant
                    i < windows.len(),
                    p <= order.len(),
                    in_order(windows@, id, order@),
                    forall|q: int| 0 <= q < order@.len() ==> (#[trigger] order@[q]) < i,
                    forall|q: int|
                        0 <= q < p ==> stands_before(windows@, #[trigger] order@[q], i),
                decreases order.len() - p,
            {
                p = p + 1;
            }
            let ghost before = order@;
            order.insert(p, i);
            proof {
                assert(order@ == before.insert(p as int, i));
                assert forall|q: int, r: int| 0 <= q < r < order@.len() implies stands_before(
                    windows@,
                    #[trigger] order@[q],
                    #[trigger] order@[r],
                ) by {
                    if q == p {
                        let first = before[p as int];
                        assert(stands_before(windows@, i, first));
                        if r > p + 1 {
                            assert(stands_before(windows@, first, before[r - 1]));
                        }
                    } else if r == p {
                        assert(stands_before(windows@, before[q], i));
                    } else {
                        let q0 = if q < p { q } else { q - 1 };
                        let r0 = if r < p { r } else { r - 1 };
                        assert(stands_before(windows@, before[q0], before[r0]));
                    }
                }
                assert forall|j: int|
                    0 <= j < i + 1 && is_tile(
                        #[trigger] windows@[j],
                        id,
                    ) implies order@.contains(j as usize) by {
                    if j == i {
                        assert(order@[p as int] == i);
                    } else {
                        let q = choose|q: int| 0 <= q < before.len() && before[q] == j as usize;
                        if q < p {
                            assert(order@[q] == j as usize);
                        } else {
                            assert(order@[q + 1] == j as usize);
                        }
                    }
                }
            }
        }
        i = i + 1;
    }
    order
}

/// The first `k` places of `order` are sorted into columns.
spec fn grouped(
    windows: Seq<Window>,
    id: u64,
    order: Seq<usize>,
    k: int,
    columns: Seq<Column>,
) -> bool {
    &&& forall|c: int| 0 <= c < columns.len() ==> (#[trigger] columns[c]).rows@.len() > 0
    &&& forall|c: int, d: int|
        0 <= c < d < columns.len() ==> (#[trigger] columns[c]).index < (
        #[trigger] columns[d]).index
    &&& forall|c: int, r: int|
        0 <= c < columns.len() && 0 <= r < columns[c].rows@.len() ==> {
            let i = #[trigger] columns[c].rows@[r];
            i < windows.len() && is_tile(windows[i as int], id) && column_of(windows[i as int])
                == columns[c].index && order.take(k).contains(i)
        }
    &&& forall|c: int, q: int, r: int|
        0 <= c < columns.len() && 0 <= q < r < columns[c].rows@.len() ==> stands_before(
            windows,
            #[trigger] columns[c].rows@[q],
            #[trigger] columns[c].rows@[r],
        )
    &&& forall|q: int| 0 <= q < k ==> stands_in(columns, #[trigger] order[q])
    &&& k == 0 <==> columns.len() == 0
    &&& k > 0 ==> columns.last().index == column_of(windows[order[k - 1] as int])
}

/// `after` is `before` with the window at `i` at the foot of its last column.
spec fn appended(before: Seq<Column>, after: Seq<Column>, i: usize) -> bool {
    &&& before.len() > 0
    &&& after.len() == before.len()
    &&& after.drop_last() == before.drop_last()
    &&& after.last().index == before.last().index
    &&& after.last().rows@ == before.last().rows@.push(i)
}

proof fn lemma_append(
    windows: Seq<Window>,
    id: u64,
    order: Seq<usize>,
    k: int,
    before: Seq<Column>,
    after: Seq<Column>,
)
    requires
        in_order(windows, id, order),
        0 <= k < order.len(),
        grouped(windows, id, order, k, before),
        appended(before, after, order[k]),
        before.last().index == column_of(windows[order[k] as int]),
    ensures
        grouped(windows, id, order, k + 1, after),
{
    let i = order[k];
    let n = after.len() - 1;
    assert forall|c: int| 0 <= c < n implies after[c] == #[trigger] before[c] by {
        assert(after.drop_last()[c] == before.drop_last()[c]);
    }
    assert(after[n].index == before[n].index);
    assert(after[n].rows@ == before[n].rows@.push(i));
    assert forall|c: int, d: int| 0 <= c < d < after.len() implies (#[trigger] after[c]).index < (
    #[trigger] after[d]).index by {
        assert(before[c].index < before[d].index);
    }
    assert forall|c: int| 0 <= c < after.len() implies (#[trigger] after[c]).rows@.len() > 0 by {
        assert(before[c].rows@.len() > 0);
    }
    assert forall|c: int, r: int| 0 <= c < after.len() && 0 <= r < after[c].rows@.len() implies ({
        let j = #[trigger] after[c].rows@[r];
        j < windows.len() && is_tile(windows[j as int], id) && column_of(windows[j as int])
            == after[c].index && order.take(k + 1).contains(j)
    }) by {
        let j = after[c].rows@[r];
        if c == n && r == before[n].rows@.len() {
            assert(order.take(k + 1)[k] == i);
        } else {
            assert(before[c].rows@[r] == j);
            let q = choose|q: int| 0 <= q < order.take(k).len() && order.take(k)[q] == j;
            assert(order.take(k + 1)[q] == j);
        }
    }
    assert forall|c: int, q: int, r: int|
        0 <= c < after.len() && 0 <= q < r < after[c].rows@.len() implies stands_before(
        windows,
        #[trigger] after[c].rows@[q],
        #[trigger] after[c].rows@[r],
    ) by {
        assert(after[c].rows@[q] == before[c].rows@[q]);
        if c == n && r == before[n].rows@.len() {
            let j = before[c].rows@[q];
            let p = choose|p: int| 0 <= p < order.take(k).len() && order.take(k)[p] == j;
            assert(stands_before(windows, order[p], order[k]));
        } else {
            assert(after[c].rows@[r] == before[c].rows@[r]);
        }
    }
    assert forall|q: int| 0 <= q < k + 1 implies stands_in(after, #[trigger] order[q]) by {
        if q == k {
            assert(after[n].rows@[before[n].rows@.len() as int] == i);
        } else {
            assert(stands_in(before, order[q]));
            let (c, r) = choose|c: int, r: int|
                0 <= c < before.len() && 0 <= r < before[c].rows@.len()
                    && #[trigger] before[c].rows@[r] == order[q];
            assert(after[c].rows@[r] == order[q]);
        }
    }
}

proof fn lemma_new_column(
    windows: Seq<Window>,
    id: u64,
    order: Seq<usize>,
    k: int,
    before: Seq<Column>,
    column: Column,
)
    requires
        in_order(windows, id, order),
        0 <= k < order.len(),
        grouped(windows, id, order, k, before),
        before.len() > 0 ==> before.last().index != column.index,
        column.index == column_of(windows[order[k] as int]),
        column.rows@ == seq![order[k]],
    ensures
        grouped(windows, id, order, k + 1, before.push(column)),
{
    let i = order[k];
    let after = before.push(column);
    let n = before.len() as int;
    if k > 0 {
        assert(stands_before(windows, order[k - 1], order[k]));
        assert(before.last().index < column.index);
    }
    assert forall|c: int, d: int| 0 <= c < d < after.len() implies (#[trigger] after[c]).index < (
    #[trigger] after[d]).index by {
        if d == n && c < n - 1 {
            assert(before[c].index < before[n - 1].index);
        }
    }
    assert forall|c: int, r: int| 0 <= c < after.len() && 0 <= r < after[c].rows@.len() implies ({
        let j = #[trigger] after[c].rows@[r];
        j < windows.len() && is_tile(windows[j as int], id) && column_of(windows[j as int])
            == after[c].index && order.take(k + 1).contains(j)
    }) by {
        let j = after[c].rows@[r];
        if c == n {
            assert(order.take(k + 1)[k] == i);
        } else {
            assert(before[c].rows@[r] == j);
            let q = choose|q: int| 0 <= q < order.take(k).len() && order.take(k)[q] == j;
            assert(order.take(k + 1)[q] == j);
        }
    }
    assert forall|c: int, q: int, r: int|
        0 <= c < after.len() && 0 <= q < r < after[c].rows@.len() implies stands_before(
        windows,
        #[trigger] after[c].rows@[q],
        #[trigger] after[c].rows@[r],
    ) by {
        assert(after[c].rows@[q] == before[c].rows@[q]);
        assert(after[c].rows@[r] == before[c].rows@[r]);
    }
    assert forall|q: int| 0 <= q < k + 1 implies stands_in(after, #[trigger] order[q]) by {
        if q == k {
            assert(after[n].rows@[0] == i);
        } else {
            assert(stands_in(before, order[q]));
            let (c, r) = choose|c: int, r: int|
                0 <= c < before.len() && 0 <= r < before[c].rows@.len()
                    && #[trigger] before[c].rows@[r] == order[q];
            assert(after[c].rows@[r] == order[q]);
        }
    }
}

/// Sorts the tiled windows of a workspace into columns.
fn collect_columns(windows: &Vec<Window>, id: u64) -> (r: Vec<Column>)
    ensures
        tiles(windows@, id, r@),
{
    let order: Vec<usize> = sort_tiles(windows, id);
    let mut columns: Vec<Column> = Vec::new();
    let mut k: usize = 0;
    while k < order.len()
        invariant
            k <= order.len(),
            in_order(windows@, id, order@),
            grouped(windows@, id, order@, k as int, columns@),
        decreases order.len() - k,
    {
        let i: usize = order[k];
        let index: u64 = zero_if_none(windows[i].column);
        let ghost before = columns@;
        let last: usize = columns.len();
        if last > 0 && columns[last - 1].index == index {
            let mut column: Column = columns.remove(last - 1);
            column.rows.push(i);
            columns.push(column);
            proof {
                assert(columns@.drop_last() =~= before.drop_last());
                lemma_append(windows@, id, order@, k as int, before, columns@);
            }
        } else {
            let mut rows: Vec<usize> = Vec::new();
            rows.push(i);
            let column: Column = Column { index, rows };
            proof {
                assert(column.rows@ =~= seq![i]);
                lemma_new_column(windows@, id, order@, k as int, before, column);
            }
            columns.push(column);
        }
        k = k + 1;
    }
    proof {
        assert forall|i: int|
            0 <= i < windows.len() && is_tile(#[trigger] windows@[i], id) implies stands_in(
            columns@,
            i as usize,
        ) by {
            let q = choose|q: int| 0 <= q < order@.len() && order@[q] == i as usize;
            assert(stands_in(columns@, order@[q]));
        }
    }
    columns
}

/// Finds the column with the focus.
fn find_focus(windows: &Vec<Window>, id: u64, columns: &Vec<Column>) -> (r: usize)
    ensures
        has_focus(windows@, id, columns@, r as int),
{
    let mut i: usize = 0;
    while i < windows.len() && !(windows[i].workspace == id && windows[i].focused)
        invariant
            i <= windows.len(),
            focus_from(windows@, id, i as int) == focus_from(windows@, id, 0),
        decreases windows.len() - i,
    {
        i = i + 1;
    }
    if i == windows.len() {
        return 0;
    }
    match windows[i].column {
        Some(index) => {
            let mut c: usize = 0;
            while c < columns.len()
                invariant
                    c <= columns.len(),
                    focus_from(windows@, id, 0) == Some(index),
                    forall|d: int| 0 <= d < c ==> (#[trigger] columns@[d]).index != index,
                decreases columns.len() - c,
            {
                if columns[c].index == index {
                    return c;
                }
                c = c + 1;
            }
            0
        },
        None => 0,
    }
}

fn find_screen(screens: &Vec<Screen>, id: u64) -> (r: bool)
    ensures
        r == has_screen(screens@, id),
{
    let mut s: usize = 0;
    while s < screens.len()
        invariant
            s <= screens.len(),
            forall|t: int| 0 <= t < s ==> (#[trigger] screens@[t]).workspace != id,
        decreases screens.len() - s,
    {
        if screens[s].workspace == id {
            return true;
        }
        s = s + 1;
    }
    false
}

/// Sorts the windows into screens.
pub fn arrange(windows: &Vec<Window>, workspaces: &Vec<Workspace>) -> (r: Vec<Screen>)
    ensures
        shows(windows@, workspaces@, r@),
{
    let mut screens: Vec<Screen> = Vec::new();
    let mut i: usize = 0;
    while i < windows.len()
        invariant
            i <= windows.len(),
            forall|s: int|
                0 <= s < screens@.len() ==> is_screen(
                    windows@,
                    workspaces@,
                    #[trigger] screens@[s],
                ),
            forall|s: int, t: int|
                0 <= s < t < screens@.len() ==> (#[trigger] screens@[s]).workspace != (
                #[trigger] screens@[t]).workspace,
            forall|j: int|
                0 <= j < i && area_of(workspaces@, (#[trigger] windows@[j]).workspace) is Some
                    ==> has_screen(screens@, windows@[j].workspace),
        decreases windows.len() - i,
    {
        let id: u64 = windows[i].workspace;
        let area: Option<Rect> = find_area(workspaces, id);
        if let Some(area) = area {
            if !find_screen(&screens, id) {
                let floating: Vec<usize> = collect_floats(windows, id);
                let columns: Vec<Column> = collect_columns(windows, id);
                let focused: usize = find_focus(windows, id, &columns);
                let ghost before = screens@;
                let screen: Screen = Screen { workspace: id, area, floating, columns, focused };
                assert(is_screen(windows@, workspaces@, screen)) by {
                    assert(windows@[i as int].workspace == screen.workspace);
                }
                screens.push(screen);
                proof {
                    assert(screens@[before.len() as int].workspace == id);
                    assert forall|j: int|
                        0 <= j < i + 1 && area_of(
                            workspaces@,
                            (#[trigger] windows@[j]).workspace,
                        ) is Some implies has_screen(screens@, windows@[j].workspace) by {
                        if j < i {
                            let s = choose|s: int|
                                0 <= s < before.len() && (#[trigger] before[s]).workspace
                                    == windows@[j].workspace;
                            assert(screens@[s].workspace == windows@[j].workspace);
                        }
                    }
                }
            }
        }
        i = i + 1;
    }
    screens
}

// ── The three replies together ───────────────────────────────────

/// What niri reports, sorted.
#[derive(Debug, Clone)]
pub struct Desktop {
    pub windows: Vec<Window>,
    pub screens: Vec<Screen>,
}

/// The windows are those of the reports, in their order.
pub open spec fn describe_all(reports: Seq<Json>, windows: Seq<Window>) -> bool {
    &&& windows.len() == reports.len()
    &&& forall|i: int| 0 <= i < reports.len() ==> describes(reports[i], #[trigger] windows[i])
}

/// The workspaces of the reports, in their order.
pub open spec fn workspaces_in(
    reports: Seq<Json>,
    outputs: Map<Seq<char>, Json>,
) -> Seq<Workspace> {
    Seq::new(reports.len(), |i: int| workspace_in(reports[i], outputs))
}

fn read_windows(reports: &Vec<serde_json::Value>) -> (r: Vec<Window>)
    ensures
        r@.len() == reports@.len(),
        forall|i: int|
            0 <= i < reports@.len() ==> describes(json_of(reports@[i]), #[trigger] r@[i]),
{
    let mut out: Vec<Window> = Vec::new();
    let mut i: usize = 0;
    while i < reports.len()
        invariant
            i <= reports.len(),
            out@.len() == i,
            forall|j: int| 0 <= j < i ==> describes(json_of(reports@[j]), #[trigger] out@[j]),
        decreases reports.len() - i,
    {
        out.push(read_window(&reports[i]));
        i = i + 1;
    }
    out
}

fn read_workspaces(reports: &Vec<serde_json::Value>, outputs: &serde_json::Value) -> (r: Vec<
    Workspace,
>)
    ensures
        r@.len() == reports@.len(),
        json_of(*outputs) matches Json::Object(m) ==> forall|i: int|
            0 <= i < reports@.len() ==> #[trigger] r@[i] == workspace_in(json_of(reports@[i]), m),
{
    let mut out: Vec<Workspace> = Vec::new();
    let mut i: usize = 0;
    while i < reports.len()
        invariant
            i <= reports.len(),
            out@.len() == i,
            json_of(*outputs) matches Json::Object(m) ==> forall|j: int|
                0 <= j < i ==> #[trigger] out@[j] == workspace_in(json_of(reports@[j]), m),
        decreases reports.len() - i,
    {
        out.push(read_workspace(&reports[i], outputs));
        i = i + 1;
    }
    out
}

/// What the three replies say of the desktop.
pub open spec fn reported(
    windows: Option<Json>,
    workspaces: Option<Json>,
    outputs: Option<Json>,
    r: Result<Desktop, ReplyError>,
) -> bool {
    match windows {
        Some(Json::List(ws)) => match workspaces {
            Some(Json::List(ss)) => match outputs {
                Some(Json::Object(m)) => {
                    &&& r matches Ok(desktop)
                    &&& describe_all(ws, desktop.windows@)
                    &&& shows(desktop.windows@, workspaces_in(ss, m), desktop.screens@)
                },
                _ => r == Err::<Desktop, ReplyError>(ReplyError::Outputs),
            },
            _ => r == Err::<Desktop, ReplyError>(ReplyError::Workspaces),
        },
        _ => r == Err::<Desktop, ReplyError>(ReplyError::Windows),
    }
}

/// Reads niri's replies on windows, workspaces and outputs, and sorts the windows into screens.
pub fn get_windows(windows: &[u8], workspaces: &[u8], outputs: &[u8]) -> (r: Result<
    Desktop,
    ReplyError,
>)
    ensures
        reported(json_text(windows@), json_text(workspaces@), json_text(outputs@), r),
{
    let window_reply: serde_json::Value = match parse(windows) {
        Some(v) => v,
        None => return Err(ReplyError::Windows),
    };
    let window_reports: &Vec<serde_json::Value> = match window_reply.as_array() {
        Some(items) => items,
        None => return Err(ReplyError::Windows),
    };
    let workspace_reply: serde_json::Value = match parse(workspaces) {
        Some(v) => v,
        None => return Err(ReplyError::Workspaces),
    };
    let workspace_reports: &Vec<serde_json::Value> = match workspace_reply.as_array() {
        Some(items) => items,
        None => return Err(ReplyError::Workspaces),
    };
    let output_reply: serde_json::Value = match parse(outputs) {
        Some(v) => v,
        None => return Err(ReplyError::Outputs),
    };
    if !output_reply.is_object() {
        return Err(ReplyError::Outputs);
    }
    let found: Vec<Window> = read_windows(window_reports);
    let spaces: Vec<Workspace> = read_workspaces(workspace_reports, &output_reply);
    let screens: Vec<Screen> = arrange(&found, &spaces);
    proof {
        let m = json_of(output_reply)->Object_0;
        let ss = json_of(workspace_reply)->List_0;
        assert(spaces@ =~= workspaces_in(ss, m));
    }
    Ok(Desktop { windows: found, screens })
}

// ── Which window lies over which ─────────────────────────────────

/// The windows of some columns: from the left, and in each column from the top.
pub open spec fn rows_of(columns: Seq<Column>) -> Seq<usize>
    decreases columns.len(),
{
    if columns.len() == 0 {
        Seq::empty()
    } else {
        rows_of(columns.drop_last()) + columns.last().rows@
    }
}

/// The windows of a screen from the bottom up: the floating ones, and over them the tiled ones.
pub open spec fn stacked(s: Screen) -> Seq<usize> {
    s.floating@ + rows_of(s.columns@)
}

/// Lists the windows of a screen from the bottom up.
pub fn stacking(s: &Screen) -> (r: Vec<usize>)
    ensures
        r@ == stacked(*s),
{
    let mut out: Vec<usize> = Vec::new();
    out.extend_from_slice(s.floating.as_slice());
    assert(out@ =~= s.floating@);
    let mut c: usize = 0;
    while c < s.columns.len()
        invariant
            c <= s.columns@.len(),
            out@ == s.floating@ + rows_of(s.columns@.take(c as int)),
        decreases s.columns@.len() - c,
    {
        let ghost part = s.columns@.take(c + 1);
        let ghost before = out@;
        assert(part.drop_last() =~= s.columns@.take(c as int));
        out.extend_from_slice(s.columns[c].rows.as_slice());
        assert(out@ =~= before + s.columns@[c as int].rows@);
        assert(out@ =~= s.floating@ + rows_of(part));
        c = c + 1;
    }
    assert(s.columns@.take(s.columns@.len() as int) =~= s.columns@);
    out
}

// ── What holds of every arrangement ──────────────────────────────

/// No window stands twice in the columns of a screen.
pub proof fn tile_stands_once(
    windows: Seq<Window>,
    id: u64,
    columns: Seq<Column>,
    c: int,
    q: int,
    d: int,
    r: int,
)
    requires
        tiles(windows, id, columns),
        0 <= c < columns.len(),
        0 <= q < columns[c].rows@.len(),
        0 <= d < columns.len(),
        0 <= r < columns[d].rows@.len(),
        columns[c].rows@[q] == columns[d].rows@[r],
    ensures
        c == d,
        q == r,
{
    let i = columns[c].rows@[q];
    assert(column_of(windows[i as int]) == columns[c].index);
    assert(column_of(windows[columns[d].rows@[r] as int]) == columns[d].index);
    if c < d {
        assert(columns[c].index < columns[d].index);
    }
    if d < c {
        assert(columns[d].index < columns[c].index);
    }
    if q < r {
        assert(stands_before(windows, columns[c].rows@[q], columns[c].rows@[r]));
    }
    if r < q {
        assert(stands_before(windows, columns[c].rows@[r], columns[c].rows@[q]));
    }
}

/// The list of floating windows holds each floating window of the workspace whose position is known,
/// no other window, and none twice: its places increase.
pub proof fn floats_are_listed(windows: Seq<Window>, id: u64)
    requires
        windows.len() <= usize::MAX,
    ensures
        forall|k: int|
            0 <= k < floats(windows, id).len() ==> {
                let i = #[trigger] floats(windows, id)[k];
                i < windows.len() && is_float(windows[i as int], id)
            },
        forall|i: int|
            0 <= i < windows.len() && is_float(#[trigger] windows[i], id) ==> floats(
                windows,
                id,
            ).contains(i as usize),
        forall|k: int, l: int|
            0 <= k < l < floats(windows, id).len() ==> #[trigger] floats(windows, id)[k]
                < #[trigger] floats(windows, id)[l],
    decreases windows.len(),
{
    if windows.len() > 0 {
        let front = windows.drop_last();
        let rest = floats(front, id);
        let all = floats(windows, id);
        floats_are_listed(front, id);
        assert forall|k: int| 0 <= k < all.len() implies {
            let i = #[trigger] all[k];
            i < windows.len() && is_float(windows[i as int], id)
        } by {
            if k < rest.len() {
                assert(all[k] == rest[k]);
                assert(front[rest[k] as int] == windows[rest[k] as int]);
            }
        }
        assert forall|i: int|
            0 <= i < windows.len() && is_float(#[trigger] windows[i], id) implies all.contains(
            i as usize,
        ) by {
            if i < front.len() {
                assert(is_float(front[i], id));
                let k = choose|k: int| 0 <= k < rest.len() && rest[k] == i as usize;
                assert(all[k] == i as usize);
            } else {
                assert(all[all.len() - 1] == i as usize);
            }
        }
        assert forall|k: int, l: int| 0 <= k < l < all.len() implies #[trigger] all[k]
            < #[trigger] all[l] by {
            assert(all[k] == rest[k]);
            if l < rest.len() {
                assert(all[l] == rest[l]);
            }
        }
    }
}

/// The screen lists the window at place `i`, floating or tiled.
pub open spec fn lists(s: Screen, i: usize) -> bool {
    s.floating@.contains(i) || stands_in(s.columns@, i)
}

/// A screen lists no window but those of its own workspace, so no window is on two screens; and none
/// is both among the floating windows and in a column.
pub proof fn windows_stay_on_their_screen(
    windows: Seq<Window>,
    workspaces: Seq<Workspace>,
    screens: Seq<Screen>,
    i: usize,
    s: int,
    t: int,
)
    requires
        windows.len() <= usize::MAX,
        shows(windows, workspaces, screens),
        0 <= s < screens.len(),
        0 <= t < screens.len(),
        lists(screens[s], i),
    ensures
        i < windows.len(),
        windows[i as int].workspace == screens[s].workspace,
        lists(screens[t], i) ==> s == t,
        !(screens[s].floating@.contains(i) && stands_in(screens[s].columns@, i)),
{
    floats_are_listed(windows, screens[s].workspace);
    floats_are_listed(windows, screens[t].workspace);
    assert(is_screen(windows, workspaces, screens[s]));
    assert(is_screen(windows, workspaces, screens[t]));
    if s < t {
        assert(screens[s].workspace != screens[t].workspace);
    }
    if t < s {
        assert(screens[t].workspace != screens[s].workspace);
    }
}

proof fn lemma_rows_of(columns: Seq<Column>)
    ensures
        forall|i: usize| rows_of(columns).contains(i) <==> stands_in(columns, i),
    decreases columns.len(),
{
    if columns.len() > 0 {
        let front = columns.drop_last();
        let rows = columns.last().rows@;
        let all = rows_of(columns);
        lemma_rows_of(front);
        assert forall|i: usize| all.contains(i) <==> stands_in(columns, i) by {
            if all.contains(i) {
                let k = choose|k: int| 0 <= k < all.len() && all[k] == i;
                if k < rows_of(front).len() {
                    assert(rows_of(front)[k] == i);
                    assert(stands_in(front, i));
                    let (c, r) = choose|c: int, r: int|
                        0 <= c < front.len() && 0 <= r < front[c].rows@.len()
                            && #[trigger] front[c].rows@[r] == i;
                    assert(columns[c].rows@[r] == i);
                } else {
                    let r = k - rows_of(front).len();
                    assert(columns[columns.len() - 1].rows@[r] == i);
                }
            }
            if stands_in(columns, i) {
                let (c, r) = choose|c: int, r: int|
                    0 <= c < columns.len() && 0 <= r < columns[c].rows@.len()
                        && #[trigger] columns[c].rows@[r] == i;
                if c < front.len() {
                    assert(front[c].rows@[r] == i);
                    assert(stands_in(front, i));
                    assert(rows_of(front).contains(i));
                    let k = choose|k: int| 0 <= k < rows_of(front).len() && rows_of(front)[k] == i;
                    assert(all[k] == i);
                } else {
                    assert(all[rows_of(front).len() + r] == i);
                }
            }
        }
    }
}

/// No window stands twice among those of the columns.
proof fn lemma_rows_of_distinct(windows: Seq<Window>, id: u64, columns: Seq<Column>, n: int)
    requires
        tiles(windows, id, columns),
        0 <= n <= columns.len(),
    ensures
        rows_of(columns.take(n)).no_duplicates(),
    decreases n,
{
    let part = columns.take(n);
    if n > 0 {
        let front = columns.take(n - 1);
        assert(part.drop_last() =~= front);
        lemma_rows_of_distinct(windows, id, columns, n - 1);
        lemma_rows_of(front);
        let (a, b) = (rows_of(front), columns[n - 1].rows@);
        let all = rows_of(part);
        assert forall|k: int, l: int| 0 <= k < l < all.len() implies all[k] != all[l] by {
            if l < a.len() {
                assert(a[k] != a[l]);
            } else if k >= a.len() {
                if all[k] == all[l] {
                    tile_stands_once(windows, id, columns, n - 1, k - a.len(), n - 1, l - a.len());
                }
            } else {
                let i = a[k];
                assert(a.contains(i));
                assert(stands_in(front, i));
                let (c, r) = choose|c: int, r: int|
                    0 <= c < front.len() && 0 <= r < front[c].rows@.len()
                        && #[trigger] front[c].rows@[r] == i;
                if all[k] == all[l] {
                    assert(columns[c].rows@[r] == i);
                    tile_stands_once(windows, id, columns, c, r, n - 1, l - a.len());
                }
            }
        }
    }
}

/// The stack of a screen holds each window that the screen lists, once, and no other. No floating
/// window lies over a tiled one.
pub proof fn stack_holds_the_screen(
    windows: Seq<Window>,
    workspaces: Seq<Workspace>,
    s: Screen,
    i: usize,
)
    requires
        windows.len() <= usize::MAX,
        is_screen(windows, workspaces, s),
    ensures
        stacked(s).contains(i) <==> lists(s, i),
        stacked(s).no_duplicates(),
        forall|k: int, l: int|
            0 <= k < stacked(s).len() && 0 <= l < stacked(s).len()
                && windows[#[trigger] stacked(s)[k] as int].floating
                && !windows[#[trigger] stacked(s)[l] as int].floating ==> k < l,
{
    let (a, b) = (s.floating@, rows_of(s.columns@));
    let all = stacked(s);
    floats_are_listed(windows, s.workspace);
    lemma_rows_of(s.columns@);
    assert(s.columns@.take(s.columns@.len() as int) =~= s.columns@);
    lemma_rows_of_distinct(windows, s.workspace, s.columns@, s.columns@.len() as int);
    if a.contains(i) {
        let k = choose|k: int| 0 <= k < a.len() && a[k] == i;
        assert(all[k] == i);
    }
    if b.contains(i) {
        let k = choose|k: int| 0 <= k < b.len() && b[k] == i;
        assert(all[a.len() + k] == i);
    }
    if all.contains(i) {
        let k = choose|k: int| 0 <= k < all.len() && all[k] == i;
        if k < a.len() {
            assert(a[k] == i);
        } else {
            assert(b[k - a.len()] == i);
        }
    }
    assert forall|l: int| a.len() <= l < all.len() implies !windows[#[trigger] all[l] as int].floating
        by {
        assert(b.contains(b[l - a.len()]));
        assert(stands_in(s.columns@, all[l]));
        let (c, r) = choose|c: int, r: int|
            0 <= c < s.columns@.len() && 0 <= r < s.columns@[c].rows@.len()
                && #[trigger] s.columns@[c].rows@[r] == all[l];
        assert(is_tile(windows[s.columns@[c].rows@[r] as int], s.workspace));
    }
    assert forall|k: int| 0 <= k < a.len() implies windows[#[trigger] all[k] as int].floating by {
        assert(all[k] == floats(windows, s.workspace)[k]);
    }
    assert forall|k: int, l: int| 0 <= k < l < all.len() implies all[k] != all[l] by {
        if l < a.len() {
            assert(floats(windows, s.workspace)[k] < floats(windows, s.workspace)[l]);
        } else if k >= a.len() {
            assert(b[k - a.len()] != b[l - a.len()]);
        } else {
            assert(windows[all[k] as int].floating && !windows[all[l] as int].floating);
        }
    }
}

/// Every window of a shown workspace is on a screen, unless it floats at an unknown position.
pub proof fn shown_windows_are_listed(
    windows: Seq<Window>,
    workspaces: Seq<Workspace>,
    screens: Seq<Screen>,
    i: usize,
)
    requires
        windows.len() <= usize::MAX,
        shows(windows, workspaces, screens),
        i < windows.len(),
        area_of(workspaces, windows[i as int].workspace) is Some,
        windows[i as int].floating ==> windows[i as int].placed,
    ensures
        exists|s: int| 0 <= s < screens.len() && lists(#[trigger] screens[s], i),
{
    let w = windows[i as int];
    assert(has_screen(screens, w.workspace));
    let s = choose|s: int| 0 <= s < screens.len() && (#[trigger] screens[s]).workspace == w.workspace;
    assert(is_screen(windows, workspaces, screens[s]));
    floats_are_listed(windows, w.workspace);
    assert(lists(screens[s], i));
}

// ── What the replies say, name by name ───────────────────────────

/// The area of an output has under each of its four parts the number that the report has under the
/// name of that part: changing the number under one name changes that part, to that number, and no
/// other.
pub proof fn areas_are_read_by_name(
    m: Map<Seq<char>, Json>,
    x: u64,
    y: u64,
    width: u64,
    height: u64,
    n: Option<u64>,
)
    requires
        m.dom().contains("x"@) && m["x"@] == Json::Number(n, x),
        m.dom().contains("y"@) && m["y"@] == Json::Number(n, y),
        m.dom().contains("width"@) && m["width"@] == Json::Number(n, width),
        m.dom().contains("height"@) && m["height"@] == Json::Number(n, height),
    ensures
        area_in(Json::Object(m)).x.bits == x,
        area_in(Json::Object(m)).y.bits == y,
        area_in(Json::Object(m)).width.bits == width,
        area_in(Json::Object(m)).height.bits == height,
{
}

/// A change of the number under one name of an output's report changes that part of its area and no
/// other, whatever else the report holds.
pub proof fn parts_of_an_area_are_apart(m: Map<Seq<char>, Json>, n: Option<u64>, bits: u64)
    ensures
        area_in(Json::Object(m.insert("x"@, Json::Number(n, bits)))) == (Rect {
            x: Coord { bits },
            ..area_in(Json::Object(m))
        }),
        area_in(Json::Object(m.insert("y"@, Json::Number(n, bits)))) == (Rect {
            y: Coord { bits },
            ..area_in(Json::Object(m))
        }),
        area_in(Json::Object(m.insert("width"@, Json::Number(n, bits)))) == (Rect {
            width: Coord { bits },
            ..area_in(Json::Object(m))
        }),
        area_in(Json::Object(m.insert("height"@, Json::Number(n, bits)))) == (Rect {
            height: Coord { bits },
            ..area_in(Json::Object(m))
        }),
{
    reveal_strlit("x");
    reveal_strlit("y");
    reveal_strlit("width");
    reveal_strlit("height");
    assert("x"@[0] != "y"@[0]);
    assert("x"@.len() != "width"@.len() && "x"@.len() != "height"@.len());
    assert("y"@.len() != "width"@.len() && "y"@.len() != "height"@.len());
    assert("width"@.len() != "height"@.len());
}

/// A workspace has the id and the activity that its report has under those names, and the area that
/// the output of its name reports as logical. What is missing is zero, inactive, or unknown.
pub proof fn workspaces_are_read_by_name(
    m: Map<Seq<char>, Json>,
    outputs: Map<Seq<char>, Json>,
    id: u64,
    bits: u64,
    active: bool,
    name: Seq<char>,
    report: Map<Seq<char>, Json>,
)
    ensures
        ({
            let w = workspace_in(Json::Object(m), outputs);
            &&& m.dom().contains("id"@) && m["id"@] == Json::Number(Some(id), bits) ==> w.id == id
            &&& !m.dom().contains("id"@) ==> w.id == 0
            &&& m.dom().contains("is_active"@) && m["is_active"@] == Json::Bool(active) ==> w.active
                == active
            &&& !m.dom().contains("is_active"@) ==> !w.active
            &&& m.dom().contains("output"@) && m["output"@] == Json::Text(name) ==> {
                &&& !outputs.dom().contains(name) ==> w.area is None
                &&& outputs.dom().contains(name) && outputs[name] == Json::Object(report)
                    && report.dom().contains("logical"@) ==> w.area == Some(
                    area_in(report["logical"@]),
                )
            }
        }),
{
}

/// A window has its title, its id, its workspace and its flags as its report has them under those
/// names. What is missing is empty, zero or false.
pub proof fn windows_are_read_by_name(
    m: Map<Seq<char>, Json>,
    w: Window,
    title: Seq<char>,
    id: u64,
    workspace: u64,
    bits: u64,
    flag: bool,
)
    requires
        describes(Json::Object(m), w),
    ensures
        m.dom().contains("title"@) && m["title"@] == Json::Text(title) ==> w.title@ == title,
        m.dom().contains("id"@) && m["id"@] == Json::Number(Some(id), bits) ==> w.id == id,
        !m.dom().contains("id"@) ==> w.id == 0,
        m.dom().contains("workspace_id"@) && m["workspace_id"@] == Json::Number(
            Some(workspace),
            bits,
        ) ==> w.workspace == workspace,
        !m.dom().contains("workspace_id"@) ==> w.workspace == 0,
        m.dom().contains("is_floating"@) && m["is_floating"@] == Json::Bool(flag) ==> w.floating
            == flag,
        !m.dom().contains("is_floating"@) ==> !w.floating,
        m.dom().contains("is_focused"@) && m["is_focused"@] == Json::Bool(flag) ==> w.focused
            == flag,
        !m.dom().contains("is_focused"@) ==> !w.focused,
        !m.dom().contains("title"@) ==> w.title@.len() == 0,
{
    reveal_strlit("");
}

/// A window has its column and its row, its place, its offset and its sizes as the layout in its
/// report has them under those names: the first number of a pair is the column, or the horizontal
/// part, and the second the row, or the vertical part.
pub proof fn layouts_are_read_by_name(
    m: Map<Seq<char>, Json>,
    l: Map<Seq<char>, Json>,
    w: Window,
    a: Option<u64>,
    x: u64,
    b: Option<u64>,
    y: u64,
)
    requires
        describes(Json::Object(m), w),
        m.dom().contains("layout"@),
        m["layout"@] == Json::Object(l),
    ensures
        ({
            let pair = Json::List(seq![Json::Number(a, x), Json::Number(b, y)]);
            &&& l.dom().contains("pos_in_scrolling_layout"@) && l["pos_in_scrolling_layout"@] == pair
                ==> w.column == a && (b matches Some(row) ==> w.row == row)
            &&& l.dom().contains("tile_pos_in_workspace_view"@)
                && l["tile_pos_in_workspace_view"@] == pair ==> w.placed && w.position.x.bits == x
                && w.position.y.bits == y
            &&& l.dom().contains("window_offset_in_tile"@) && l["window_offset_in_tile"@] == pair
                ==> w.offset.x.bits == x && w.offset.y.bits == y
            &&& l.dom().contains("window_size"@) && l["window_size"@] == pair ==> w.size.x.bits == x
                && w.size.y.bits == y
            &&& l.dom().contains("tile_size"@) && l["tile_size"@] == pair ==> w.tile.x.bits == x
                && w.tile.y.bits == y
        }),
        l.dom().contains("tile_pos_in_workspace_view"@) && l["tile_pos_in_workspace_view"@] is Null
            ==> !w.placed,
        !l.dom().contains("tile_pos_in_workspace_view"@) ==> !w.placed,
        !l.dom().contains("pos_in_scrolling_layout"@) ==> w.column is None && w.row == 0,
{
}

/// The title of the focused window is the text under that name, if the reply is an object that has
/// one there.
pub proof fn focused_titles_are_read_by_name(
    reply: Seq<u8>,
    m: Map<Seq<char>, Json>,
    title: Seq<char>,
)
    requires
        json_text(reply) == Some(Json::Object(m)),
    ensures
        m.dom().contains("title"@) && m["title"@] == Json::Text(title) ==> focused_title_in(reply)
            == Some(title),
        !m.dom().contains("title"@) ==> focused_title_in(reply) is None,
        m.dom().contains("title"@) && m["title"@] !is Text ==> focused_title_in(reply) is None,
{
}

/// The replies are looked at in turn: an error names the first of them that is not what it should
/// be, and there is none if the first two are arrays and the third is an object. The windows are then
/// those of the first reply, in its order.
pub proof fn replies_are_looked_at_in_turn(
    windows: Option<Json>,
    workspaces: Option<Json>,
    outputs: Option<Json>,
    r: Result<Desktop, ReplyError>,
    i: int,
)
    requires
        reported(windows, workspaces, outputs, r),
    ensures
        r is Ok <==> (windows matches Some(Json::List(_))) && (workspaces matches Some(
            Json::List(_),
        )) && (outputs matches Some(Json::Object(_))),
        r matches Err(e) ==> {
            &&& e == ReplyError::Windows <==> !(windows matches Some(Json::List(_)))
            &&& e == ReplyError::Workspaces <==> (windows matches Some(Json::List(_))) && !(
            workspaces matches Some(Json::List(_)))
            &&& e == ReplyError::Outputs <==> (windows matches Some(Json::List(_))) && (
            workspaces matches Some(Json::List(_))) && !(outputs matches Some(Json::Object(_)))
        },
        r matches Ok(d) ==> (windows matches Some(Json::List(ws)) ==> {
            &&& d.windows@.len() == ws.len()
            &&& 0 <= i < ws.len() ==> describes(ws[i], d.windows@[i])
        }),
        r matches Ok(d) ==> (workspaces matches Some(Json::List(ss)) ==> (outputs matches Some(
            Json::Object(m),
        ) ==> shows(
            d.windows@,
            Seq::new(ss.len(), |k: int| workspace_in(ss[k], m)),
            d.screens@,
        ))),
{
    if let Some(Json::List(ss)) = workspaces {
        if let Some(Json::Object(m)) = outputs {
            assert(workspaces_in(ss, m) =~= Seq::new(
                ss.len(),
                |k: int| workspace_in(ss[k], m),
            ));
        }
    }
}

// ── Who stands where ─────────────────────────────────────────────

/// A workspace is shown in the area of an active workspace of its id with a known output, the last
/// of them if there are several; and nowhere if there is none.
pub proof fn areas_are_of_active_workspaces(workspaces: Seq<Workspace>, id: u64, j: int)
    requires
        0 <= j < workspaces.len(),
    ensures
        workspaces[j].id == id && workspaces[j].active && workspaces[j].area is Some ==> area_of(
            workspaces,
            id,
        ) is Some,
        area_of(workspaces, id) matches Some(area) ==> exists|i: int|
            0 <= i < workspaces.len() && (#[trigger] workspaces[i]).id == id && workspaces[i].active
                && workspaces[i].area == Some(area) && (j > i ==> !(workspaces[j].id == id
                && workspaces[j].active && workspaces[j].area is Some)),
    decreases workspaces.len(),
{
    let w = workspaces.last();
    let front = workspaces.drop_last();
    if w.active && w.id == id && w.area is Some {
        assert(workspaces[workspaces.len() - 1] == w);
    } else if j < front.len() {
        assert(front[j] == workspaces[j]);
        areas_are_of_active_workspaces(front, id, j);
        if let Some(area) = area_of(front, id) {
            let i = choose|i: int|
                0 <= i < front.len() && (#[trigger] front[i]).id == id && front[i].active
                    && front[i].area == Some(area) && (j > i ==> !(front[j].id == id
                    && front[j].active && front[j].area is Some));
            assert(workspaces[i] == front[i]);
        }
    } else if front.len() > 0 {
        areas_are_of_active_workspaces(front, id, 0);
        if let Some(area) = area_of(front, id) {
            let i = choose|i: int|
                0 <= i < front.len() && (#[trigger] front[i]).id == id && front[i].active
                    && front[i].area == Some(area) && (0 > i ==> !(front[0].id == id
                    && front[0].active && front[0].area is Some));
            assert(workspaces[i] == front[i]);
        }
    }
}

/// Each screen is that of a shown workspace with a window on it, in the area where that workspace is
/// shown, and no workspace has two screens. A shown workspace with a window on it has a screen.
pub proof fn screens_are_of_shown_workspaces(
    windows: Seq<Window>,
    workspaces: Seq<Workspace>,
    screens: Seq<Screen>,
    s: int,
    t: int,
    i: int,
)
    requires
        shows(windows, workspaces, screens),
    ensures
        0 <= s < screens.len() ==> area_of(workspaces, screens[s].workspace) == Some(
            screens[s].area,
        ),
        0 <= s < screens.len() ==> exists|j: int|
            0 <= j < windows.len() && (#[trigger] windows[j]).workspace == screens[s].workspace,
        0 <= s < t < screens.len() ==> screens[s].workspace != screens[t].workspace,
        0 <= i < windows.len() && area_of(workspaces, windows[i].workspace) is Some ==> exists|u: int|
            0 <= u < screens.len() && (#[trigger] screens[u]).workspace == windows[i].workspace,
{
    if 0 <= s < screens.len() {
        assert(is_screen(windows, workspaces, screens[s]));
    }
    if 0 <= i < windows.len() && area_of(workspaces, windows[i].workspace) is Some {
        assert(has_screen(screens, windows[i].workspace));
    }
}

/// The floating windows of a screen are those windows of its workspace that float at a known
/// position, in the order of the list; and its tiled windows are those that do not float.
pub proof fn screens_hold_their_windows(
    windows: Seq<Window>,
    workspaces: Seq<Workspace>,
    s: Screen,
    i: usize,
    k: int,
    l: int,
)
    requires
        windows.len() <= usize::MAX,
        is_screen(windows, workspaces, s),
    ensures
        s.floating@.contains(i) <==> i < windows.len() && windows[i as int].workspace == s.workspace
            && windows[i as int].floating && windows[i as int].placed,
        stands_in(s.columns@, i) <==> i < windows.len() && windows[i as int].workspace
            == s.workspace && !windows[i as int].floating,
        0 <= k < l < s.floating@.len() ==> s.floating@[k] < s.floating@[l],
{
    floats_are_listed(windows, s.workspace);
    if s.floating@.contains(i) {
        let k = choose|k: int| 0 <= k < s.floating@.len() && s.floating@[k] == i;
        assert(floats(windows, s.workspace)[k] == i);
    }
    if i < windows.len() && is_float(windows[i as int], s.workspace) {
        assert(floats(windows, s.workspace).contains(i));
    }
    if stands_in(s.columns@, i) {
        let (c, r) = choose|c: int, r: int|
            0 <= c < s.columns@.len() && 0 <= r < s.columns@[c].rows@.len()
                && #[trigger] s.columns@[c].rows@[r] == i;
        assert(is_tile(windows[s.columns@[c].rows@[r] as int], s.workspace));
    }
    if i < windows.len() && is_tile(windows[i as int], s.workspace) {
        assert(stands_in(s.columns@, i));
    }
}

/// The columns of a screen stand by increasing number, and none is empty. A window stands in the
/// column of its own number, zero if it has none. In a column the rows go down by their numbers, and
/// windows of the same row in the order of the list.
pub proof fn columns_stand_in_order(
    windows: Seq<Window>,
    workspaces: Seq<Workspace>,
    s: Screen,
    c: int,
    d: int,
    q: int,
    r: int,
)
    requires
        is_screen(windows, workspaces, s),
        0 <= c < s.columns@.len(),
        0 <= q < r < s.columns@[c].rows@.len(),
    ensures
        c < d < s.columns@.len() ==> s.columns@[c].index < s.columns@[d].index,
        0 <= d < s.columns@.len() ==> s.columns@[d].rows@.len() > 0,
        ({
            let (i, j) = (s.columns@[c].rows@[q], s.columns@[c].rows@[r]);
            let (a, b) = (windows[i as int], windows[j as int]);
            &&& i < windows.len() && j < windows.len()
            &&& a.column == Some(s.columns@[c].index) || (a.column is None && s.columns@[c].index == 0)
            &&& b.column == Some(s.columns@[c].index) || (b.column is None && s.columns@[c].index == 0)
            &&& a.row < b.row || (a.row == b.row && i < j)
        }),
{
    let (i, j) = (s.columns@[c].rows@[q], s.columns@[c].rows@[r]);
    assert(stands_before(windows, i, j));
    assert(column_of(windows[i as int]) == s.columns@[c].index);
    assert(column_of(windows[j as int]) == s.columns@[c].index);
}

/// Every window in a column is a tiled one of the screen's workspace, and the column has its number.
pub proof fn windows_stand_in_their_column(
    windows: Seq<Window>,
    workspaces: Seq<Workspace>,
    s: Screen,
    c: int,
    r: int,
)
    requires
        is_screen(windows, workspaces, s),
        0 <= c < s.columns@.len(),
        0 <= r < s.columns@[c].rows@.len(),
    ensures
        ({
            let i = s.columns@[c].rows@[r];
            let w = windows[i as int];
            &&& i < windows.len()
            &&& w.workspace == s.workspace && !w.floating
            &&& w.column == Some(s.columns@[c].index) || (w.column is None && s.columns@[c].index == 0)
        }),
{
    let i = s.columns@[c].rows@[r];
    assert(is_tile(windows[i as int], s.workspace) && column_of(windows[i as int])
        == s.columns@[c].index);
}

/// The focus of a screen is on the column of the first focused window of its workspace, provided
/// that this window has a column and that column is there. Otherwise it is on the first column.
pub proof fn focus_is_on_the_focused_column(
    windows: Seq<Window>,
    workspaces: Seq<Workspace>,
    s: Screen,
    i: int,
    c: int,
)
    requires
        is_screen(windows, workspaces, s),
        0 <= i <= windows.len(),
        forall|j: int|
            0 <= j < i ==> !((#[trigger] windows[j]).workspace == s.workspace && windows[j].focused),
        i < windows.len() ==> windows[i].workspace == s.workspace && windows[i].focused,
    ensures
        i == windows.len() ==> s.focused == 0,
        i < windows.len() && windows[i].column is None ==> s.focused == 0,
        i < windows.len() && 0 <= c < s.columns@.len() && windows[i].column == Some(
            s.columns@[c].index,
        ) ==> s.focused == c,
        i < windows.len() && (forall|d: int|
            0 <= d < s.columns@.len() ==> windows[i].column != Some(
                (#[trigger] s.columns@[d]).index,
            )) ==> s.focused == 0,
{
    lemma_focus(windows, s.workspace, 0, i);
    assert(has_focus(windows, s.workspace, s.columns@, s.focused as int));
    if i < windows.len() && 0 <= c < s.columns@.len() && windows[i].column == Some(
        s.columns@[c].index,
    ) {
        let f = s.focused as int;
        if f < c && f < s.columns@.len() {
            assert(s.columns@[f].index < s.columns@[c].index);
        }
        if c < f && f < s.columns@.len() {
            assert(s.columns@[c].index < s.columns@[f].index);
        }
    }
}

proof fn lemma_focus(windows: Seq<Window>, id: u64, from: int, i: int)
    requires
        0 <= from <= i <= windows.len(),
        forall|j: int|
            from <= j < i ==> !((#[trigger] windows[j]).workspace == id && windows[j].focused),
        i < windows.len() ==> windows[i].workspace == id && windows[i].focused,
    ensures
        focus_from(windows, id, from) == (if i < windows.len() {
            windows[i].column
        } else {
            None
        }),
    decreases i - from,
{
    if from < i {
        assert(!(windows[from].workspace == id && windows[from].focused));
        lemma_focus(windows, id, from + 1, i);
    }
}

/// On the stack of a screen the floating windows come first, in the order of the list, and then the
/// tiled ones: from the left column to the right, in a column from the upper row to the lower, and
/// in a row in the order of the list.
pub proof fn stacks_stand_in_order(
    windows: Seq<Window>,
    workspaces: Seq<Workspace>,
    s: Screen,
    k: int,
    l: int,
)
    requires
        windows.len() <= usize::MAX,
        is_screen(windows, workspaces, s),
        0 <= k < l < stacked(s).len(),
    ensures
        ({
            let (i, j) = (stacked(s)[k], stacked(s)[l]);
            let (a, b) = (windows[i as int], windows[j as int]);
            let col_a = if a.column is Some {
                a.column->0
            } else {
                0
            };
            let col_b = if b.column is Some {
                b.column->0
            } else {
                0
            };
            &&& b.floating ==> a.floating && i < j
            &&& !a.floating ==> !b.floating && (col_a < col_b || (col_a == col_b && (a.row < b.row
                || (a.row == b.row && i < j))))
        }),
{
    let n = s.floating@.len() as int;
    let rows = rows_of(s.columns@);
    floats_are_listed(windows, s.workspace);
    if k < n {
        assert(stacked(s)[k] == floats(windows, s.workspace)[k]);
    }
    if l < n {
        assert(stacked(s)[l] == floats(windows, s.workspace)[l]);
    } else {
        assert(stacked(s)[l] == rows[l - n]);
        assert(s.columns@.take(s.columns@.len() as int) =~= s.columns@);
        lemma_rows_of(s.columns@);
        assert(rows.contains(rows[l - n]));
        assert(stands_in(s.columns@, rows[l - n]));
        let (c, r) = choose|c: int, r: int|
            0 <= c < s.columns@.len() && 0 <= r < s.columns@[c].rows@.len()
                && #[trigger] s.columns@[c].rows@[r] == rows[l - n];
        windows_stand_in_their_column(windows, workspaces, s, c, r);
        if k >= n {
            assert(stacked(s)[k] == rows[k - n]);
            lemma_rows_in_order(
                windows,
                s.workspace,
                s.columns@,
                s.columns@.len() as int,
                k - n,
                l - n,
            );
            assert(rows.contains(rows[k - n]));
        }
    }
}

/// The windows of the first `n` columns stand one before the other.
proof fn lemma_rows_in_order(
    windows: Seq<Window>,
    id: u64,
    columns: Seq<Column>,
    n: int,
    k: int,
    l: int,
)
    requires
        tiles(windows, id, columns),
        0 <= n <= columns.len(),
        0 <= k < l < rows_of(columns.take(n)).len(),
    ensures
        stands_before(windows, rows_of(columns.take(n))[k], rows_of(columns.take(n))[l]),
    decreases n,
{
    let part = columns.take(n);
    let front = columns.take(n - 1);
    assert(part.drop_last() =~= front);
    let (a, b) = (rows_of(front), columns[n - 1].rows@);
    assert(rows_of(part) == a + b);
    if l < a.len() {
        lemma_rows_in_order(windows, id, columns, n - 1, k, l);
    } else if k >= a.len() {
        assert(stands_before(
            windows,
            columns[n - 1].rows@[k - a.len()],
            columns[n - 1].rows@[l - a.len()],
        ));
    } else {
        let i = a[k];
        lemma_rows_of(front);
        assert(a.contains(i));
        assert(stands_in(front, i));
        let (c, r) = choose|c: int, r: int|
            0 <= c < front.len() && 0 <= r < front[c].rows@.len() && #[trigger] front[c].rows@[r]
                == i;
        assert(columns[c].rows@[r] == i);
        assert(columns[c].index < columns[n - 1].index);
        assert(column_of(windows[i as int]) == columns[c].index);
        let j = columns[n - 1].rows@[l - a.len()];
        assert(column_of(windows[j as int]) == columns[n - 1].index);
    }
}

/// Where a report has something else than a number, a flag or a text, that counts as missing: zero,
/// false, empty, or no column.
pub proof fn other_values_count_as_missing(
    m: Map<Seq<char>, Json>,
    outputs: Map<Seq<char>, Json>,
    w: Window,
)
    requires
        describes(Json::Object(m), w),
    ensures
        m.dom().contains("id"@) && m["id"@] !is Number ==> w.id == 0 && workspace_in(
            Json::Object(m),
            outputs,
        ).id == 0,
        m.dom().contains("workspace_id"@) && m["workspace_id"@] !is Number ==> w.workspace == 0,
        m.dom().contains("is_floating"@) && m["is_floating"@] !is Bool ==> !w.floating,
        m.dom().contains("is_focused"@) && m["is_focused"@] !is Bool ==> !w.focused,
        m.dom().contains("is_active"@) && m["is_active"@] !is Bool ==> !workspace_in(
            Json::Object(m),
            outputs,
        ).active,
        m.dom().contains("title"@) && m["title"@] !is Text ==> w.title@.len() == 0,
        !m.dom().contains("layout"@) ==> !w.placed && w.column is None && w.row == 0
            && w.offset.x.bits == 0 && w.offset.y.bits == 0 && w.size.x.bits == 0 && w.size.y.bits
            == 0 && w.tile.x.bits == 0 && w.tile.y.bits == 0,
        !m.dom().contains("output"@) && !outputs.dom().contains(""@) ==> workspace_in(
            Json::Object(m),
            outputs,
        ).area is None,
{
    reveal_strlit("");
}

} // verus!
