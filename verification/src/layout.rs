//! Where niri shows the windows of a screen, as far as that is a matter of choice: the largest of
//! some sizes, how far a screen is scrolled, and which windows are listed in which order. Sums and
//! differences of coordinates come from the caller.
use vstd::prelude::*;

use crate::coord::Coord;
use crate::coord::Rect;
use crate::coord::ZERO;
use crate::niri::is_screen;
use crate::niri::lists;
use crate::niri::shows;
use crate::niri::stack_holds_the_screen;
use crate::niri::stacked;
use crate::niri::stacking;
use crate::niri::windows_stay_on_their_screen;
use crate::niri::Column;
use crate::niri::Desktop;
use crate::niri::Screen;
use crate::niri::Window;
use crate::niri::Workspace;
use crate::overlay::WindowInfo;
use crate::text::all_digits;
use crate::text::decimal;
use crate::text::decimal_is_digits;
use crate::text::decimal_text;
use crate::text::digits_value;
use crate::text::is_digit;
use crate::text::parsed_u32;

verus! {

/// The largest of some sizes, zero where there is none above it.
pub open spec fn largest_of(sizes: Seq<Coord>) -> Coord
    decreases sizes.len(),
{
    if sizes.len() == 0 {
        Coord { bits: ZERO }
    } else {
        largest_of(sizes.drop_last()).larger(sizes.last())
    }
}

/// Picks the largest of some sizes.
pub fn largest(sizes: &Vec<Coord>) -> (r: Coord)
    ensures
        r == largest_of(sizes@),
{
    let mut most: Coord = Coord { bits: ZERO };
    let mut i: usize = 0;
    while i < sizes.len()
        invariant
            i <= sizes@.len(),
            most == largest_of(sizes@.take(i as int)),
        decreases sizes@.len() - i,
    {
        assert(sizes@.take(i + 1).drop_last() =~= sizes@.take(i as int));
        most = most.max(sizes[i]);
        i = i + 1;
    }
    assert(sizes@.take(sizes@.len() as int) =~= sizes@);
    most
}

/// The widths of the tiles of a column, from the top.
pub open spec fn tile_widths(windows: Seq<Window>, rows: Seq<usize>) -> Seq<Coord> {
    Seq::new(rows.len(), |r: int| windows[rows[r] as int].tile.x)
}

/// Tells how wide a column is: as wide as its widest tile.
pub fn column_width(windows: &Vec<Window>, column: &Column) -> (w: Coord)
    requires
        forall|r: int|
            0 <= r < column.rows@.len() ==> (#[trigger] column.rows@[r]) < windows@.len(),
    ensures
        w == largest_of(tile_widths(windows@, column.rows@)),
{
    let mut widths: Vec<Coord> = Vec::new();
    let mut r: usize = 0;
    while r < column.rows.len()
        invariant
            r <= column.rows@.len(),
            forall|r: int|
                0 <= r < column.rows@.len() ==> (#[trigger] column.rows@[r]) < windows@.len(),
            widths@ == tile_widths(windows@, column.rows@).take(r as int),
        decreases column.rows@.len() - r,
    {
        widths.push(windows[column.rows[r]].tile.x);
        assert(widths@ =~= tile_widths(windows@, column.rows@).take(r + 1));
        r = r + 1;
    }
    assert(widths@ =~= tile_widths(windows@, column.rows@));
    largest(&widths)
}

/// How far a screen of the width `view` is scrolled over its columns, which take the width `total`.
/// Where they fit they are `centred`; otherwise the focused column is in the middle, with the offset
/// `at_focus`, as far as that is between zero and `limit`.
pub open spec fn scrolled(
    total: Coord,
    view: Coord,
    centred: Coord,
    at_focus: Coord,
    limit: Coord,
) -> Coord {
    if total.up_to(view) {
        centred
    } else {
        at_focus.larger(Coord { bits: ZERO }).smaller(limit)
    }
}

/// Tells how far a screen is scrolled over its columns.
pub fn scroll_offset(
    total: Coord,
    view: Coord,
    centred: Coord,
    at_focus: Coord,
    limit: Coord,
) -> (r: Coord)
    ensures
        r == scrolled(total, view, centred, at_focus, limit),
{
    if total.at_most(view) {
        centred
    } else {
        at_focus.max(Coord { bits: ZERO }).min(limit)
    }
}

/// A size, zero where it is below that.
pub open spec fn from_zero(size: Coord) -> Coord {
    size.larger(Coord { bits: ZERO })
}

/// Tells a size that has nothing below zero.
pub fn at_least_zero(size: Coord) -> (r: Coord)
    ensures
        r == from_zero(size),
{
    size.max(Coord { bits: ZERO })
}

/// The description is that of the window at a place: its left, upper, right and lower edge.
pub open spec fn is_placed(r: WindowInfo, w: Window, place: (Coord, Coord, Coord, Coord)) -> bool {
    &&& r.title@ == w.title@
    &&& r.id@ == decimal(w.id as nat)
    &&& r.x == place.0
    &&& r.y == place.1
    &&& r.width == w.size.x
    &&& r.height == w.size.y
    &&& r.right == place.2
    &&& r.bottom == place.3
}

/// Describes a window whose corners are known. `right` and `bottom` are the sums of its corner and
/// its size.
pub fn placed_window(w: &Window, x: Coord, y: Coord, right: Coord, bottom: Coord) -> (r: WindowInfo)
    ensures
        is_placed(r, *w, (x, y, right, bottom)),
{
    WindowInfo {
        title: w.title.clone(),
        id: decimal_text(w.id),
        x,
        y,
        width: w.size.x,
        height: w.size.y,
        right,
        bottom,
    }
}

/// A part of the place is in the area. `right` and `bottom` are the sums of the area's corner and
/// its size.
pub open spec fn in_view(
    place: (Coord, Coord, Coord, Coord),
    area: Rect,
    right: Coord,
    bottom: Coord,
) -> bool {
    &&& area.x.below(place.2)
    &&& place.0.below(right)
    &&& area.y.below(place.3)
    &&& place.1.below(bottom)
}

/// A part of the window is in the area.
pub open spec fn is_visible(w: WindowInfo, area: Rect, right: Coord, bottom: Coord) -> bool {
    in_view((w.x, w.y, w.right, w.bottom), area, right, bottom)
}

/// Tests whether a part of a window is in an area.
pub fn visible(w: &WindowInfo, area: Rect, right: Coord, bottom: Coord) -> (r: bool)
    ensures
        r == is_visible(*w, area, right, bottom),
{
    area.x.less_than(w.right) && w.x.less_than(right) && area.y.less_than(w.bottom)
        && w.y.less_than(bottom)
}

// ── The list of windows ──────────────────────────────────────────

/// The window at `i` comes into the list: it has a place, and it floats or a part of it is in the
/// area, whose right and lower edges are `edge`.
pub open spec fn comes_up(
    windows: Seq<Window>,
    area: Rect,
    places: Seq<Option<(Coord, Coord, Coord, Coord)>>,
    edge: (Coord, Coord),
    i: usize,
) -> bool {
    match places[i as int] {
        Some(place) => windows[i as int].floating || in_view(place, area, edge.0, edge.1),
        None => false,
    }
}

/// Those of some windows that come into the list, in their order.
pub open spec fn picked(
    windows: Seq<Window>,
    area: Rect,
    places: Seq<Option<(Coord, Coord, Coord, Coord)>>,
    edge: (Coord, Coord),
    order: Seq<usize>,
) -> Seq<usize>
    decreases order.len(),
{
    if order.len() == 0 {
        Seq::empty()
    } else {
        let rest = picked(windows, area, places, edge, order.drop_last());
        if comes_up(windows, area, places, edge, order.last()) {
            rest.push(order.last())
        } else {
            rest
        }
    }
}

/// The windows in the list: screen by screen, and on each screen from the bottom up.
pub open spec fn picked_on(
    windows: Seq<Window>,
    screens: Seq<Screen>,
    places: Seq<Option<(Coord, Coord, Coord, Coord)>>,
    edges: Seq<(Coord, Coord)>,
) -> Seq<usize>
    decreases screens.len(),
{
    if screens.len() == 0 {
        Seq::empty()
    } else {
        let s = screens.last();
        picked_on(windows, screens.drop_last(), places, edges) + picked(
            windows,
            s.area,
            places,
            edges[screens.len() - 1],
            stacked(s),
        )
    }
}

/// The descriptions are those of these windows at their places, in this order.
pub open spec fn are_placed(
    r: Seq<WindowInfo>,
    windows: Seq<Window>,
    places: Seq<Option<(Coord, Coord, Coord, Coord)>>,
    picks: Seq<usize>,
) -> bool {
    &&& r.len() == picks.len()
    &&& forall|k: int|
        0 <= k < r.len() ==> is_placed(
            #[trigger] r[k],
            windows[picks[k] as int],
            places[picks[k] as int]->0,
        )
}

/// Every window of a screen is one of the `n` windows there are.
pub open spec fn stays_within(screens: Seq<Screen>, n: nat) -> bool {
    forall|s: int, k: int|
        0 <= s < screens.len() && 0 <= k < stacked(screens[s]).len() ==> (#[trigger] stacked(
            screens[s],
        )[k]) < n
}

/// Lists the windows of one screen.
fn list_screen(
    windows: &Vec<Window>,
    screen: &Screen,
    places: &Vec<Option<(Coord, Coord, Coord, Coord)>>,
    edge: (Coord, Coord),
) -> (r: Vec<WindowInfo>)
    requires
        places@.len() == windows@.len(),
        forall|k: int|
            0 <= k < stacked(*screen).len() ==> (#[trigger] stacked(*screen)[k]) < windows@.len(),
    ensures
        are_placed(
            r@,
            windows@,
            places@,
            picked(windows@, screen.area, places@, edge, stacked(*screen)),
        ),
{
    let order: Vec<usize> = stacking(screen);
    let mut out: Vec<WindowInfo> = Vec::new();
    let mut k: usize = 0;
    let ghost mut picks: Seq<usize> = Seq::empty();
    while k < order.len()
        invariant
            k <= order@.len(),
            places@.len() == windows@.len(),
            forall|k: int| 0 <= k < order@.len() ==> (#[trigger] order@[k]) < windows@.len(),
            picks == picked(windows@, screen.area, places@, edge, order@.take(k as int)),
            are_placed(out@, windows@, places@, picks),
        decreases order@.len() - k,
    {
        let i: usize = order[k];
        let ghost part = order@.take(k + 1);
        let ghost old_picks = picks;
        let ghost old_out = out@;
        proof {
            assert(part.drop_last() =~= order@.take(k as int));
            assert(part.last() == i);
            picks = picked(windows@, screen.area, places@, edge, part);
        }
        match places[i] {
            Some((x, y, right, bottom)) => {
                let info: WindowInfo = placed_window(&windows[i], x, y, right, bottom);
                if windows[i].floating || visible(&info, screen.area, edge.0, edge.1) {
                    out.push(info);
                    assert(picks =~= old_picks.push(i));
                    assert(out@ =~= old_out.push(info));
                }
            },
            None => {},
        }
        k = k + 1;
    }
    assert(order@.take(order@.len() as int) =~= order@);
    out
}

/// Lists the windows that can be picked, the topmost last. `places` holds the edges of each window
/// that has a place: left, upper, right, lower. `edges` holds the right and lower edges of each
/// screen. A tiled window comes into the list only if a part of it is on its screen.
pub fn listed(
    desktop: &Desktop,
    places: &Vec<Option<(Coord, Coord, Coord, Coord)>>,
    edges: &Vec<(Coord, Coord)>,
) -> (r: Vec<WindowInfo>)
    requires
        places@.len() == desktop.windows@.len(),
        edges@.len() == desktop.screens@.len(),
        stays_within(desktop.screens@, desktop.windows@.len()),
    ensures
        are_placed(
            r@,
            desktop.windows@,
            places@,
            picked_on(desktop.windows@, desktop.screens@, places@, edges@),
        ),
{
    let mut out: Vec<WindowInfo> = Vec::new();
    let mut s: usize = 0;
    while s < desktop.screens.len()
        invariant
            s <= desktop.screens@.len(),
            places@.len() == desktop.windows@.len(),
            edges@.len() == desktop.screens@.len(),
            stays_within(desktop.screens@, desktop.windows@.len()),
            are_placed(
                out@,
                desktop.windows@,
                places@,
                picked_on(desktop.windows@, desktop.screens@.take(s as int), places@, edges@),
            ),
        decreases desktop.screens@.len() - s,
    {
        assert(desktop.screens@.take(s + 1).drop_last() =~= desktop.screens@.take(s as int));
        let mut part: Vec<WindowInfo> = list_screen(
            &desktop.windows,
            &desktop.screens[s],
            places,
            edges[s],
        );
        out.append(&mut part);
        s = s + 1;
    }
    assert(desktop.screens@.take(s as int) =~= desktop.screens@);
    out
}

/// An arrangement of windows can be listed: its screens hold no window beyond those there are.
pub proof fn arrangements_stay_within(
    windows: Seq<Window>,
    workspaces: Seq<Workspace>,
    screens: Seq<Screen>,
)
    requires
        windows.len() <= usize::MAX,
        shows(windows, workspaces, screens),
    ensures
        stays_within(screens, windows.len()),
{
    assert forall|s: int, k: int|
        0 <= s < screens.len() && 0 <= k < stacked(screens[s]).len() implies (#[trigger] stacked(
        screens[s],
    )[k]) < windows.len() by {
        let i = stacked(screens[s])[k];
        assert(is_screen(windows, workspaces, screens[s]));
        stack_holds_the_screen(windows, workspaces, screens[s], i);
        assert(stacked(screens[s]).contains(i));
        windows_stay_on_their_screen(windows, workspaces, screens, i, s, s);
    }
}

proof fn lemma_picked(
    windows: Seq<Window>,
    area: Rect,
    places: Seq<Option<(Coord, Coord, Coord, Coord)>>,
    edge: (Coord, Coord),
    order: Seq<usize>,
)
    ensures
        forall|i: usize|
            #[trigger] picked(windows, area, places, edge, order).contains(i) <==> order.contains(i)
                && comes_up(windows, area, places, edge, i),
        order.no_duplicates() ==> picked(windows, area, places, edge, order).no_duplicates(),
    decreases order.len(),
{
    let all = picked(windows, area, places, edge, order);
    if order.len() > 0 {
        let front = order.drop_last();
        let last = order.last();
        let rest = picked(windows, area, places, edge, front);
        lemma_picked(windows, area, places, edge, front);
        assert forall|i: usize|
            #[trigger] all.contains(i) <==> order.contains(i) && comes_up(
                windows,
                area,
                places,
                edge,
                i,
            ) by {
            if all.contains(i) {
                let k = choose|k: int| 0 <= k < all.len() && all[k] == i;
                if k < rest.len() {
                    assert(rest[k] == i);
                    assert(rest.contains(i));
                    let j = choose|j: int| 0 <= j < front.len() && front[j] == i;
                    assert(order[j] == i);
                } else {
                    assert(order[order.len() - 1] == i);
                }
            }
            if order.contains(i) && comes_up(windows, area, places, edge, i) {
                let j = choose|j: int| 0 <= j < order.len() && order[j] == i;
                if j < front.len() {
                    assert(front[j] == i);
                    assert(rest.contains(i));
                    let k = choose|k: int| 0 <= k < rest.len() && rest[k] == i;
                    assert(all[k] == i);
                } else {
                    assert(all[all.len() - 1] == i);
                }
            }
        }
        if order.no_duplicates() {
            assert forall|k: int, l: int| 0 <= k < l < all.len() implies all[k] != all[l] by {
                assert(all[k] == rest[k]);
                assert(rest.contains(rest[k]));
                if l < rest.len() {
                    assert(all[l] == rest[l]);
                } else {
                    let j = choose|j: int| 0 <= j < front.len() && front[j] == rest[k];
                    assert(order[j] != order[order.len() - 1]);
                }
            }
        }
    }
}

/// The window at `i` is on one of the screens and comes into the list from there.
pub open spec fn comes_up_on(
    windows: Seq<Window>,
    screens: Seq<Screen>,
    places: Seq<Option<(Coord, Coord, Coord, Coord)>>,
    edges: Seq<(Coord, Coord)>,
    i: usize,
) -> bool {
    exists|s: int|
        0 <= s < screens.len() && lists(#[trigger] screens[s], i) && comes_up(
            windows,
            screens[s].area,
            places,
            edges[s],
            i,
        )
}

proof fn lemma_picked_on(
    windows: Seq<Window>,
    workspaces: Seq<Workspace>,
    screens: Seq<Screen>,
    places: Seq<Option<(Coord, Coord, Coord, Coord)>>,
    edges: Seq<(Coord, Coord)>,
    n: int,
)
    requires
        windows.len() <= usize::MAX,
        shows(windows, workspaces, screens),
        0 <= n <= screens.len(),
    ensures
        forall|i: usize|
            picked_on(windows, screens.take(n), places, edges).contains(i) <==> comes_up_on(
                windows,
                screens.take(n),
                places,
                edges,
                i,
            ),
        picked_on(windows, screens.take(n), places, edges).no_duplicates(),
    decreases n,
{
    let part = screens.take(n);
    let all = picked_on(windows, part, places, edges);
    if n > 0 {
        let front = screens.take(n - 1);
        let s = screens[n - 1];
        let edge = edges[n - 1];
        let a = picked_on(windows, front, places, edges);
        let b = picked(windows, s.area, places, edge, stacked(s));
        assert(part.drop_last() =~= front);
        assert(part.last() == s);
        lemma_picked_on(windows, workspaces, screens, places, edges, n - 1);
        lemma_picked(windows, s.area, places, edge, stacked(s));
        assert(is_screen(windows, workspaces, s));
        assert forall|i: usize| stacked(s).contains(i) <==> lists(s, i) by {
            stack_holds_the_screen(windows, workspaces, s, i);
        }
        stack_holds_the_screen(windows, workspaces, s, 0);
        assert forall|i: usize|
            all.contains(i) <==> comes_up_on(windows, part, places, edges, i) by {
            if all.contains(i) {
                let k = choose|k: int| 0 <= k < all.len() && all[k] == i;
                if k < a.len() {
                    assert(a[k] == i);
                    assert(a.contains(i));
                    assert(comes_up_on(windows, front, places, edges, i));
                    let t = choose|t: int|
                        0 <= t < front.len() && lists(#[trigger] front[t], i) && comes_up(
                            windows,
                            front[t].area,
                            places,
                            edges[t],
                            i,
                        );
                    assert(part[t] == front[t]);
                } else {
                    assert(b[k - a.len()] == i);
                    assert(b.contains(i));
                    assert(lists(part[n - 1], i));
                }
            }
            if comes_up_on(windows, part, places, edges, i) {
                let t = choose|t: int|
                    0 <= t < part.len() && lists(#[trigger] part[t], i) && comes_up(
                        windows,
                        part[t].area,
                        places,
                        edges[t],
                        i,
                    );
                if t < n - 1 {
                    assert(front[t] == part[t]);
                    assert(comes_up_on(windows, front, places, edges, i));
                    assert(a.contains(i));
                    let k = choose|k: int| 0 <= k < a.len() && a[k] == i;
                    assert(all[k] == i);
                } else {
                    assert(b.contains(i));
                    let k = choose|k: int| 0 <= k < b.len() && b[k] == i;
                    assert(all[a.len() + k] == i);
                }
            }
        }
        assert forall|k: int, l: int| 0 <= k < l < all.len() implies all[k] != all[l] by {
            if l < a.len() {
                assert(a[k] != a[l]);
            } else if k >= a.len() {
                assert(b[k - a.len()] != b[l - a.len()]);
            } else if all[k] == all[l] {
                let i = a[k];
                assert(a.contains(i));
                assert(b[l - a.len()] == i);
                assert(b.contains(i));
                assert(comes_up_on(windows, front, places, edges, i));
                let t = choose|t: int|
                    0 <= t < front.len() && lists(#[trigger] front[t], i) && comes_up(
                        windows,
                        front[t].area,
                        places,
                        edges[t],
                        i,
                    );
                assert(lists(screens[t], i));
                windows_stay_on_their_screen(windows, workspaces, screens, i, t, n - 1);
            }
        }
    }
}

/// The list holds each window that comes up on a screen, once, and no other.
pub proof fn windows_are_listed_once(
    windows: Seq<Window>,
    workspaces: Seq<Workspace>,
    screens: Seq<Screen>,
    places: Seq<Option<(Coord, Coord, Coord, Coord)>>,
    edges: Seq<(Coord, Coord)>,
    i: usize,
)
    requires
        windows.len() <= usize::MAX,
        shows(windows, workspaces, screens),
    ensures
        picked_on(windows, screens, places, edges).contains(i) <==> comes_up_on(
            windows,
            screens,
            places,
            edges,
            i,
        ),
        picked_on(windows, screens, places, edges).no_duplicates(),
{
    assert(screens.take(screens.len() as int) =~= screens);
    lemma_picked_on(windows, workspaces, screens, places, edges, screens.len() as int);
}

// ── What holds of sizes and scrolling ────────────────────────────

/// The largest of some sizes is no smaller than any of them, and one of them or zero.
pub proof fn largest_is_largest(sizes: Seq<Coord>)
    requires
        forall|i: int| 0 <= i < sizes.len() ==> !(#[trigger] sizes[i]).is_nan(),
    ensures
        !largest_of(sizes).is_nan(),
        forall|i: int| 0 <= i < sizes.len() ==> (#[trigger] sizes[i]).up_to(largest_of(sizes)),
        (Coord { bits: ZERO }).up_to(largest_of(sizes)),
        largest_of(sizes) == (Coord { bits: ZERO }) || sizes.contains(largest_of(sizes)),
    decreases sizes.len(),
{
    if sizes.len() > 0 {
        let front = sizes.drop_last();
        assert forall|i: int| 0 <= i < front.len() implies !(#[trigger] front[i]).is_nan() by {
            assert(!sizes[i].is_nan());
        }
        largest_is_largest(front);
        let most = largest_of(sizes);
        assert(!sizes.last().is_nan());
        assert forall|i: int| 0 <= i < sizes.len() implies (#[trigger] sizes[i]).up_to(most) by {
            if i < front.len() {
                assert(front[i].up_to(largest_of(front)));
            }
        }
        if most == sizes.last() {
            assert(sizes[sizes.len() - 1] == most);
        } else if largest_of(front) != (Coord { bits: ZERO }) {
            let i = choose|i: int| 0 <= i < front.len() && front[i] == largest_of(front);
            assert(sizes[i] == most);
        }
    }
}

/// A screen whose columns do not fit is never scrolled beyond the first column or the last: its
/// offset is between zero and the limit, and that of the focused column where that is between them.
pub proof fn scrolling_stays_in_range(
    total: Coord,
    view: Coord,
    centred: Coord,
    at_focus: Coord,
    limit: Coord,
)
    requires
        view.below(total),
        !at_focus.is_nan(),
        (Coord { bits: ZERO }).up_to(limit),
    ensures
        (Coord { bits: ZERO }).up_to(scrolled(total, view, centred, at_focus, limit)),
        scrolled(total, view, centred, at_focus, limit).up_to(limit),
        (Coord { bits: ZERO }).up_to(at_focus) && at_focus.up_to(limit) ==> scrolled(
            total,
            view,
            centred,
            at_focus,
            limit,
        ).rank() == at_focus.rank(),
{
}

/// A column is as wide as the widest of its tiles: no tile of it is wider, and one of them has its
/// width unless that is zero.
pub proof fn columns_are_as_wide_as_their_tiles(windows: Seq<Window>, rows: Seq<usize>, r: int)
    requires
        forall|q: int| 0 <= q < rows.len() ==> !windows[#[trigger] rows[q] as int].tile.x.is_nan(),
        0 <= r < rows.len(),
    ensures
        ({
            let width = largest_of(tile_widths(windows, rows));
            &&& windows[rows[r] as int].tile.x.up_to(width)
            &&& width.bits == 0 || exists|q: int|
                0 <= q < rows.len() && windows[#[trigger] rows[q] as int].tile.x == width
        }),
{
    let widths = tile_widths(windows, rows);
    assert forall|q: int| 0 <= q < widths.len() implies !(#[trigger] widths[q]).is_nan() by {
        assert(!windows[rows[q] as int].tile.x.is_nan());
    }
    largest_is_largest(widths);
    assert(widths[r] == windows[rows[r] as int].tile.x);
    let width = largest_of(widths);
    if width.bits != 0 {
        let q = choose|q: int| 0 <= q < widths.len() && widths[q] == width;
        assert(windows[rows[q] as int].tile.x == width);
    }
}

/// Columns that fit are centred, wherever the focus is.
pub proof fn columns_that_fit_are_centred(
    total: Coord,
    view: Coord,
    centred: Coord,
    at_focus: Coord,
    limit: Coord,
)
    requires
        total.up_to(view),
    ensures
        scrolled(total, view, centred, at_focus, limit) == centred,
{
}

/// A window is listed with its own title, number and size, at its place.
pub proof fn descriptions_in_detail(
    r: WindowInfo,
    w: Window,
    left: Coord,
    top: Coord,
    right: Coord,
    bottom: Coord,
)
    requires
        is_placed(r, w, (left, top, right, bottom)),
    ensures
        r.title@ == w.title@,
        parsed_u32(r.id@) == (if w.id <= u32::MAX {
            Some(w.id as u32)
        } else {
            None
        }),
        all_digits(r.id@) && digits_value(r.id@) == w.id,
        r.x == left && r.y == top && r.right == right && r.bottom == bottom,
        r.width == w.size.x && r.height == w.size.y,
{
    decimal_is_digits(w.id as nat);
    assert(is_digit(r.id@[0]));
}

/// A window comes into the list from a screen if and only if it is on the screen, has a place, and
/// either floats or overlaps the screen's area in both directions: its right edge is right of the
/// area's left edge, its left edge left of the area's right edge, its lower edge below the area's
/// upper edge and its upper edge above the area's lower edge.
pub proof fn listed_windows_overlap_their_screen(
    windows: Seq<Window>,
    workspaces: Seq<Workspace>,
    screens: Seq<Screen>,
    places: Seq<Option<(Coord, Coord, Coord, Coord)>>,
    edges: Seq<(Coord, Coord)>,
    i: usize,
    s: int,
)
    requires
        windows.len() <= usize::MAX,
        shows(windows, workspaces, screens),
        0 <= s < screens.len(),
        lists(screens[s], i),
    ensures
        picked_on(windows, screens, places, edges).contains(i) <==> (
        places[i as int] matches Some(p) && (windows[i as int].floating || (
        screens[s].area.x.below(p.2) && p.0.below(edges[s].0) && screens[s].area.y.below(p.3)
            && p.1.below(edges[s].1)))),
{
    windows_are_listed_once(windows, workspaces, screens, places, edges, i);
    if comes_up_on(windows, screens, places, edges, i) {
        let t = choose|t: int|
            0 <= t < screens.len() && lists(#[trigger] screens[t], i) && comes_up(
                windows,
                screens[t].area,
                places,
                edges[t],
                i,
            );
        windows_stay_on_their_screen(windows, workspaces, screens, i, s, t);
    }
}

proof fn lemma_picked_in_order(
    windows: Seq<Window>,
    area: Rect,
    places: Seq<Option<(Coord, Coord, Coord, Coord)>>,
    edge: (Coord, Coord),
    order: Seq<usize>,
    k: int,
    l: int,
)
    requires
        0 <= k < l < picked(windows, area, places, edge, order).len(),
    ensures
        exists|a: int, b: int|
            0 <= a < b < order.len() && #[trigger] order[a] == picked(
                windows,
                area,
                places,
                edge,
                order,
            )[k] && #[trigger] order[b] == picked(windows, area, places, edge, order)[l],
    decreases order.len(),
{
    let front = order.drop_last();
    let all = picked(windows, area, places, edge, order);
    let rest = picked(windows, area, places, edge, front);
    if l < rest.len() {
        lemma_picked_in_order(windows, area, places, edge, front, k, l);
        let (a, b) = choose|a: int, b: int|
            0 <= a < b < front.len() && #[trigger] front[a] == rest[k] && #[trigger] front[b]
                == rest[l];
        assert(order[a] == all[k] && order[b] == all[l]);
    } else {
        lemma_picked(windows, area, places, edge, front);
        assert(rest.contains(rest[k]));
        let a = choose|a: int| 0 <= a < front.len() && front[a] == rest[k];
        assert(order[a] == all[k] && order[order.len() - 1] == all[l]);
    }
}

/// The list goes screen by screen: of the first `n` screens, the windows of the last come behind
/// those of the others. On a screen a window that comes later in the list stands later on the stack.
pub proof fn lists_follow_the_stacks(
    windows: Seq<Window>,
    screens: Seq<Screen>,
    places: Seq<Option<(Coord, Coord, Coord, Coord)>>,
    edges: Seq<(Coord, Coord)>,
    k: int,
    l: int,
)
    requires
        screens.len() > 0,
        0 <= k < l < picked_on(windows, screens, places, edges).len(),
    ensures
        ({
            let all = picked_on(windows, screens, places, edges);
            let others = picked_on(windows, screens.drop_last(), places, edges);
            let stack = stacked(screens.last());
            &&& others.len() <= all.len()
            &&& k < others.len() ==> all[k] == others[k]
            &&& l < others.len() ==> all[l] == others[l]
            &&& k >= others.len() ==> exists|a: int, b: int|
                0 <= a < b < stack.len() && #[trigger] stack[a] == all[k] && #[trigger] stack[b]
                    == all[l]
            &&& l >= others.len() ==> stack.contains(all[l])
        }),
{
    let others = picked_on(windows, screens.drop_last(), places, edges);
    let s = screens.last();
    let edge = edges[screens.len() - 1];
    let own = picked(windows, s.area, places, edge, stacked(s));
    let all = picked_on(windows, screens, places, edges);
    if k >= others.len() {
        lemma_picked_in_order(
            windows,
            s.area,
            places,
            edge,
            stacked(s),
            k - others.len(),
            l - others.len(),
        );
        let (a, b) = choose|a: int, b: int|
            0 <= a < b < stacked(s).len() && #[trigger] stacked(s)[a] == own[k - others.len()]
                && #[trigger] stacked(s)[b] == own[l - others.len()];
        assert(stacked(s)[a] == all[k] && stacked(s)[b] == all[l]);
    }
    if l >= others.len() {
        lemma_picked(windows, s.area, places, edge, stacked(s));
        assert(own.contains(own[l - others.len()]));
    }
}

/// A list of descriptions has one for each window, in the same order, and each tells its window's
/// title, number, size and place.
pub proof fn lists_describe_their_windows(
    r: Seq<WindowInfo>,
    windows: Seq<Window>,
    places: Seq<Option<(Coord, Coord, Coord, Coord)>>,
    picks: Seq<usize>,
    k: int,
)
    requires
        are_placed(r, windows, places, picks),
        0 <= k < picks.len(),
    ensures
        r.len() == picks.len(),
        ({
            let w = windows[picks[k] as int];
            let p = places[picks[k] as int]->0;
            &&& r[k].title@ == w.title@
            &&& all_digits(r[k].id@) && digits_value(r[k].id@) == w.id
            &&& r[k].x == p.0 && r[k].y == p.1 && r[k].right == p.2 && r[k].bottom == p.3
            &&& r[k].width == w.size.x && r[k].height == w.size.y
        }),
{
    decimal_is_digits(windows[picks[k] as int].id as nat);
}

/// A size above zero stays, and one below zero becomes zero.
pub proof fn sizes_go_from_zero(size: Coord)
    ensures
        0 < size.bits <= 0x7ff0_0000_0000_0000 ==> from_zero(size) == size,
        0x8000_0000_0000_0000 < size.bits <= 0xfff0_0000_0000_0000 ==> from_zero(size).bits == 0,
        size.bits == 0 ==> from_zero(size).bits == 0,
{
}

} // verus!
