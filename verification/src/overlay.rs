//! A session of the screenshot overlay: what the pointer and the keyboard do to it, what it
//! highlights, which of its surfaces are due to be drawn, and what is selected in the end.
use vstd::prelude::*;

use crate::config::AppearanceConfig;
use crate::coord::Coord;
use crate::coord::Point;
use crate::coord::ONE;
use crate::coord::SIGN_BIT;
use crate::coord::ZERO;
use crate::raster::dim_byte;
use crate::raster::normal_byte;
use crate::raster::outputs_show_their_part;
use crate::raster::pixels_of_an_overlay;
use crate::raster::precompute_overlay;
use crate::raster::render;
use crate::raster::rendered_byte;
use crate::raster::source_of;

verus! {

/// The bit pattern of five: how far the pointer moves before a press becomes a drag.
pub const DRAG_THRESHOLD: u64 = 0x4014_0000_0000_0000;

/// The left button of the pointer.
pub const LEFT_BUTTON: u32 = 272;

/// The right button of the pointer.
pub const RIGHT_BUTTON: u32 = 273;

/// The symbol of the escape key.
pub const ESCAPE_SYMBOL: u32 = 0xff1b;

/// The code of the escape key.
pub const ESCAPE_CODE: u32 = 1;

// ── Public types ─────────────────────────────────────────────────

/// A window on the desktop.
#[derive(Debug, Clone)]
pub struct WindowInfo {
    pub title: String,
    pub id: String,
    pub x: Coord,
    pub y: Coord,
    pub width: Coord,
    pub height: Coord,
    /// The sum of `x` and `width`.
    pub right: Coord,
    /// The sum of `y` and `height`.
    pub bottom: Coord,
}

/// What the user selected.
#[derive(Debug, Clone)]
pub enum Selection {
    Window { title: String, id: String },
    Region { x: Coord, y: Coord, w: Coord, h: Coord },
}

/// Result of a screenshot overlay session.
#[derive(Debug, Clone)]
pub struct CaptureResult {
    /// Raw BGRA pixel data of the full workspace at physical resolution.
    pub ss_data: Vec<u8>,
    pub ss_width: u32,
    pub ss_stride: u32,
    /// What the user selected.
    pub selection: Selection,
    /// Scale factor (physical / logical).
    pub scale: Coord,
}

/// What the pointer did.
#[derive(Debug, Clone, Copy, PartialEq, Eq, Structural)]
pub enum PointerEvent {
    /// It came onto a surface or moved there. `mouse` is where it is on the desktop, `dx` and `dy`
    /// how far that is from where the button was last pressed.
    Moved { mouse: Point, dx: Coord, dy: Coord },
    /// A button went down.
    Pressed { button: u32 },
    /// A button went up. `dx` and `dy` are how far the end of the drag is from its start.
    Released { button: u32, dx: Coord, dy: Coord },
    /// Something else.
    Other,
}

/// The state of the pointer in a session.
#[derive(Debug, Clone, Copy, PartialEq, Eq, Structural)]
pub struct Pointer {
    /// Where it is on the desktop.
    pub mouse: Point,
    pub pressed: bool,
    pub dragging: bool,
    /// Where the button was pressed.
    pub press: Point,
    pub drag_start: Point,
    pub drag_end: Point,
    /// The window under it, by its place in the list of windows.
    pub hovered: Option<usize>,
    /// Whether the session is over.
    pub exit: bool,
}

/// What the overlay leaves undimmed.
#[derive(Debug, Clone, Copy, PartialEq, Eq, Structural)]
pub struct Highlight {
    pub x: Coord,
    pub y: Coord,
    pub w: Coord,
    pub h: Coord,
    /// Whether it is the region of a drag, rather than a window.
    pub is_region: bool,
}

/// The sizes and the place of an output.
#[derive(Debug, Clone, Copy, PartialEq, Eq, Structural)]
pub struct OutputGeometry {
    pub phys_w: u32,
    pub phys_h: u32,
    pub logical_w: u32,
    pub logical_h: u32,
    pub logical_x: i32,
    pub logical_y: i32,
}

/// A surface of the overlay: one for each output.
#[derive(Debug, Clone)]
pub struct OutputSurface {
    pub geometry: OutputGeometry,
    /// Physical pixels for each logical one.
    pub scale: Coord,
    /// Its part of the screenshot.
    pub normal: Vec<u8>,
    /// Its part of the screenshot, dimmed.
    pub dimmed: Vec<u8>,
    /// Whether the compositor has given it a size.
    pub configured: bool,
    /// Whether what it shows is out of date.
    pub needs_redraw: bool,
    /// Whether it was drawn and the compositor has not yet asked for the next frame.
    pub frame_pending: bool,
}

/// A session of the overlay.
pub struct Session {
    pub appearance: AppearanceConfig,
    pub ss_data: Vec<u8>,
    pub ss_width: u32,
    pub ss_stride: u32,
    pub windows: Vec<WindowInfo>,
    pub surfaces: Vec<OutputSurface>,
    pub pointer: Pointer,
    /// The scale of the first output that has one; zero before.
    pub global_scale: Coord,
    pub selection: Option<Selection>,
}

// ── Windows under the pointer ────────────────────────────────────

impl WindowInfo {
    /// Whether a point lies on the window.
    pub open spec fn holds(self, p: Point) -> bool {
        &&& self.x.up_to(p.x)
        &&& p.x.below(self.right)
        &&& self.y.up_to(p.y)
        &&& p.y.below(self.bottom)
    }

    fn contains(&self, p: Point) -> (r: bool)
        ensures
            r == self.holds(p),
    {
        self.x.at_most(p.x) && p.x.less_than(self.right) && self.y.at_most(p.y) && p.y.less_than(
            self.bottom,
        )
    }
}

/// The last window in the list that holds a point.
pub open spec fn topmost(windows: Seq<WindowInfo>, p: Point) -> Option<usize>
    decreases windows.len(),
{
    if windows.len() == 0 {
        None
    } else if windows.last().holds(p) {
        Some((windows.len() - 1) as usize)
    } else {
        topmost(windows.drop_last(), p)
    }
}

/// The topmost window holds the point and no later one does; where there is none, no window holds
/// the point.
pub proof fn topmost_is_on_top(windows: Seq<WindowInfo>, p: Point)
    requires
        windows.len() <= usize::MAX,
    ensures
        match topmost(windows, p) {
            Some(i) => {
                &&& i < windows.len()
                &&& windows[i as int].holds(p)
                &&& forall|j: int| i < j < windows.len() ==> !(#[trigger] windows[j]).holds(p)
            },
            None => forall|j: int| 0 <= j < windows.len() ==> !(#[trigger] windows[j]).holds(p),
        },
    decreases windows.len(),
{
    if windows.len() > 0 && !windows.last().holds(p) {
        let rest = windows.drop_last();
        topmost_is_on_top(rest, p);
        assert forall|j: int| 0 <= j < rest.len() implies windows[j] == #[trigger] rest[j] by {}
        match topmost(rest, p) {
            Some(i) => {
                assert forall|j: int| i < j < windows.len() implies !(#[trigger] windows[j]).holds(
                    p,
                ) by {
                    if j < rest.len() {
                        assert(!rest[j].holds(p));
                    }
                }
            },
            None => {
                assert forall|j: int| 0 <= j < windows.len() implies !(#[trigger] windows[j]).holds(
                    p,
                ) by {
                    if j < rest.len() {
                        assert(!rest[j].holds(p));
                    }
                }
            },
        }
    }
}

// ── Pointer and keyboard ─────────────────────────────────────────

/// The pointer is far enough from where the button was pressed for a drag.
pub open spec fn is_far(dx: Coord, dy: Coord) -> bool {
    let threshold = Coord { bits: DRAG_THRESHOLD };
    threshold.below(dx.unsigned()) || threshold.below(dy.unsigned())
}

/// Corners this far apart span a region: both sides are longer than one.
pub open spec fn is_region(dx: Coord, dy: Coord) -> bool {
    let one = Coord { bits: ONE };
    one.below(dx.unsigned()) && one.below(dy.unsigned())
}

/// Corners this far apart span next to nothing: one side is shorter than one.
pub open spec fn is_sliver(dx: Coord, dy: Coord) -> bool {
    let one = Coord { bits: ONE };
    dx.unsigned().below(one) || dy.unsigned().below(one)
}

impl Pointer {
    /// The pointer at the start of a session.
    pub open spec fn start() -> Pointer {
        let origin = Point { x: Coord { bits: ZERO }, y: Coord { bits: ZERO } };
        Pointer {
            mouse: origin,
            pressed: false,
            dragging: false,
            press: origin,
            drag_start: origin,
            drag_end: origin,
            hovered: None,
            exit: false,
        }
    }

    /// The upper left corner of the drag.
    pub open spec fn corner(self) -> Point {
        Point {
            x: self.drag_start.x.smaller(self.drag_end.x),
            y: self.drag_start.y.smaller(self.drag_end.y),
        }
    }

    /// The pointer after a move: with the button down it drags once it is far enough, otherwise the
    /// window under it is hovered.
    pub open spec fn moved(self, windows: Seq<WindowInfo>, mouse: Point, dx: Coord, dy: Coord) -> Pointer {
        if !self.pressed {
            Pointer { mouse, hovered: topmost(windows, mouse), ..self }
        } else if self.dragging || is_far(dx, dy) {
            Pointer { mouse, dragging: true, drag_end: mouse, ..self }
        } else {
            Pointer { mouse, ..self }
        }
    }

    /// The pointer after a press of the left button: a drag would start here.
    pub open spec fn pressed_here(self) -> Pointer {
        Pointer {
            pressed: true,
            press: self.mouse,
            drag_start: self.mouse,
            drag_end: self.mouse,
            ..self
        }
    }

    /// The pointer after an event.
    pub open spec fn after(self, windows: Seq<WindowInfo>, event: PointerEvent) -> Pointer {
        match event {
            PointerEvent::Moved { mouse, dx, dy } => self.moved(windows, mouse, dx, dy),
            PointerEvent::Pressed { button } => if button == LEFT_BUTTON {
                self.pressed_here()
            } else if button == RIGHT_BUTTON {
                Pointer { exit: true, ..self }
            } else {
                self
            },
            PointerEvent::Released { button, .. } => if button == LEFT_BUTTON {
                Pointer { exit: true, ..self }
            } else {
                self
            },
            PointerEvent::Other => self,
        }
    }

    /// Whether an event changes what is highlighted: a drag that goes on, or another window under
    /// the pointer.
    pub open spec fn redraws(self, windows: Seq<WindowInfo>, event: PointerEvent) -> bool {
        let next = self.after(windows, event);
        event is Moved && (if self.pressed {
            next.dragging
        } else {
            next.hovered != self.hovered
        })
    }

    /// What a release of the left button selects: the region of a drag, otherwise the window under
    /// the pointer.
    pub open spec fn selects(self, windows: Seq<WindowInfo>, dx: Coord, dy: Coord) -> Option<
        Selection,
    > {
        if self.dragging {
            if is_region(dx, dy) {
                Some(
                    Selection::Region {
                        x: self.corner().x,
                        y: self.corner().y,
                        w: dx.unsigned(),
                        h: dy.unsigned(),
                    },
                )
            } else {
                None
            }
        } else {
            match topmost(windows, self.mouse) {
                Some(i) => Some(
                    Selection::Window {
                        title: windows[i as int].title,
                        id: windows[i as int].id,
                    },
                ),
                None => None,
            }
        }
    }
}

/// The selection after an event: what a release of the left button selects, if it selects anything.
pub open spec fn selection_after(
    before: Option<Selection>,
    pointer: Pointer,
    windows: Seq<WindowInfo>,
    event: PointerEvent,
) -> Option<Selection> {
    match event {
        PointerEvent::Released { button, dx, dy } => if button == LEFT_BUTTON && pointer.selects(
            windows,
            dx,
            dy,
        ) is Some {
            pointer.selects(windows, dx, dy)
        } else {
            before
        },
        _ => before,
    }
}

// ── Surfaces ─────────────────────────────────────────────────────

impl OutputSurface {
    /// Its images have a pixel for each of its own.
    pub open spec fn wf(self) -> bool {
        &&& self.normal@.len() == self.geometry.phys_w * self.geometry.phys_h * 4
        &&& self.dimmed@.len() == self.geometry.phys_w * self.geometry.phys_h * 4
    }

    /// A surface as it is made for an output: the part of the screenshot that the output shows, once
    /// as it is and once dimmed, and nothing drawn yet.
    pub open spec fn is_new(
        self,
        shot: Seq<u8>,
        stride: int,
        shot_width: int,
        geometry: OutputGeometry,
        scale: Coord,
        offset_x: int,
        offset_y: int,
        dim: Seq<u8>,
    ) -> bool {
        let source = |k: int|
            source_of(
                shot.len(),
                stride,
                shot_width,
                offset_x,
                offset_y,
                geometry.phys_w as int,
                k,
            );
        &&& self.wf()
        &&& self.geometry == geometry
        &&& self.scale == scale
        &&& !self.configured
        &&& !self.needs_redraw
        &&& !self.frame_pending
        &&& forall|k: int|
            0 <= k < self.normal@.len() ==> #[trigger] self.normal@[k] == normal_byte(
                shot,
                source(k),
                k,
            )
        &&& forall|k: int|
            0 <= k < self.dimmed@.len() ==> #[trigger] self.dimmed@[k] == dim_byte(
                shot,
                dim,
                source(k),
                k,
            )
    }

    /// The surface with its contents out of date.
    pub open spec fn marked(self) -> OutputSurface {
        OutputSurface { needs_redraw: true, ..self }
    }

    /// The surface once it was drawn.
    pub open spec fn drawn(self) -> OutputSurface {
        OutputSurface { needs_redraw: false, frame_pending: true, ..self }
    }

    /// Whether it has a size and shows what is out of date.
    pub open spec fn wants_drawing(self) -> bool {
        self.needs_redraw && self.configured
    }

    /// The surface once the compositor asks for the next frame.
    pub open spec fn framed(self) -> OutputSurface {
        OutputSurface { frame_pending: false, ..self }
    }

    /// The surface once the compositor has configured it: with a new size, unless a side of that is
    /// zero.
    pub open spec fn sized(self, w: u32, h: u32) -> OutputSurface {
        let geometry = if w > 0 && h > 0 {
            OutputGeometry { logical_w: w, logical_h: h, ..self.geometry }
        } else {
            self.geometry
        };
        OutputSurface { geometry, configured: true, ..self }
    }
}

/// The scale of a session once an output has this one: that of the session stays, unless it is zero.
pub open spec fn adopted_scale(before: Coord, scale: Coord) -> Coord {
    if before.magnitude() == 0 {
        scale
    } else {
        before
    }
}

/// The surfaces to draw now: those that are configured and wait for no frame, by their places.
pub open spec fn to_draw(surfaces: Seq<OutputSurface>) -> Seq<usize>
    decreases surfaces.len(),
{
    if surfaces.len() == 0 {
        Seq::empty()
    } else {
        let rest = to_draw(surfaces.drop_last());
        if surfaces.last().configured && !surfaces.last().frame_pending {
            rest.push((surfaces.len() - 1) as usize)
        } else {
            rest
        }
    }
}

impl Session {
    /// The hovered window is one of the windows, and every surface is well formed.
    pub open spec fn wf(self) -> bool {
        &&& self.pointer.hovered matches Some(i) ==> i < self.windows@.len()
        &&& forall|i: int| 0 <= i < self.surfaces@.len() ==> (#[trigger] self.surfaces@[i]).wf()
    }

    /// Nothing but the pointer and the selection differs from another session.
    pub open spec fn same_scene(self, other: Session) -> bool {
        &&& self.appearance == other.appearance
        &&& self.ss_data == other.ss_data
        &&& self.ss_width == other.ss_width
        &&& self.ss_stride == other.ss_stride
        &&& self.windows == other.windows
        &&& self.surfaces == other.surfaces
        &&& self.global_scale == other.global_scale
    }

    /// Nothing but the surfaces differs from another session.
    pub open spec fn same_but_surfaces(self, other: Session) -> bool {
        &&& self.appearance == other.appearance
        &&& self.ss_data == other.ss_data
        &&& self.ss_width == other.ss_width
        &&& self.ss_stride == other.ss_stride
        &&& self.windows == other.windows
        &&& self.pointer == other.pointer
        &&& self.global_scale == other.global_scale
        &&& self.selection == other.selection
    }

    /// Starts a session on a screenshot.
    pub fn new(
        appearance: AppearanceConfig,
        ss_data: Vec<u8>,
        ss_width: u32,
        ss_stride: u32,
        windows: Vec<WindowInfo>,
    ) -> (r: Session)
        ensures
            r.wf(),
            r.appearance == appearance,
            r.ss_data == ss_data,
            r.ss_width == ss_width,
            r.ss_stride == ss_stride,
            r.windows == windows,
            r.surfaces@.len() == 0,
            r.pointer == Pointer::start(),
            r.global_scale == (Coord { bits: ZERO }),
            r.selection is None,
    {
        let origin: Point = Point { x: Coord { bits: ZERO }, y: Coord { bits: ZERO } };
        Session {
            appearance,
            ss_data,
            ss_width,
            ss_stride,
            windows,
            surfaces: Vec::new(),
            pointer: Pointer {
                mouse: origin,
                pressed: false,
                dragging: false,
                press: origin,
                drag_start: origin,
                drag_end: origin,
                hovered: None,
                exit: false,
            },
            global_scale: Coord { bits: ZERO },
            selection: None,
        }
    }

    /// Finds the topmost window under a point.
    pub fn window_at(&self, p: Point) -> (r: Option<usize>)
        ensures
            r == topmost(self.windows@, p),
            r matches Some(i) ==> i < self.windows@.len() && self.windows@[i as int].holds(p),
    {
        let mut i: usize = self.windows.len();
        assert(self.windows@.take(i as int) =~= self.windows@);
        while i > 0
            invariant
                i <= self.windows@.len(),
                topmost(self.windows@.take(i as int), p) == topmost(self.windows@, p),
            decreases i,
        {
            let ghost part = self.windows@.take(i as int);
            i = i - 1;
            assert(part.drop_last() =~= self.windows@.take(i as int));
            assert(part.last() == self.windows@[i as int]);
            if self.windows[i].contains(p) {
                return Some(i);
            }
        }
        None
    }

    /// Takes in what the pointer did. Tells whether the surfaces are to be drawn anew.
    pub fn pointer_event(&mut self, event: PointerEvent) -> (redraw: bool)
        requires
            old(self).wf(),
        ensures
            final(self).wf(),
            final(self).same_scene(*old(self)),
            final(self).pointer == old(self).pointer.after(old(self).windows@, event),
            final(self).selection == selection_after(
                old(self).selection,
                old(self).pointer,
                old(self).windows@,
                event,
            ),
            redraw == old(self).pointer.redraws(old(self).windows@, event),
    {
        match event {
            PointerEvent::Moved { mouse, dx, dy } => {
                self.pointer.mouse = mouse;
                if self.pointer.pressed {
                    if !self.pointer.dragging {
                        let threshold: Coord = Coord { bits: DRAG_THRESHOLD };
                        if threshold.less_than(dx.abs()) || threshold.less_than(dy.abs()) {
                            self.pointer.dragging = true;
                        }
                    }
                    if self.pointer.dragging {
                        self.pointer.drag_end = mouse;
                    }
                    self.pointer.dragging
                } else {
                    let before: Option<usize> = self.pointer.hovered;
                    let now: Option<usize> = self.window_at(mouse);
                    self.pointer.hovered = now;
                    match (before, now) {
                        (Some(a), Some(b)) => a != b,
                        (None, None) => false,
                        _ => true,
                    }
                }
            },
            PointerEvent::Pressed { button } => {
                if button == LEFT_BUTTON {
                    let mouse: Point = self.pointer.mouse;
                    self.pointer.pressed = true;
                    self.pointer.press = mouse;
                    self.pointer.drag_start = mouse;
                    self.pointer.drag_end = mouse;
                } else if button == RIGHT_BUTTON {
                    self.pointer.exit = true;
                }
                false
            },
            PointerEvent::Released { button, dx, dy } => {
                if button == LEFT_BUTTON {
                    self.handle_selection(dx, dy);
                }
                false
            },
            PointerEvent::Other => false,
        }
    }

    /// Ends the session with the selection that a release of the left button makes. `dx` and `dy`
    /// are how far the end of the drag is from its start.
    pub fn handle_selection(&mut self, dx: Coord, dy: Coord)
        requires
            old(self).wf(),
        ensures
            final(self).wf(),
            final(self).same_scene(*old(self)),
            final(self).pointer == (Pointer { exit: true, ..old(self).pointer }),
            final(self).selection == (match old(self).pointer.selects(
                old(self).windows@,
                dx,
                dy,
            ) {
                Some(s) => Some(s),
                None => old(self).selection,
            }),
    {
        let one: Coord = Coord { bits: ONE };
        let w: Coord = dx.abs();
        let h: Coord = dy.abs();
        if self.pointer.dragging {
            if one.less_than(w) && one.less_than(h) {
                let x: Coord = self.pointer.drag_start.x.min(self.pointer.drag_end.x);
                let y: Coord = self.pointer.drag_start.y.min(self.pointer.drag_end.y);
                self.selection = Some(Selection::Region { x, y, w, h });
            }
        } else {
            match self.window_at(self.pointer.mouse) {
                Some(i) => {
                    let title: String = self.windows[i].title.clone();
                    let id: String = self.windows[i].id.clone();
                    self.selection = Some(Selection::Window { title, id });
                },
                None => {},
            }
        }
        self.pointer.exit = true;
    }

    /// Takes in a key: escape ends the session.
    pub fn press_key(&mut self, symbol: u32, code: u32)
        ensures
            old(self).wf() ==> final(self).wf(),
            final(self).same_scene(*old(self)),
            final(self).selection == old(self).selection,
            final(self).pointer == (if symbol == ESCAPE_SYMBOL || code == ESCAPE_CODE {
                Pointer { exit: true, ..old(self).pointer }
            } else {
                old(self).pointer
            }),
    {
        if symbol == ESCAPE_SYMBOL || code == ESCAPE_CODE {
            self.pointer.exit = true;
        }
    }

    /// The compositor closed a surface: the session ends.
    pub fn closed(&mut self)
        ensures
            old(self).wf() ==> final(self).wf(),
            final(self).same_scene(*old(self)),
            final(self).selection == old(self).selection,
            final(self).pointer == (Pointer { exit: true, ..old(self).pointer }),
    {
        self.pointer.exit = true;
    }
}

// ── What is highlighted ──────────────────────────────────────────

impl Session {
    /// What the overlay leaves undimmed: the region of a drag, unless it is a sliver; without a
    /// drag the hovered window.
    pub open spec fn highlighted(self, dx: Coord, dy: Coord) -> Option<Highlight> {
        if self.pointer.dragging {
            if is_sliver(dx, dy) {
                None
            } else {
                Some(
                    Highlight {
                        x: self.pointer.corner().x,
                        y: self.pointer.corner().y,
                        w: dx.unsigned(),
                        h: dy.unsigned(),
                        is_region: true,
                    },
                )
            }
        } else {
            match self.pointer.hovered {
                Some(i) => Some(
                    Highlight {
                        x: self.windows@[i as int].x,
                        y: self.windows@[i as int].y,
                        w: self.windows@[i as int].width,
                        h: self.windows@[i as int].height,
                        is_region: false,
                    },
                ),
                None => None,
            }
        }
    }

    /// Tells what is to be highlighted. `dx` and `dy` are how far the end of the drag is from its
    /// start.
    pub fn highlight_for(&self, dx: Coord, dy: Coord) -> (r: Option<Highlight>)
        requires
            self.wf(),
        ensures
            r == self.highlighted(dx, dy),
    {
        let one: Coord = Coord { bits: ONE };
        if self.pointer.dragging {
            let w: Coord = dx.abs();
            let h: Coord = dy.abs();
            if w.less_than(one) || h.less_than(one) {
                return None;
            }
            let x: Coord = self.pointer.drag_start.x.min(self.pointer.drag_end.x);
            let y: Coord = self.pointer.drag_start.y.min(self.pointer.drag_end.y);
            Some(Highlight { x, y, w, h, is_region: true })
        } else {
            match self.pointer.hovered {
                Some(i) => {
                    let window: &WindowInfo = &self.windows[i];
                    Some(
                        Highlight {
                            x: window.x,
                            y: window.y,
                            w: window.width,
                            h: window.height,
                            is_region: false,
                        },
                    )
                },
                None => None,
            }
        }
    }

    /// The colour of the border round a highlight: blue, green, red, alpha.
    pub open spec fn border_of(self, is_region: bool) -> Seq<u8> {
        if is_region {
            self.appearance.region_border()
        } else {
            self.appearance.window_border()
        }
    }

    fn border_color(&self, is_region: bool) -> (r: [u8; 4])
        ensures
            r@ == self.border_of(is_region),
    {
        let c: [u8; 3] = if is_region {
            self.appearance.region_border_color
        } else {
            self.appearance.window_border_color
        };
        [c[2], c[1], c[0], 255]
    }

    // ── Surfaces ─────────────────────────────────────────────────

    /// Adds the surface of an output. `ss_offset_x` and `ss_offset_y` say where the output begins
    /// in the screenshot, and the table `dim` gives the dimmed value of each byte. The scale of the
    /// first output that has one becomes that of the session.
    pub fn add_surface(
        &mut self,
        geometry: OutputGeometry,
        scale: Coord,
        ss_offset_x: u32,
        ss_offset_y: u32,
        dim: &[u8; 256],
    )
        requires
            old(self).wf(),
            old(self).ss_stride > 0,
            geometry.phys_w * geometry.phys_h * 4 <= usize::MAX,
        ensures
            final(self).wf(),
            final(self).appearance == old(self).appearance,
            final(self).ss_data == old(self).ss_data,
            final(self).ss_width == old(self).ss_width,
            final(self).ss_stride == old(self).ss_stride,
            final(self).windows == old(self).windows,
            final(self).pointer == old(self).pointer,
            final(self).selection == old(self).selection,
            final(self).global_scale == adopted_scale(old(self).global_scale, scale),
            final(self).surfaces@.len() == old(self).surfaces@.len() + 1,
            final(self).surfaces@.drop_last() == old(self).surfaces@,
            final(self).surfaces@.last().is_new(
                old(self).ss_data@,
                old(self).ss_stride as int,
                old(self).ss_width as int,
                geometry,
                scale,
                ss_offset_x as int,
                ss_offset_y as int,
                dim@,
            ),
    {
        if self.global_scale.bits == ZERO || self.global_scale.bits == SIGN_BIT {
            self.global_scale = scale;
        }
        let (normal, dimmed) = precompute_overlay(
            self.ss_data.as_slice(),
            self.ss_stride,
            self.ss_width,
            ss_offset_x,
            ss_offset_y,
            geometry.phys_w,
            geometry.phys_h,
            dim,
        );
        self.surfaces.push(
            OutputSurface {
                geometry,
                scale,
                normal,
                dimmed,
                configured: false,
                needs_redraw: false,
                frame_pending: false,
            },
        );
        assert(self.surfaces@.drop_last() =~= old(self).surfaces@);
    }

    /// Changes one surface and nothing else.
    pub open spec fn with_surface(self, old_self: Session, idx: int, surface: OutputSurface) -> bool {
        self.same_but_surfaces(old_self) && self.surfaces@ == old_self.surfaces@.update(idx, surface)
    }

    /// Byte `k` of the buffer of a surface once it is drawn: the surface's part of the screenshot,
    /// dimmed but for the highlight, with the border of the session's appearance round that.
    pub open spec fn painted_byte(
        self,
        surface: OutputSurface,
        old_canvas: Seq<u8>,
        highlight: Option<((i32, i32, u32, u32), bool)>,
        k: int,
    ) -> u8 {
        rendered_byte(
            old_canvas,
            surface.normal@,
            surface.dimmed@,
            surface.geometry.phys_w as int,
            surface.geometry.phys_h as int,
            (match highlight {
                Some((rect, _)) => Some(rect),
                None => None,
            }),
            (match highlight {
                Some((_, is_region)) => self.border_of(is_region),
                None => seq![0u8, 0u8, 0u8, 0u8],
            }),
            self.appearance.border_width as int,
            k,
        )
    }

    /// Draws a surface, unless the compositor has not configured it yet. `canvas` is its buffer, and
    /// `highlight` what [`Session::highlight_for`] told, in pixels of the surface, with its
    /// `is_region`. The surface then waits for the next frame.
    pub fn draw_surface(
        &mut self,
        idx: usize,
        canvas: &mut [u8],
        highlight: Option<((i32, i32, u32, u32), bool)>,
    )
        requires
            old(self).wf(),
            idx < old(self).surfaces@.len(),
        ensures
            final(self).wf(),
            final(canvas)@.len() == old(canvas)@.len(),
            !old(self).surfaces@[idx as int].configured ==> *final(self) == *old(self),
            !old(self).surfaces@[idx as int].configured ==> final(canvas)@ == old(canvas)@,
            old(self).surfaces@[idx as int].configured ==> {
                let surface = old(self).surfaces@[idx as int];
                &&& final(self).with_surface(*old(self), idx as int, surface.drawn())
                &&& forall|k: int|
                    0 <= k < old(canvas)@.len() ==> #[trigger] final(canvas)@[k]
                        == old(self).painted_byte(surface, old(canvas)@, highlight, k)
            },
    {
        if !self.surfaces[idx].configured {
            return;
        }
        let (rect, color): (Option<(i32, i32, u32, u32)>, [u8; 4]) = match highlight {
            Some((rect, is_region)) => (Some(rect), self.border_color(is_region)),
            None => (None, [0, 0, 0, 0]),
        };
        render(
            canvas,
            self.surfaces[idx].normal.as_slice(),
            self.surfaces[idx].dimmed.as_slice(),
            self.surfaces[idx].geometry.phys_w,
            self.surfaces[idx].geometry.phys_h,
            rect,
            color,
            self.appearance.border_width,
        );
        assert(highlight is None ==> color@ =~= seq![0u8, 0u8, 0u8, 0u8]);
        self.surfaces[idx].needs_redraw = false;
        self.surfaces[idx].frame_pending = true;
        assert(self.surfaces@ =~= old(self).surfaces@.update(
            idx as int,
            old(self).surfaces@[idx as int].drawn(),
        ));
    }

    /// Mark all surfaces dirty and tell which of them can be drawn at once: those that are
    /// configured and aren't waiting for a frame callback.
    pub fn request_redraw(&mut self) -> (r: Vec<usize>)
        requires
            old(self).wf(),
        ensures
            final(self).wf(),
            final(self).same_but_surfaces(*old(self)),
            final(self).surfaces@ == old(self).surfaces@.map_values(
                |s: OutputSurface| s.marked(),
            ),
            r@ == to_draw(old(self).surfaces@),
    {
        let ghost start = self.surfaces@;
        let ghost marked = start.map_values(|s: OutputSurface| s.marked());
        let n: usize = self.surfaces.len();
        let mut r: Vec<usize> = Vec::new();
        let mut i: usize = 0;
        assert(start.take(0) =~= Seq::empty());
        while i < n
            invariant
                i <= n,
                n == start.len(),
                marked == start.map_values(|s: OutputSurface| s.marked()),
                self.same_but_surfaces(*old(self)),
                self.surfaces@ == marked.take(i as int) + start.skip(i as int),
                r@ == to_draw(start.take(i as int)),
            decreases n - i,
        {
            assert(self.surfaces@[i as int] == start[i as int]);
            self.surfaces[i].needs_redraw = true;
            if self.surfaces[i].configured && !self.surfaces[i].frame_pending {
                r.push(i);
            }
            proof {
                let part = start.take(i + 1);
                assert(part.drop_last() =~= start.take(i as int));
                assert(part.last() == start[i as int]);
                assert(self.surfaces@ =~= marked.take(i + 1) + start.skip(i + 1));
            }
            i = i + 1;
        }
        assert(start.take(n as int) =~= start);
        assert(marked.take(n as int) + start.skip(n as int) =~= marked);
        r
    }

    /// The compositor asks for the next frame of a surface. Tells whether the surface is to be drawn
    /// anew.
    pub fn frame(&mut self, idx: usize) -> (draw: bool)
        requires
            old(self).wf(),
            idx < old(self).surfaces@.len(),
        ensures
            final(self).wf(),
            final(self).with_surface(
                *old(self),
                idx as int,
                old(self).surfaces@[idx as int].framed(),
            ),
            draw == old(self).surfaces@[idx as int].wants_drawing(),
    {
        self.surfaces[idx].frame_pending = false;
        self.surfaces[idx].needs_redraw && self.surfaces[idx].configured
    }

    /// The compositor configures a surface, which is then drawn. Tells whether it has a new size.
    pub fn configure(&mut self, idx: usize, w: u32, h: u32) -> (resized: bool)
        requires
            old(self).wf(),
            idx < old(self).surfaces@.len(),
        ensures
            final(self).wf(),
            final(self).with_surface(
                *old(self),
                idx as int,
                old(self).surfaces@[idx as int].sized(w, h),
            ),
            resized == (w > 0 && h > 0),
    {
        let resized: bool = w > 0 && h > 0;
        if resized {
            self.surfaces[idx].geometry.logical_w = w;
            self.surfaces[idx].geometry.logical_h = h;
        }
        self.surfaces[idx].configured = true;
        assert(self.surfaces@ =~= old(self).surfaces@.update(
            idx as int,
            old(self).surfaces@[idx as int].sized(w, h),
        ));
        resized
    }

    /// Ends the session: its result, if the user made a selection.
    pub fn into_result(self) -> (r: Option<CaptureResult>)
        ensures
            r == (match self.selection {
                Some(selection) => Some(
                    CaptureResult {
                        ss_data: self.ss_data,
                        ss_width: self.ss_width,
                        ss_stride: self.ss_stride,
                        selection,
                        scale: self.global_scale,
                    },
                ),
                None => None,
            }),
    {
        match self.selection {
            Some(selection) => Some(
                CaptureResult {
                    ss_data: self.ss_data,
                    ss_width: self.ss_width,
                    ss_stride: self.ss_stride,
                    selection,
                    scale: self.global_scale,
                },
            ),
            None => None,
        }
    }
}

// ── Outputs ──────────────────────────────────────────────────────

/// A mode of an output.
#[derive(Debug, Clone, Copy, PartialEq, Eq, Structural)]
pub struct OutputMode {
    pub current: bool,
    pub width: i32,
    pub height: i32,
}

/// The size of the first mode that is current, 3840 by 2160 where there is none.
pub open spec fn physical_size(modes: Seq<OutputMode>) -> (u32, u32)
    decreases modes.len(),
{
    if modes.len() == 0 {
        (3840, 2160)
    } else if modes[0].current {
        (modes[0].width as u32, modes[0].height as u32)
    } else {
        physical_size(modes.skip(1))
    }
}

/// The geometry of an output: what it does not report is taken from its mode.
pub open spec fn geometry_of(
    modes: Seq<OutputMode>,
    logical_size: Option<(i32, i32)>,
    logical_position: Option<(i32, i32)>,
) -> OutputGeometry {
    let (phys_w, phys_h) = physical_size(modes);
    let (logical_w, logical_h) = match logical_size {
        Some((w, h)) => (w as u32, h as u32),
        None => (phys_w, phys_h),
    };
    let (logical_x, logical_y) = match logical_position {
        Some(p) => p,
        None => (0i32, 0i32),
    };
    OutputGeometry { phys_w, phys_h, logical_w, logical_h, logical_x, logical_y }
}

/// Reads the geometry of an output from what the compositor reports.
pub fn output_geometry(
    modes: &Vec<OutputMode>,
    logical_size: Option<(i32, i32)>,
    logical_position: Option<(i32, i32)>,
) -> (r: OutputGeometry)
    ensures
        r == geometry_of(modes@, logical_size, logical_position),
{
    let mut i: usize = 0;
    let mut found: Option<OutputMode> = None;
    assert(modes@.skip(0) =~= modes@);
    while i < modes.len() && found.is_none()
        invariant
            i <= modes@.len(),
            physical_size(modes@) == (match found {
                Some(mode) => (mode.width as u32, mode.height as u32),
                None => physical_size(modes@.skip(i as int)),
            }),
        decreases modes@.len() - i,
    {
        assert(modes@.skip(i as int).skip(1) =~= modes@.skip(i + 1));
        if modes[i].current {
            found = Some(modes[i]);
        }
        i = i + 1;
    }
    let (phys_w, phys_h): (u32, u32) = match found {
        Some(mode) => (mode.width as u32, mode.height as u32),
        None => (3840, 2160),
    };
    let (logical_w, logical_h): (u32, u32) = match logical_size {
        Some((w, h)) => (w as u32, h as u32),
        None => (phys_w, phys_h),
    };
    let (logical_x, logical_y): (i32, i32) = match logical_position {
        Some((x, y)) => (x, y),
        None => (0, 0),
    };
    OutputGeometry { phys_w, phys_h, logical_w, logical_h, logical_x, logical_y }
}

impl OutputGeometry {
    /// The scale of an output: the ratio of its physical to its logical width, one where it has no
    /// logical width.
    pub open spec fn scale_of(self, ratio: Coord) -> Coord {
        if self.logical_w > 0 {
            ratio
        } else {
            Coord { bits: ONE }
        }
    }

    /// The bytes of the memory pool of a surface: those of three buffers, and never none.
    pub open spec fn pool_bytes(self) -> int {
        if self.phys_w == 0 || self.phys_h == 0 {
            1
        } else {
            self.phys_w * self.phys_h * 12
        }
    }

    /// Tells the scale of an output, by the ratio of its physical to its logical width.
    pub fn scale(self, ratio: Coord) -> (r: Coord)
        ensures
            r == self.scale_of(ratio),
    {
        if self.logical_w > 0 {
            ratio
        } else {
            Coord { bits: ONE }
        }
    }

    /// The size of the memory pool of a surface: three buffers, and never empty.
    pub fn pool_size(self) -> (r: usize)
        requires
            self.phys_w * self.phys_h * 12 <= usize::MAX,
        ensures
            r == self.pool_bytes(),
    {
        let pixels: usize = self.phys_w as usize * self.phys_h as usize;
        proof {
            assert((pixels == 0) <==> (self.phys_w == 0 || self.phys_h == 0)) by (nonlinear_arith)
                requires
                    pixels == self.phys_w * self.phys_h,
            ;
        }
        let size: usize = pixels * 4 * 3;
        if size < 1 {
            1
        } else {
            size
        }
    }
}

// ── What holds of every session ──────────────────────────────────

/// A press and a release of the left button in one place select the topmost window there, and end
/// the session. Where there is no window, nothing is selected.
pub proof fn click_selects_window(
    selection: Option<Selection>,
    p: Pointer,
    windows: Seq<WindowInfo>,
    dx: Coord,
    dy: Coord,
)
    requires
        !p.dragging,
    ensures
        ({
            let pressed = p.after(windows, PointerEvent::Pressed { button: LEFT_BUTTON });
            let release = PointerEvent::Released { button: LEFT_BUTTON, dx, dy };
            &&& pressed.after(windows, release).exit
            &&& selection_after(selection, pressed, windows, release) == (match topmost(
                windows,
                p.mouse,
            ) {
                Some(i) => Some(
                    Selection::Window {
                        title: windows[i as int].title,
                        id: windows[i as int].id,
                    },
                ),
                None => selection,
            })
        }),
{
}

/// A press of the left button, a move that goes far enough and a release select the region between
/// the two places, if it has both width and height, and end the session.
pub proof fn drag_selects_region(
    selection: Option<Selection>,
    p: Pointer,
    windows: Seq<WindowInfo>,
    to: Point,
    dx: Coord,
    dy: Coord,
)
    requires
        is_far(dx, dy),
        is_region(dx, dy),
    ensures
        ({
            let pressed = p.after(windows, PointerEvent::Pressed { button: LEFT_BUTTON });
            let moved = pressed.after(windows, PointerEvent::Moved { mouse: to, dx, dy });
            let release = PointerEvent::Released { button: LEFT_BUTTON, dx, dy };
            &&& moved.after(windows, release).exit
            &&& selection_after(selection, moved, windows, release) == Some(
                Selection::Region {
                    x: p.mouse.x.smaller(to.x),
                    y: p.mouse.y.smaller(to.y),
                    w: dx.unsigned(),
                    h: dy.unsigned(),
                },
            )
        }),
{
}

/// With the button down a move that does not go far starts no drag, and the hovered window stays.
pub proof fn small_moves_start_no_drag(
    p: Pointer,
    windows: Seq<WindowInfo>,
    to: Point,
    dx: Coord,
    dy: Coord,
)
    requires
        p.pressed,
        !p.dragging,
        !is_far(dx, dy),
    ensures
        ({
            let moved = p.after(windows, PointerEvent::Moved { mouse: to, dx, dy });
            &&& moved == Pointer { mouse: to, ..p }
            &&& !p.redraws(windows, PointerEvent::Moved { mouse: to, dx, dy })
        }),
{
}

/// No event ends a drag, takes the button up again or revives a session that is over.
pub proof fn pointer_only_goes_on(p: Pointer, windows: Seq<WindowInfo>, event: PointerEvent)
    ensures
        p.dragging ==> p.after(windows, event).dragging,
        p.pressed ==> p.after(windows, event).pressed,
        p.exit ==> p.after(windows, event).exit,
{
}

/// There is no selection before the session is over.
pub proof fn selection_comes_at_the_end(
    selection: Option<Selection>,
    p: Pointer,
    windows: Seq<WindowInfo>,
    event: PointerEvent,
)
    requires
        selection is Some ==> p.exit,
    ensures
        selection_after(selection, p, windows, event) is Some ==> p.after(windows, event).exit,
{
}

/// A region is selected only as it was highlighted.
pub proof fn region_is_selected_as_highlighted(s: Session, dx: Coord, dy: Coord)
    requires
        s.wf(),
        s.pointer.dragging,
        s.pointer.selects(s.windows@, dx, dy) is Some,
    ensures
        s.highlighted(dx, dy) matches Some(h) && h.is_region && s.pointer.selects(
            s.windows@,
            dx,
            dy,
        ) == Some(Selection::Region { x: h.x, y: h.y, w: h.w, h: h.h }),
{
}

/// It does not matter from which corner a drag starts. With its ends swapped, and so the differences
/// negated, the same region is highlighted, whatever window is hovered, and none in the same cases.
/// The corner is the same number; only where one end is at zero and the other at negative zero may
/// the two be told apart.
pub proof fn drag_ends_can_be_swapped(
    s: Session,
    other: Session,
    dx: Coord,
    dy: Coord,
    other_dx: Coord,
    other_dy: Coord,
)
    requires
        s.pointer.dragging,
        other.pointer.dragging,
        other.pointer.drag_start == s.pointer.drag_end,
        other.pointer.drag_end == s.pointer.drag_start,
        other.appearance == s.appearance,
        other_dx.unsigned() == dx.unsigned(),
        other_dy.unsigned() == dy.unsigned(),
        !s.pointer.drag_start.x.is_nan(),
        !s.pointer.drag_start.y.is_nan(),
        !s.pointer.drag_end.x.is_nan(),
        !s.pointer.drag_end.y.is_nan(),
    ensures
        s.highlighted(dx, dy) is None <==> is_sliver(dx, dy),
        other.highlighted(other_dx, other_dy) is None <==> is_sliver(dx, dy),
        s.highlighted(dx, dy) matches Some(h) ==> {
            &&& other.highlighted(other_dx, other_dy) matches Some(o)
            &&& h.is_region && o.is_region
            &&& s.border_of(h.is_region) == s.appearance.region_border()
            &&& other.border_of(o.is_region) == s.appearance.region_border()
            &&& o.w == h.w && o.h == h.h
            &&& o.x.rank() == h.x.rank() && o.y.rank() == h.y.rank()
            &&& o.x == h.x || h.x.magnitude() == 0
            &&& o.y == h.y || h.y.magnitude() == 0
        },
{
}

/// A click after a move with the button up selects the window that is highlighted, and nothing where
/// none is.
pub proof fn click_selects_what_is_highlighted(
    s: Session,
    before: Pointer,
    to: Point,
    dx: Coord,
    dy: Coord,
)
    requires
        s.wf(),
        !before.pressed,
        !before.dragging,
        s.pointer == before.after(s.windows@, PointerEvent::Moved { mouse: to, dx, dy }),
    ensures
        ({
            let pressed = s.pointer.after(
                s.windows@,
                PointerEvent::Pressed { button: LEFT_BUTTON },
            );
            match s.highlighted(dx, dy) {
                Some(h) => exists|i: int|
                    0 <= i < s.windows@.len() && {
                        let w = #[trigger] s.windows@[i];
                        &&& h == Highlight {
                            x: w.x,
                            y: w.y,
                            w: w.width,
                            h: w.height,
                            is_region: false,
                        }
                        &&& pressed.selects(s.windows@, dx, dy) == Some(
                            Selection::Window { title: w.title, id: w.id },
                        )
                    },
                None => pressed.selects(s.windows@, dx, dy) is None,
            }
        }),
{
    match s.pointer.hovered {
        Some(i) => {
            let w = s.windows@[i as int];
        },
        None => {},
    }
}

/// The surfaces to draw now are those that are configured and wait for no frame, each once.
pub proof fn to_draw_lists(surfaces: Seq<OutputSurface>)
    requires
        surfaces.len() <= usize::MAX,
    ensures
        forall|k: int|
            0 <= k < to_draw(surfaces).len() ==> {
                let i = #[trigger] to_draw(surfaces)[k];
                i < surfaces.len() && surfaces[i as int].configured
                    && !surfaces[i as int].frame_pending
            },
        forall|i: int|
            0 <= i < surfaces.len() && (#[trigger] surfaces[i]).configured
                && !surfaces[i].frame_pending ==> to_draw(surfaces).contains(i as usize),
        forall|k: int, l: int|
            0 <= k < l < to_draw(surfaces).len() ==> #[trigger] to_draw(surfaces)[k]
                < #[trigger] to_draw(surfaces)[l],
    decreases surfaces.len(),
{
    if surfaces.len() > 0 {
        let front = surfaces.drop_last();
        let rest = to_draw(front);
        let all = to_draw(surfaces);
        to_draw_lists(front);
        assert forall|k: int| 0 <= k < all.len() implies {
            let i = #[trigger] all[k];
            i < surfaces.len() && surfaces[i as int].configured
                && !surfaces[i as int].frame_pending
        } by {
            if k < rest.len() {
                assert(all[k] == rest[k]);
                assert(front[rest[k] as int] == surfaces[rest[k] as int]);
            }
        }
        assert forall|i: int|
            0 <= i < surfaces.len() && (#[trigger] surfaces[i]).configured
                && !surfaces[i].frame_pending implies all.contains(i as usize) by {
            if i < front.len() {
                assert(front[i].configured && !front[i].frame_pending);
                let k = choose|k: int| 0 <= k < rest.len() && rest[k] == i as usize;
                assert(all[k] == i as usize);
            } else {
                assert(all[all.len() - 1] == i as usize);
            }
        }
        assert forall|k: int, l: int| 0 <= k < l < all.len() implies #[trigger] all[k]
            < #[trigger] all[l] by {
            assert(all[k] == rest[k]);
            if l < rest.len() {
                assert(all[l] == rest[l]);
            }
        }
    }
}

/// No redraw is lost: when one is requested, a configured surface is drawn at once or, if it waits
/// for a frame, with that frame.
pub proof fn no_redraw_is_lost(surfaces: Seq<OutputSurface>, i: usize)
    requires
        surfaces.len() <= usize::MAX,
        i < surfaces.len(),
        surfaces[i as int].configured,
    ensures
        to_draw(surfaces).contains(i) || surfaces[i as int].marked().framed().wants_drawing(),
        to_draw(surfaces).contains(i) != surfaces[i as int].frame_pending,
{
    to_draw_lists(surfaces);
    if to_draw(surfaces).contains(i) {
        let k = choose|k: int| 0 <= k < to_draw(surfaces).len() && to_draw(surfaces)[k] == i;
        assert(!surfaces[to_draw(surfaces)[k] as int].frame_pending);
    }
}

/// Between two frames a surface is drawn at most once: once it is drawn, it is not among those to
/// draw until the compositor asks for its next frame.
pub proof fn drawn_once_a_frame(surfaces: Seq<OutputSurface>, i: usize)
    requires
        surfaces.len() <= usize::MAX,
        i < surfaces.len(),
    ensures
        !to_draw(surfaces.update(i as int, surfaces[i as int].drawn())).contains(i),
{
    let after = surfaces.update(i as int, surfaces[i as int].drawn());
    to_draw_lists(after);
    if to_draw(after).contains(i) {
        let k = choose|k: int| 0 <= k < to_draw(after).len() && to_draw(after)[k] == i;
        assert(!after[to_draw(after)[k] as int].frame_pending);
    }
}

// ── Windows, drags and surfaces in detail ────────────────────────

/// A window that is found under a point has the point between its edges: at or right of the left
/// edge, left of the right edge, at or below the upper edge and above the lower edge. No window that
/// stands later in the list has it there; and where no window is found, none has.
pub proof fn found_windows_are_under_the_point(windows: Seq<WindowInfo>, p: Point, j: int)
    requires
        windows.len() <= usize::MAX,
        0 <= j < windows.len(),
    ensures
        topmost(windows, p) matches Some(i) ==> {
            let w = windows[i as int];
            &&& i < windows.len()
            &&& w.x.up_to(p.x) && p.x.below(w.right)
            &&& w.y.up_to(p.y) && p.y.below(w.bottom)
        },
        ({
            let w = windows[j];
            w.x.up_to(p.x) && p.x.below(w.right) && w.y.up_to(p.y) && p.y.below(w.bottom)
        }) ==> (topmost(windows, p) matches Some(i) && j <= i),
{
    topmost_is_on_top(windows, p);
}

/// The pattern of a number without its sign.
pub open spec fn bits_without_sign(c: Coord) -> int {
    if c.bits >= 0x8000_0000_0000_0000 {
        c.bits - 0x8000_0000_0000_0000
    } else {
        c.bits as int
    }
}

/// A drag selects a region if and only if its ends are more than one apart in both directions. It
/// does not matter in which direction: the region is the same if a difference is negated. Its corner
/// is the end that is farther left and the end that is farther up, and its size is how far the ends
/// are apart.
pub proof fn drags_select_in_every_direction(
    p: Pointer,
    windows: Seq<WindowInfo>,
    dx: Coord,
    dy: Coord,
    other_dx: Coord,
    other_dy: Coord,
)
    requires
        p.dragging,
        other_dx.bits == dx.bits || other_dx.bits == dx.bits + 0x8000_0000_0000_0000
            || other_dx.bits + 0x8000_0000_0000_0000 == dx.bits,
        other_dy.bits == dy.bits || other_dy.bits == dy.bits + 0x8000_0000_0000_0000
            || other_dy.bits + 0x8000_0000_0000_0000 == dy.bits,
    ensures
        p.selects(windows, other_dx, other_dy) == p.selects(windows, dx, dy),
        p.selects(windows, dx, dy) is Some <==> {
            &&& 0x3ff0_0000_0000_0000 < bits_without_sign(dx) <= 0x7ff0_0000_0000_0000
            &&& 0x3ff0_0000_0000_0000 < bits_without_sign(dy) <= 0x7ff0_0000_0000_0000
        },
        p.selects(windows, dx, dy) matches Some(s) ==> {
            &&& s matches Selection::Region { x, y, w, h }
            &&& w.bits == bits_without_sign(dx)
            &&& h.bits == bits_without_sign(dy)
            &&& p.drag_start.x.below(p.drag_end.x) ==> x == p.drag_start.x
            &&& p.drag_end.x.below(p.drag_start.x) ==> x == p.drag_end.x
            &&& p.drag_start.y.below(p.drag_end.y) ==> y == p.drag_start.y
            &&& p.drag_end.y.below(p.drag_start.y) ==> y == p.drag_end.y
            &&& p.drag_start.x == p.drag_end.x ==> x == p.drag_start.x
            &&& p.drag_start.y == p.drag_end.y ==> y == p.drag_start.y
        },
{
}

/// During a drag the region between its ends is highlighted unless they are less than one apart in
/// some direction, in every direction alike. Otherwise the hovered window is, by its own corner and
/// size, and nothing where none is hovered.
pub proof fn highlights_in_detail(s: Session, dx: Coord, dy: Coord)
    requires
        s.wf(),
    ensures
        s.pointer.dragging ==> (s.highlighted(dx, dy) is None <==> (bits_without_sign(dx)
            < 0x3ff0_0000_0000_0000 || bits_without_sign(dy) < 0x3ff0_0000_0000_0000)),
        s.pointer.dragging ==> (s.highlighted(dx, dy) matches Some(h) ==> {
            &&& h.is_region
            &&& h.w.bits == bits_without_sign(dx)
            &&& h.h.bits == bits_without_sign(dy)
            &&& s.pointer.drag_start.x.below(s.pointer.drag_end.x) ==> h.x == s.pointer.drag_start.x
            &&& s.pointer.drag_end.x.below(s.pointer.drag_start.x) ==> h.x == s.pointer.drag_end.x
            &&& s.pointer.drag_start.y.below(s.pointer.drag_end.y) ==> h.y == s.pointer.drag_start.y
            &&& s.pointer.drag_end.y.below(s.pointer.drag_start.y) ==> h.y == s.pointer.drag_end.y
        }),
        !s.pointer.dragging && s.pointer.hovered is None ==> s.highlighted(dx, dy) is None,
        !s.pointer.dragging && s.pointer.hovered is Some ==> ({
            let w = s.windows@[s.pointer.hovered->0 as int];
            &&& s.pointer.hovered->0 < s.windows@.len()
            &&& s.highlighted(dx, dy) matches Some(h)
            &&& !h.is_region
            &&& h.x == w.x && h.y == w.y && h.w == w.width && h.h == w.height
        }),
        s.border_of(true).len() == 4,
        s.border_of(true)[0] == s.appearance.region_border_color@[2],
        s.border_of(true)[1] == s.appearance.region_border_color@[1],
        s.border_of(true)[2] == s.appearance.region_border_color@[0],
        s.border_of(true)[3] == 255,
        s.border_of(false).len() == 4,
        s.border_of(false)[0] == s.appearance.window_border_color@[2],
        s.border_of(false)[1] == s.appearance.window_border_color@[1],
        s.border_of(false)[2] == s.appearance.window_border_color@[0],
        s.border_of(false)[3] == 255,
{
}

/// What a move does. The pointer is where it moved. With the button up the topmost window there is
/// hovered, and nothing else changes; the overlay is drawn anew if that is another window than
/// before. With the button down the hovered window stays; a drag starts once the pointer is more
/// than five from where the button was pressed, in either direction; a drag ends where the pointer
/// is, and with each move of it the overlay is drawn anew.
pub proof fn moves_in_detail(
    p: Pointer,
    windows: Seq<WindowInfo>,
    mouse: Point,
    dx: Coord,
    dy: Coord,
)
    ensures
        ({
            let event = PointerEvent::Moved { mouse, dx, dy };
            let next = p.after(windows, event);
            let far = 0x4014_0000_0000_0000 < bits_without_sign(dx) <= 0x7ff0_0000_0000_0000
                || 0x4014_0000_0000_0000 < bits_without_sign(dy) <= 0x7ff0_0000_0000_0000;
            &&& next.mouse == mouse
            &&& next.pressed == p.pressed
            &&& next.press == p.press
            &&& next.drag_start == p.drag_start
            &&& next.exit == p.exit
            &&& !p.pressed ==> {
                &&& next.hovered == topmost(windows, mouse)
                &&& next.dragging == p.dragging
                &&& next.drag_end == p.drag_end
                &&& p.redraws(windows, event) <==> next.hovered != p.hovered
            }
            &&& p.pressed ==> {
                &&& next.hovered == p.hovered
                &&& next.dragging <==> p.dragging || far
                &&& next.drag_end == (if p.dragging || far {
                    mouse
                } else {
                    p.drag_end
                })
                &&& p.redraws(windows, event) <==> p.dragging || far
            }
        }),
{
}

/// What buttons do. A press of the left one takes the place of the pointer as both ends of a drag to
/// come; its release ends the session, as a press of the right one does. No other button does
/// anything, and none has the overlay drawn anew or moves the pointer. Only a release of the left one
/// changes the selection, and only if it selects something.
pub proof fn buttons_in_detail(
    p: Pointer,
    windows: Seq<WindowInfo>,
    selection: Option<Selection>,
    button: u32,
    dx: Coord,
    dy: Coord,
)
    ensures
        ({
            let press = PointerEvent::Pressed { button };
            let release = PointerEvent::Released { button, dx, dy };
            let (down, up) = (p.after(windows, press), p.after(windows, release));
            &&& down.mouse == p.mouse && up.mouse == p.mouse
            &&& down.hovered == p.hovered && up.hovered == p.hovered
            &&& down.dragging == p.dragging && up.dragging == p.dragging
            &&& down.pressed <==> p.pressed || button == 272
            &&& down.press == (if button == 272 {
                p.mouse
            } else {
                p.press
            })
            &&& down.drag_start == (if button == 272 {
                p.mouse
            } else {
                p.drag_start
            })
            &&& down.drag_end == (if button == 272 {
                p.mouse
            } else {
                p.drag_end
            })
            &&& down.exit <==> p.exit || button == 273
            &&& up.pressed == p.pressed && up.press == p.press
            &&& up.drag_start == p.drag_start && up.drag_end == p.drag_end
            &&& up.exit <==> p.exit || button == 272
            &&& !p.redraws(windows, press) && !p.redraws(windows, release)
            &&& selection_after(selection, p, windows, press) == selection
            &&& button != 272 ==> selection_after(selection, p, windows, release) == selection
            &&& button == 272 ==> selection_after(selection, p, windows, release) == (
            match p.selects(windows, dx, dy) {
                Some(s) => Some(s),
                None => selection,
            })
        }),
        p.after(windows, PointerEvent::Other) == p,
        !p.redraws(windows, PointerEvent::Other),
        selection_after(selection, p, windows, PointerEvent::Other) == selection,
{
}

/// A session starts with the pointer at the origin, nothing pressed, dragged or hovered, and not
/// over.
pub proof fn sessions_start_afresh()
    ensures
        ({
            let p = Pointer::start();
            &&& p.mouse.x.bits == 0 && p.mouse.y.bits == 0
            &&& p.press == p.mouse && p.drag_start == p.mouse && p.drag_end == p.mouse
            &&& !p.pressed && !p.dragging && !p.exit
            &&& p.hovered is None
        }),
{
}

/// What is said to be kept is kept: the screenshot, the windows, the appearance and the scale, and
/// the surfaces or the pointer and the selection.
pub proof fn scenes_are_kept(a: Session, b: Session, idx: int, surface: OutputSurface, i: int)
    ensures
        a.same_scene(b) ==> a.windows == b.windows && a.surfaces == b.surfaces && a.ss_data
            == b.ss_data && a.ss_width == b.ss_width && a.ss_stride == b.ss_stride && a.appearance
            == b.appearance && a.global_scale == b.global_scale,
        a.same_but_surfaces(b) ==> a.windows == b.windows && a.pointer == b.pointer && a.selection
            == b.selection && a.ss_data == b.ss_data && a.ss_width == b.ss_width && a.ss_stride
            == b.ss_stride && a.appearance == b.appearance && a.global_scale == b.global_scale,
        a.with_surface(b, idx, surface) && 0 <= idx < b.surfaces@.len() ==> {
            &&& a.same_but_surfaces(b)
            &&& a.surfaces@.len() == b.surfaces@.len()
            &&& a.surfaces@[idx] == surface
            &&& 0 <= i < b.surfaces@.len() && i != idx ==> a.surfaces@[i] == b.surfaces@[i]
        },
{
}

/// What a surface goes through changes its flags only: a request for a redraw puts it out of date,
/// drawing brings it up to date and has it wait for a frame, and a frame ends the waiting. Only the
/// compositor gives it a size, and none with a side of zero.
pub proof fn surfaces_in_detail(s: OutputSurface, w: u32, h: u32)
    ensures
        ({
            let (m, d, f, z) = (s.marked(), s.drawn(), s.framed(), s.sized(w, h));
            &&& m.needs_redraw && !d.needs_redraw
            &&& f.needs_redraw == s.needs_redraw && z.needs_redraw == s.needs_redraw
            &&& d.frame_pending && !f.frame_pending
            &&& m.frame_pending == s.frame_pending && z.frame_pending == s.frame_pending
            &&& z.configured
            &&& m.configured == s.configured && d.configured == s.configured && f.configured
                == s.configured
            &&& m.geometry == s.geometry && d.geometry == s.geometry && f.geometry == s.geometry
            &&& w > 0 && h > 0 ==> z.geometry.logical_w == w && z.geometry.logical_h == h
            &&& w == 0 || h == 0 ==> z.geometry == s.geometry
            &&& z.geometry.phys_w == s.geometry.phys_w && z.geometry.phys_h == s.geometry.phys_h
            &&& z.geometry.logical_x == s.geometry.logical_x && z.geometry.logical_y
                == s.geometry.logical_y
            &&& m.scale == s.scale && d.scale == s.scale && f.scale == s.scale && z.scale == s.scale
            &&& m.normal == s.normal && d.normal == s.normal && f.normal == s.normal && z.normal
                == s.normal
            &&& m.dimmed == s.dimmed && d.dimmed == s.dimmed && f.dimmed == s.dimmed && z.dimmed
                == s.dimmed
            &&& s.wants_drawing() <==> s.needs_redraw && s.configured
        }),
{
}

/// A new surface shows its part of the screenshot: the pixel in column `x` of row `y` is that of the
/// screenshot at the output's beginning plus `x` and `y`, dimmed by the table in the dimmed image,
/// and zero beyond the screenshot. It is neither configured nor drawn.
pub proof fn new_surfaces_show_their_part(
    s: OutputSurface,
    shot: Seq<u8>,
    dim: Seq<u8>,
    stride: int,
    shot_width: int,
    rows: int,
    geometry: OutputGeometry,
    scale: Coord,
    ox: int,
    oy: int,
    x: int,
    y: int,
    c: int,
)
    requires
        s.is_new(shot, stride, shot_width, geometry, scale, ox, oy, dim),
        shot.len() <= u32::MAX,
        0 < stride,
        0 <= rows,
        rows * stride <= shot.len() < (rows + 1) * stride,
        0 <= ox,
        0 <= oy,
        0 <= x < geometry.phys_w,
        0 <= y < geometry.phys_h,
        0 <= c < 4,
    ensures
        s.geometry == geometry,
        s.scale == scale,
        !s.configured && !s.needs_redraw && !s.frame_pending,
        s.normal@.len() == geometry.phys_w * geometry.phys_h * 4,
        s.dimmed@.len() == geometry.phys_w * geometry.phys_h * 4,
        ({
            let k = (y * geometry.phys_w + x) * 4 + c;
            let place = (oy + y) * stride + (ox + x) * 4;
            if ox + x < shot_width && oy + y < rows && place + 3 < shot.len() {
                &&& s.normal@[k] == shot[place + c]
                &&& s.dimmed@[k] == (if c < 3 {
                    dim[shot[place + c] as int]
                } else {
                    shot[place + 3]
                })
            } else {
                s.normal@[k] == 0 && s.dimmed@[k] == 0
            }
        }),
{
    let (w, h) = (geometry.phys_w as int, geometry.phys_h as int);
    let k = (y * w + x) * 4 + c;
    assert(0 <= k < w * h * 4) by (nonlinear_arith)
        requires
            k == (y * w + x) * 4 + c,
            0 <= x < w,
            0 <= y < h,
            0 <= c < 4,
    ;
    outputs_show_their_part(shot, dim, stride, shot_width, rows, ox, oy, w, x, y, c);
}

/// An output has the size of the first of its modes that is current, and 3840 by 2160 where none is.
/// Where it reports no logical size, that is its physical one; where it reports no position, it is
/// at the origin.
pub proof fn geometries_in_detail(
    modes: Seq<OutputMode>,
    logical_size: Option<(i32, i32)>,
    logical_position: Option<(i32, i32)>,
    i: int,
)
    requires
        0 <= i <= modes.len(),
        forall|j: int| 0 <= j < i ==> !(#[trigger] modes[j]).current,
        i < modes.len() ==> modes[i].current,
    ensures
        ({
            let g = geometry_of(modes, logical_size, logical_position);
            &&& i < modes.len() && modes[i].width >= 0 ==> g.phys_w == modes[i].width
            &&& i < modes.len() && modes[i].height >= 0 ==> g.phys_h == modes[i].height
            &&& i == modes.len() ==> g.phys_w == 3840 && g.phys_h == 2160
            &&& logical_size is None ==> g.logical_w == g.phys_w && g.logical_h == g.phys_h
            &&& logical_size matches Some(size) ==> {
                &&& size.0 >= 0 ==> g.logical_w == size.0
                &&& size.1 >= 0 ==> g.logical_h == size.1
            }
            &&& logical_position is None ==> g.logical_x == 0 && g.logical_y == 0
            &&& logical_position matches Some(at) ==> g.logical_x == at.0 && g.logical_y == at.1
        }),
    decreases i,
{
    if i > 0 {
        let rest = modes.skip(1);
        assert(!modes[0].current);
        assert forall|j: int| 0 <= j < i - 1 implies !(#[trigger] rest[j]).current by {
            assert(!modes[j + 1].current);
        }
        geometries_in_detail(rest, logical_size, logical_position, i - 1);
    }
}

/// A drawn surface shows, in the pixel in column `x` of row `y`, its part of the screenshot as it is
/// inside of the highlight; round the highlight, as far as the border's width of the appearance
/// reaches, the border's colour: that for regions round a region and that for windows round a
/// window; and the dimmed image elsewhere, and everywhere without a highlight.
pub proof fn drawings_in_detail(
    s: Session,
    surface: OutputSurface,
    canvas: Seq<u8>,
    rect: (i32, i32, u32, u32),
    is_region: bool,
    x1: int,
    y1: int,
    x2: int,
    y2: int,
    x: int,
    y: int,
    c: int,
)
    requires
        surface.wf(),
        canvas.len() == surface.geometry.phys_w * surface.geometry.phys_h * 4,
        0 <= x < surface.geometry.phys_w,
        0 <= y < surface.geometry.phys_h,
        0 <= c < 4,
        x1 == (if rect.0 < 0 {
            0
        } else {
            rect.0 as int
        }),
        y1 == (if rect.1 < 0 {
            0
        } else {
            rect.1 as int
        }),
        x2 == (if rect.0 + rect.2 > surface.geometry.phys_w {
            surface.geometry.phys_w as int
        } else {
            rect.0 + rect.2
        }),
        y2 == (if rect.1 + rect.3 > surface.geometry.phys_h {
            surface.geometry.phys_h as int
        } else {
            rect.1 + rect.3
        }),
    ensures
        ({
            let k = (y * surface.geometry.phys_w + x) * 4 + c;
            let b = s.appearance.border_width;
            let rgb = if is_region {
                s.appearance.region_border_color@
            } else {
                s.appearance.window_border_color@
            };
            &&& s.painted_byte(surface, canvas, None, k) == surface.dimmed@[k]
            &&& s.painted_byte(surface, canvas, Some((rect, is_region)), k) == (if x1 <= x < x2 && y1
                <= y < y2 {
                surface.normal@[k]
            } else if x1 < x2 && y1 < y2 && x1 - b <= x < x2 + b && y1 - b <= y < y2 + b {
                if c == 3 {
                    255
                } else {
                    rgb[2 - c]
                }
            } else {
                surface.dimmed@[k]
            })
        }),
{
    let (w, h) = (surface.geometry.phys_w as int, surface.geometry.phys_h as int);
    let k = (y * w + x) * 4 + c;
    assert(0 <= k < w * h * 4 && (y * w + x) * 4 + 3 < w * h * 4) by (nonlinear_arith)
        requires
            k == (y * w + x) * 4 + c,
            0 <= x < w,
            0 <= y < h,
            0 <= c < 4,
    ;
    let color = s.border_of(is_region);
    let cut = |n: int, limit: int|
        if n < 0 {
            0
        } else if n > limit {
            limit
        } else {
            n
        };
    let (a1, b1) = (cut(rect.0 as int, w), cut(rect.1 as int, h));
    let (a2, b2) = (cut(rect.0 + rect.2, w), cut(rect.1 + rect.3, h));
    pixels_of_an_overlay(
        canvas,
        surface.normal@,
        surface.dimmed@,
        w,
        h,
        rect,
        color,
        s.appearance.border_width as int,
        a1,
        b1,
        a2,
        b2,
        x,
        y,
        c,
    );
    assert((y * w + a2) * 4 <= w * h * 4) by (nonlinear_arith)
        requires
            0 <= y < h,
            0 <= a2 <= w,
    ;
}

/// A session takes on the scale of the first output whose scale is not zero, and keeps it.
pub proof fn scales_in_detail(before: Coord, scale: Coord, g: OutputGeometry)
    ensures
        before.bits == 0 || before.bits == 0x8000_0000_0000_0000 ==> adopted_scale(before, scale)
            == scale,
        before.bits != 0 && before.bits != 0x8000_0000_0000_0000 ==> adopted_scale(before, scale)
            == before,
        g.logical_w > 0 ==> g.scale_of(scale) == scale,
        g.logical_w == 0 ==> g.scale_of(scale).bits == 0x3ff0_0000_0000_0000,
{
}

/// A memory pool holds three buffers of four bytes for each pixel, and a byte where there is no pixel.
pub proof fn pools_in_detail(g: OutputGeometry)
    ensures
        g.phys_w > 0 && g.phys_h > 0 ==> g.pool_bytes() == 3 * (g.phys_w * g.phys_h * 4),
        g.phys_w * g.phys_h == 0 ==> g.pool_bytes() == 1,
{
    assert(g.phys_w * g.phys_h == 0 ==> g.phys_w == 0 || g.phys_h == 0) by (nonlinear_arith);
}

} // verus!
