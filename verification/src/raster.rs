//! Pixel buffers: the dimmed overlay with its highlight, and the part of a screenshot to save.
//!
//! A buffer holds rows of pixels without gaps, four bytes to a pixel. Screenshots and overlays have
//! their bytes in the order blue, green, red, alpha.
use vstd::arithmetic::div_mod::*;
use vstd::prelude::*;

verus! {

/// The row of the pixel that byte `k` belongs to, in a buffer of this width.
pub open spec fn row_of(k: int, width: int) -> int {
    (k / 4) / width
}

/// The column of the pixel that byte `k` belongs to, in a buffer of this width.
pub open spec fn column_of(k: int, width: int) -> int {
    (k / 4) % width
}

/// The bytes of the pixels from column `x1` up to column `x2` of row `y`.
proof fn lemma_row_part(k: int, width: int, y: int, x1: int, x2: int)
    requires
        0 <= k,
        0 <= x1 <= x2 <= width,
        0 < width,
        0 <= y,
    ensures
        ((y * width + x1) * 4 <= k < (y * width + x2) * 4) <==> (row_of(k, width) == y && x1
            <= column_of(k, width) < x2),
{
    let p = k / 4;
    lemma_fundamental_div_mod(p, width);
    lemma_mod_bound(p, width);
    let r = p / width;
    let c = p % width;
    assert(p == r * width + c) by (nonlinear_arith)
        requires
            p == width * r + c,
    ;
    if y * width + x1 <= p < y * width + x2 {
        lemma_fundamental_div_mod_converse(p, width, y, p - y * width);
    }
}

/// The bytes of one pixel.
proof fn lemma_pixel(k: int, width: int, y: int, x: int)
    requires
        0 <= k,
        0 <= x < width,
        0 <= y,
    ensures
        (k / 4 == y * width + x) <==> (row_of(k, width) == y && column_of(k, width) == x),
{
    lemma_row_part(k, width, y, x, x + 1);
}

proof fn lemma_row_start(y: int, width: int, height: int)
    requires
        0 <= y <= height,
        0 <= width,
    ensures
        0 <= y * width <= height * width,
        (y + 1) * width == y * width + width,
{
    assert(0 <= y * width <= height * width && (y + 1) * width == y * width + width)
        by (nonlinear_arith)
        requires
            0 <= y <= height,
            0 <= width,
    ;
}

// ── The overlay with its highlight ───────────────────────────────

/// The part of a buffer that a rectangle covers: columns from `x1` up to `x2` and rows from `y1` up
/// to `y2`.
pub struct Clip {
    pub x1: int,
    pub y1: int,
    pub x2: int,
    pub y2: int,
}

/// A number moved into the range from zero to `limit`.
pub open spec fn clamped(n: int, limit: int) -> int {
    if n < 0 {
        0
    } else if n > limit {
        limit
    } else {
        n
    }
}

/// The part of a buffer that a rectangle, given by corner and size, covers.
pub open spec fn clip_of(rect: (i32, i32, u32, u32), width: int, height: int) -> Clip {
    Clip {
        x1: clamped(rect.0 as int, width),
        y1: clamped(rect.1 as int, height),
        x2: clamped(rect.0 + rect.2, width),
        y2: clamped(rect.1 + rect.3, height),
    }
}

impl Clip {
    /// Whether no pixel is covered.
    pub open spec fn is_empty(self) -> bool {
        self.x1 >= self.x2 || self.y1 >= self.y2
    }

    /// Whether a pixel is covered.
    pub open spec fn holds(self, x: int, y: int) -> bool {
        self.x1 <= x < self.x2 && self.y1 <= y < self.y2
    }

    /// Whether a pixel is no farther than `border` outside.
    pub open spec fn borders(self, x: int, y: int, border: int) -> bool {
        &&& self.x1 - border <= x < self.x2 + border
        &&& self.y1 - border <= y < self.y2 + border
        &&& !self.holds(x, y)
    }
}

/// Byte `k` without a highlight: dimmed, as far as there are dimmed bytes.
pub open spec fn dimmed_byte(old_canvas: Seq<u8>, dimmed: Seq<u8>, k: int) -> u8 {
    if k < dimmed.len() {
        dimmed[k]
    } else {
        old_canvas[k]
    }
}

/// Byte `k` once the highlighted rows are undimmed. A row is undimmed where both buffers reach to
/// its highlighted end.
pub open spec fn lit_byte(
    old_canvas: Seq<u8>,
    normal: Seq<u8>,
    dimmed: Seq<u8>,
    width: int,
    clip: Clip,
    k: int,
) -> u8 {
    let (x, y) = (column_of(k, width), row_of(k, width));
    let end = (y * width + clip.x2) * 4;
    if clip.holds(x, y) && end <= normal.len() && end <= old_canvas.len() {
        normal[k]
    } else {
        dimmed_byte(old_canvas, dimmed, k)
    }
}

/// Byte `k` of a rendered overlay: the highlight as it is, a border round it, and the rest dimmed.
pub open spec fn rendered_byte(
    old_canvas: Seq<u8>,
    normal: Seq<u8>,
    dimmed: Seq<u8>,
    width: int,
    height: int,
    highlight: Option<(i32, i32, u32, u32)>,
    border_color: Seq<u8>,
    border_width: int,
    k: int,
) -> u8 {
    match highlight {
        None => dimmed_byte(old_canvas, dimmed, k),
        Some(rect) => {
            let clip = clip_of(rect, width, height);
            let (x, y) = (column_of(k, width), row_of(k, width));
            if clip.is_empty() {
                dimmed_byte(old_canvas, dimmed, k)
            } else if clip.borders(x, y, border_width) && y < height && (k / 4) * 4 + 3
                < old_canvas.len() {
                border_color[k % 4]
            } else {
                lit_byte(old_canvas, normal, dimmed, width, clip, k)
            }
        },
    }
}

/// Copies the bytes `from..to` from one buffer to the same place of another.
fn copy_bytes(canvas: &mut [u8], source: &[u8], from: usize, to: usize)
    requires
        from <= to <= old(canvas)@.len(),
        to <= source@.len(),
    ensures
        final(canvas)@.len() == old(canvas)@.len(),
        forall|k: int|
            0 <= k < old(canvas)@.len() ==> #[trigger] final(canvas)@[k] == (if from <= k < to {
                source@[k]
            } else {
                old(canvas)@[k]
            }),
{
    let ghost start = canvas@;
    let mut i: usize = from;
    while i < to
        invariant
            from <= i <= to <= canvas@.len(),
            to <= source@.len(),
            canvas@.len() == start.len(),
            forall|k: int|
                0 <= k < start.len() ==> #[trigger] canvas@[k] == (if from <= k < i {
                    source@[k]
                } else {
                    start[k]
                }),
        decreases to - i,
    {
        canvas[i] = source[i];
        i = i + 1;
    }
}

/// Gives the pixel at place `p` a colour.
fn paint_pixel(canvas: &mut [u8], p: usize, color: [u8; 4])
    requires
        p < old(canvas)@.len() / 4,
    ensures
        final(canvas)@.len() == old(canvas)@.len(),
        forall|k: int|
            0 <= k < old(canvas)@.len() ==> #[trigger] final(canvas)@[k] == (if k / 4 == p {
                color@[k % 4]
            } else {
                old(canvas)@[k]
            }),
{
    let i: usize = p * 4;
    canvas[i] = color[0];
    canvas[i + 1] = color[1];
    canvas[i + 2] = color[2];
    canvas[i + 3] = color[3];
}

fn clamp_low(n: i32, limit: u32) -> (r: u32)
    ensures
        r == clamped(n as int, limit as int),
{
    if n < 0 {
        0
    } else if n as u32 > limit {
        limit
    } else {
        n as u32
    }
}

fn clamp_high(n: i32, len: u32, limit: u32) -> (r: u32)
    ensures
        r == clamped(n + len, limit as int),
{
    let end: i64 = n as i64 + len as i64;
    if end < 0 {
        0
    } else if end > limit as i64 {
        limit
    } else {
        end as u32
    }
}

/// Undims the highlighted part of each row.
fn light_rows(
    canvas: &mut [u8],
    normal: &[u8],
    width: u32,
    height: u32,
    x1: u32,
    y1: u32,
    x2: u32,
    y2: u32,
)
    requires
        x1 < x2 <= width,
        y1 < y2 <= height,
    ensures
        final(canvas)@.len() == old(canvas)@.len(),
        forall|k: int|
            0 <= k < old(canvas)@.len() ==> #[trigger] final(canvas)@[k] == lit_byte(
                old(canvas)@,
                normal@,
                Seq::empty(),
                width as int,
                (Clip { x1: x1 as int, y1: y1 as int, x2: x2 as int, y2: y2 as int }),
                k,
            ),
{
    let ghost start = canvas@;
    let ghost clip = Clip { x1: x1 as int, y1: y1 as int, x2: x2 as int, y2: y2 as int };
    let fits: usize = if canvas.len() < normal.len() {
        canvas.len() / 4
    } else {
        normal.len() / 4
    };
    let mut y: u32 = y1;
    while y < y2
        invariant
            x1 < x2 <= width,
            y1 <= y <= y2 <= height,
            canvas@.len() == start.len(),
            clip == (Clip { x1: x1 as int, y1: y1 as int, x2: x2 as int, y2: y2 as int }),
            fits <= usize::MAX / 4,
            fits == (if start.len() < normal@.len() {
                start.len() as int / 4
            } else {
                normal@.len() as int / 4
            }),
            forall|k: int|
                0 <= k < start.len() ==> #[trigger] canvas@[k] == (if row_of(k, width as int) < y {
                    lit_byte(start, normal@, Seq::empty(), width as int, clip, k)
                } else {
                    start[k]
                }),
        decreases y2 - y,
    {
        proof {
            lemma_row_start(y as int, width as int, u32::MAX as int);
            assert(u32::MAX * width <= u32::MAX * u32::MAX) by (nonlinear_arith)
                requires
                    0 <= width <= u32::MAX,
            ;
        }
        let first: u64 = y as u64 * width as u64 + x1 as u64;
        let end: u64 = y as u64 * width as u64 + x2 as u64;
        let ghost before = canvas@;
        if end <= fits as u64 {
            let from: usize = first as usize * 4;
            let to: usize = end as usize * 4;
            copy_bytes(canvas, normal, from, to);
        }
        proof {
            assert forall|k: int| 0 <= k < start.len() implies #[trigger] canvas@[k] == (if row_of(
                k,
                width as int,
            ) < y + 1 {
                lit_byte(start, normal@, Seq::empty(), width as int, clip, k)
            } else {
                start[k]
            }) by {
                lemma_row_part(k, width as int, y as int, x1 as int, x2 as int);
                assert(before[k] == (if row_of(k, width as int) < y {
                    lit_byte(start, normal@, Seq::empty(), width as int, clip, k)
                } else {
                    start[k]
                }));
            }
        }
        y = y + 1;
    }
    proof {
        assert forall|k: int| 0 <= k < start.len() implies #[trigger] canvas@[k] == lit_byte(
            start,
            normal@,
            Seq::empty(),
            width as int,
            clip,
            k,
        ) by {
            assert(canvas@[k] == (if row_of(k, width as int) < y {
                lit_byte(start, normal@, Seq::empty(), width as int, clip, k)
            } else {
                start[k]
            }));
        }
    }
}

/// Whether byte `k` is painted with the border's colour.
spec fn on_border(canvas_len: int, width: int, height: int, clip: Clip, border: int, k: int) -> bool {
    let (x, y) = (column_of(k, width), row_of(k, width));
    clip.borders(x, y, border) && y < height && (k / 4) * 4 + 3 < canvas_len
}

/// Paints the border round the highlight.
fn paint_border(
    canvas: &mut [u8],
    width: u32,
    height: u32,
    x1: u32,
    y1: u32,
    x2: u32,
    y2: u32,
    color: [u8; 4],
    border: u32,
)
    requires
        x1 < x2 <= width,
        y1 < y2 <= height,
    ensures
        final(canvas)@.len() == old(canvas)@.len(),
        forall|k: int|
            0 <= k < old(canvas)@.len() ==> #[trigger] final(canvas)@[k] == (if on_border(
                old(canvas)@.len() as int,
                width as int,
                height as int,
                (Clip { x1: x1 as int, y1: y1 as int, x2: x2 as int, y2: y2 as int }),
                border as int,
                k,
            ) {
                color@[k % 4]
            } else {
                old(canvas)@[k]
            }),
{
    let ghost start = canvas@;
    let ghost n = canvas@.len() as int;
    let ghost clip = Clip { x1: x1 as int, y1: y1 as int, x2: x2 as int, y2: y2 as int };
    let ghost (w, h) = (width as int, height as int);
    let pixels: usize = canvas.len() / 4;
    let bx1: u32 = if x1 < border {
        0
    } else {
        x1 - border
    };
    let by1: u32 = if y1 < border {
        0
    } else {
        y1 - border
    };
    let bx2: u32 = if x2 as u64 + border as u64 > width as u64 {
        width
    } else {
        x2 + border
    };
    let by2: u32 = if y2 as u64 + border as u64 > height as u64 {
        height
    } else {
        y2 + border
    };
    let mut y: u32 = by1;
    while y < by2
        invariant
            x1 < x2 <= width,
            y1 < y2 <= height,
            w == width,
            h == height,
            n == start.len(),
            canvas@.len() == n,
            pixels == n / 4,
            clip == (Clip { x1: x1 as int, y1: y1 as int, x2: x2 as int, y2: y2 as int }),
            bx1 == (if x1 < border { 0 } else { x1 - border }),
            by1 == (if y1 < border { 0 } else { y1 - border }),
            bx2 == (if x2 + border > width { width as int } else { x2 + border }),
            by2 == (if y2 + border > height { height as int } else { y2 + border }),
            by1 <= y <= by2,
            forall|k: int|
                0 <= k < n ==> #[trigger] canvas@[k] == (if row_of(k, w) < y && on_border(
                    n,
                    w,
                    h,
                    clip,
                    border as int,
                    k,
                ) {
                    color@[k % 4]
                } else {
                    start[k]
                }),
        decreases by2 - y,
    {
        proof {
            lemma_row_start(y as int, width as int, u32::MAX as int);
            assert(u32::MAX * width <= u32::MAX * u32::MAX) by (nonlinear_arith)
                requires
                    0 <= width <= u32::MAX,
            ;
        }
        let row: u64 = y as u64 * width as u64;
        let mut x: u32 = bx1;
        while x < bx2
            invariant
                x1 < x2 <= width,
                y1 < y2 <= height,
                w == width,
                h == height,
                n == start.len(),
                canvas@.len() == n,
                pixels == n / 4,
                clip == (Clip { x1: x1 as int, y1: y1 as int, x2: x2 as int, y2: y2 as int }),
                bx1 == (if x1 < border { 0 } else { x1 - border }),
                by1 == (if y1 < border { 0 } else { y1 - border }),
                bx2 == (if x2 + border > width { width as int } else { x2 + border }),
                by2 == (if y2 + border > height { height as int } else { y2 + border }),
                by1 <= y < by2,
                bx1 <= x <= bx2,
                row == y * width,
                row <= u32::MAX * u32::MAX,
                forall|k: int|
                    0 <= k < n ==> #[trigger] canvas@[k] == (if (row_of(k, w) < y || row_of(k, w)
                        == y && column_of(k, w) < x) && on_border(n, w, h, clip, border as int, k) {
                        color@[k % 4]
                    } else {
                        start[k]
                    }),
            decreases bx2 - x,
        {
            let ghost before = canvas@;
            let inside: bool = x1 <= x && x < x2 && y1 <= y && y < y2;
            if !inside {
                let p: u64 = row + x as u64;
                if p < pixels as u64 {
                    paint_pixel(canvas, p as usize, color);
                }
            }
            proof {
                assert forall|k: int| 0 <= k < n implies #[trigger] canvas@[k] == (if (row_of(k, w)
                    < y || row_of(k, w) == y && column_of(k, w) < x + 1) && on_border(
                    n,
                    w,
                    h,
                    clip,
                    border as int,
                    k,
                ) {
                    color@[k % 4]
                } else {
                    start[k]
                }) by {
                    lemma_pixel(k, w, y as int, x as int);
                    assert(before[k] == (if (row_of(k, w) < y || row_of(k, w) == y && column_of(
                        k,
                        w,
                    ) < x) && on_border(n, w, h, clip, border as int, k) {
                        color@[k % 4]
                    } else {
                        start[k]
                    }));
                }
            }
            x = x + 1;
        }
        proof {
            assert forall|k: int| 0 <= k < n implies #[trigger] canvas@[k] == (if row_of(k, w) < y
                + 1 && on_border(n, w, h, clip, border as int, k) {
                color@[k % 4]
            } else {
                start[k]
            }) by {
                lemma_mod_bound(k / 4, w);
            }
        }
        y = y + 1;
    }
}

/// Draws the overlay: dimmed, with the highlight undimmed and a border round it.
pub fn render(
    canvas: &mut [u8],
    normal: &[u8],
    dimmed: &[u8],
    width: u32,
    height: u32,
    highlight: Option<(i32, i32, u32, u32)>,
    border_color: [u8; 4],
    border_width: u32,
)
    ensures
        final(canvas)@.len() == old(canvas)@.len(),
        forall|k: int|
            0 <= k < old(canvas)@.len() ==> #[trigger] final(canvas)@[k] == rendered_byte(
                old(canvas)@,
                normal@,
                dimmed@,
                width as int,
                height as int,
                highlight,
                border_color@,
                border_width as int,
                k,
            ),
{
    let ghost start = canvas@;
    let len: usize = if canvas.len() < dimmed.len() {
        canvas.len()
    } else {
        dimmed.len()
    };
    copy_bytes(canvas, dimmed, 0, len);
    if let Some(rect) = highlight {
        let x1: u32 = clamp_low(rect.0, width);
        let y1: u32 = clamp_low(rect.1, height);
        let x2: u32 = clamp_high(rect.0, rect.2, width);
        let y2: u32 = clamp_high(rect.1, rect.3, height);
        if x1 >= x2 || y1 >= y2 {
            return;
        }
        light_rows(canvas, normal, width, height, x1, y1, x2, y2);
        paint_border(canvas, width, height, x1, y1, x2, y2, border_color, border_width);
    }
}

// ── The two images of an output ──────────────────────────────────

/// The number of rows in a screenshot of `len` bytes. The length is counted modulo 2^32.
pub open spec fn rows_in(len: nat, stride: int) -> int {
    (len as u32) as int / stride
}

/// Where byte `k` of the image of an output comes from: the place of its pixel in the screenshot,
/// if the screenshot holds that pixel.
pub open spec fn source_of(
    shot_len: nat,
    stride: int,
    shot_width: int,
    offset_x: int,
    offset_y: int,
    width: int,
    k: int,
) -> Option<int> {
    let x = offset_x + column_of(k, width);
    let y = offset_y + row_of(k, width);
    let place = y * stride + x * 4;
    if x < shot_width && y < rows_in(shot_len, stride) && place + 3 < shot_len {
        Some(place)
    } else {
        None
    }
}

/// Byte `k` of the image of an output: that of the screenshot, zero outside of it.
pub open spec fn normal_byte(shot: Seq<u8>, source: Option<int>, k: int) -> u8 {
    match source {
        Some(place) => shot[place + k % 4],
        None => 0,
    }
}

/// Byte `k` of the dimmed image of an output: the colours dimmed by a table, alpha as it is.
pub open spec fn dim_byte(shot: Seq<u8>, dim: Seq<u8>, source: Option<int>, k: int) -> u8 {
    match source {
        Some(place) => if k % 4 == 3 {
            shot[place + 3]
        } else {
            dim[shot[place + k % 4] as int]
        },
        None => 0,
    }
}

/// Copies the part of a screenshot that an output shows, once as it is and once dimmed. The table
/// `dim` gives the dimmed value of each byte.
pub fn precompute_overlay(
    ss_data: &[u8],
    ss_stride: u32,
    ss_width: u32,
    ss_offset_x: u32,
    ss_offset_y: u32,
    phys_w: u32,
    phys_h: u32,
    dim: &[u8; 256],
) -> (r: (Vec<u8>, Vec<u8>))
    requires
        ss_stride > 0,
        phys_w * phys_h * 4 <= usize::MAX,
    ensures
        r.0@.len() == phys_w * phys_h * 4,
        r.1@.len() == phys_w * phys_h * 4,
        forall|k: int|
            0 <= k < phys_w * phys_h * 4 ==> #[trigger] r.0@[k] == normal_byte(
                ss_data@,
                source_of(
                    ss_data@.len(),
                    ss_stride as int,
                    ss_width as int,
                    ss_offset_x as int,
                    ss_offset_y as int,
                    phys_w as int,
                    k,
                ),
                k,
            ),
        forall|k: int|
            0 <= k < phys_w * phys_h * 4 ==> #[trigger] r.1@[k] == dim_byte(
                ss_data@,
                dim@,
                source_of(
                    ss_data@.len(),
                    ss_stride as int,
                    ss_width as int,
                    ss_offset_x as int,
                    ss_offset_y as int,
                    phys_w as int,
                    k,
                ),
                k,
            ),
{
    let size: usize = phys_w as usize * phys_h as usize * 4;
    let mut normal: Vec<u8> = Vec::with_capacity(size);
    let mut dimmed: Vec<u8> = Vec::with_capacity(size);
    let ss_h: u32 = ss_data.len() as u32 / ss_stride;
    let ghost source = |k: int|
        source_of(
            ss_data@.len(),
            ss_stride as int,
            ss_width as int,
            ss_offset_x as int,
            ss_offset_y as int,
            phys_w as int,
            k,
        );
    let mut py: u32 = 0;
    while py < phys_h
        invariant
            ss_stride > 0,
            ss_h == rows_in(ss_data@.len(), ss_stride as int),
            py <= phys_h,
            normal@.len() == py * phys_w * 4,
            dimmed@.len() == py * phys_w * 4,
            source == |k: int|
                source_of(
                    ss_data@.len(),
                    ss_stride as int,
                    ss_width as int,
                    ss_offset_x as int,
                    ss_offset_y as int,
                    phys_w as int,
                    k,
                ),
            forall|k: int|
                0 <= k < normal@.len() ==> #[trigger] normal@[k] == normal_byte(
                    ss_data@,
                    source(k),
                    k,
                ),
            forall|k: int|
                0 <= k < dimmed@.len() ==> #[trigger] dimmed@[k] == dim_byte(
                    ss_data@,
                    dim@,
                    source(k),
                    k,
                ),
        decreases phys_h - py,
    {
        let sy: u64 = ss_offset_y as u64 + py as u64;
        let mut px: u32 = 0;
        while px < phys_w
            invariant
                ss_stride > 0,
                ss_h == rows_in(ss_data@.len(), ss_stride as int),
                py < phys_h,
                px <= phys_w,
                sy == ss_offset_y + py,
                normal@.len() == (py * phys_w + px) * 4,
                dimmed@.len() == (py * phys_w + px) * 4,
                source == |k: int|
                    source_of(
                        ss_data@.len(),
                        ss_stride as int,
                        ss_width as int,
                        ss_offset_x as int,
                        ss_offset_y as int,
                        phys_w as int,
                        k,
                    ),
                forall|k: int|
                    0 <= k < normal@.len() ==> #[trigger] normal@[k] == normal_byte(
                        ss_data@,
                        source(k),
                        k,
                    ),
                forall|k: int|
                    0 <= k < dimmed@.len() ==> #[trigger] dimmed@[k] == dim_byte(
                        ss_data@,
                        dim@,
                        source(k),
                        k,
                    ),
            decreases phys_w - px,
        {
            let sx: u64 = ss_offset_x as u64 + px as u64;
            let ghost before = normal@.len() as int;
            proof {
                assert forall|k: int| before <= k < before + 4 implies column_of(k, phys_w as int)
                    == px && row_of(k, phys_w as int) == py by {
                    lemma_pixel(k, phys_w as int, py as int, px as int);
                }
                if sy < ss_h {
                    lemma_rows_fit(ss_data@.len(), ss_stride as int, sy as int);
                }
            }
            let mut shown: bool = false;
            let mut si: usize = 0;
            if sy < ss_h as u64 && sx < ss_width as u64 {
                let place: u64 = sy * ss_stride as u64 + sx * 4;
                if place + 3 < ss_data.len() as u64 {
                    shown = true;
                    si = place as usize;
                }
            }
            if shown {
                let b: u8 = ss_data[si];
                let g: u8 = ss_data[si + 1];
                let r: u8 = ss_data[si + 2];
                let a: u8 = ss_data[si + 3];
                push_pixel(&mut normal, b, g, r, a);
                push_pixel(&mut dimmed, dim[b as usize], dim[g as usize], dim[r as usize], a);
            } else {
                push_pixel(&mut normal, 0, 0, 0, 0);
                push_pixel(&mut dimmed, 0, 0, 0, 0);
            }
            px = px + 1;
        }
        proof {
            lemma_row_start(py as int, phys_w as int, phys_h as int);
        }
        py = py + 1;
    }
    assert(phys_h * phys_w == phys_w * phys_h) by (nonlinear_arith);
    (normal, dimmed)
}

proof fn lemma_rows_fit(len: nat, stride: int, y: int)
    requires
        stride > 0,
        0 <= y < rows_in(len, stride),
    ensures
        0 <= y * stride <= u32::MAX,
{
    let n = (len as u32) as int;
    lemma_fundamental_div_mod(n, stride);
    assert(0 <= y * stride <= n) by (nonlinear_arith)
        requires
            0 <= y < n / stride,
            n == stride * (n / stride) + n % stride,
            n % stride >= 0,
            stride > 0,
    ;
}

fn push_pixel(buffer: &mut Vec<u8>, a: u8, b: u8, c: u8, d: u8)
    ensures
        final(buffer)@ == old(buffer)@ + seq![a, b, c, d],
{
    buffer.push(a);
    buffer.push(b);
    buffer.push(c);
    buffer.push(d);
    assert(buffer@ =~= old(buffer)@ + seq![a, b, c, d]);
}

// ── The region to save ───────────────────────────────────────────

/// A part of a screenshot, its bytes in the order red, green, blue, alpha.
#[derive(Debug, Clone)]
pub struct Crop {
    pub width: u32,
    pub height: u32,
    pub rgba: Vec<u8>,
}

/// A region that holds no pixel of the screenshot.
#[derive(Debug, Clone, Copy, PartialEq, Eq, Structural)]
pub struct EmptySelection;

/// The smaller of two numbers.
pub open spec fn least(a: int, b: int) -> int {
    if a < b {
        a
    } else {
        b
    }
}

/// Where a region starts, moved to the last pixel if it starts beyond it.
pub open spec fn region_start(start: int, limit: int) -> int {
    least(start, if limit > 0 {
        limit - 1
    } else {
        0
    })
}

/// How far a region reaches, cut to what there is from its start.
pub open spec fn region_len(start: int, len: int, limit: int) -> int {
    least(len, limit - region_start(start, limit))
}

/// Tells the size of a region, cut to the screenshot.
pub fn region_size(
    ss_data: &[u8],
    ss_width: u32,
    ss_stride: u32,
    px: u32,
    py: u32,
    pw: u32,
    ph: u32,
) -> (r: (u32, u32))
    requires
        ss_stride > 0,
    ensures
        r.0 == region_len(px as int, pw as int, ss_width as int),
        r.1 == region_len(py as int, ph as int, rows_in(ss_data@.len(), ss_stride as int)),
{
    let rows: u32 = ss_data.len() as u32 / ss_stride;
    let x: u32 = start_in(px, ss_width);
    let y: u32 = start_in(py, rows);
    let w: u32 = if pw < ss_width - x {
        pw
    } else {
        ss_width - x
    };
    let h: u32 = if ph < rows - y {
        ph
    } else {
        rows - y
    };
    (w, h)
}

/// Byte `k` of a region of this width that starts at the pixel `x`, `y`: red and blue change
/// places. Where the screenshot has no such pixel it is zero.
pub open spec fn crop_byte(shot: Seq<u8>, stride: int, x: int, y: int, width: int, k: int) -> u8 {
    let place = (y + row_of(k, width)) * stride + (x + column_of(k, width)) * 4;
    if place + 3 < shot.len() {
        if k % 4 == 0 {
            shot[place + 2]
        } else if k % 4 == 2 {
            shot[place]
        } else {
            shot[place + k % 4]
        }
    } else {
        0
    }
}

/// The result is the region, cut to the screenshot, or an error if nothing is left of it.
pub open spec fn is_cut(
    shot: Seq<u8>,
    shot_width: int,
    stride: int,
    px: int,
    py: int,
    pw: int,
    ph: int,
    r: Result<Crop, EmptySelection>,
) -> bool {
    let rows = rows_in(shot.len(), stride);
    let x = region_start(px, shot_width);
    let y = region_start(py, rows);
    let w = region_len(px, pw, shot_width);
    let h = region_len(py, ph, rows);
    if w == 0 || h == 0 {
        r is Err
    } else {
        &&& r matches Ok(crop)
        &&& crop.width == w
        &&& crop.height == h
        &&& crop.rgba@.len() == w * h * 4
        &&& forall|k: int|
            0 <= k < w * h * 4 ==> #[trigger] crop.rgba@[k] == crop_byte(shot, stride, x, y, w, k)
    }
}

/// Cuts a region out of a screenshot.
pub fn crop(
    ss_data: &[u8],
    ss_width: u32,
    ss_stride: u32,
    px: u32,
    py: u32,
    pw: u32,
    ph: u32,
) -> (r: Result<Crop, EmptySelection>)
    requires
        ss_stride > 0,
        region_len(px as int, pw as int, ss_width as int) * region_len(
            py as int,
            ph as int,
            rows_in(ss_data@.len(), ss_stride as int),
        ) * 4 <= usize::MAX,
    ensures
        is_cut(
            ss_data@,
            ss_width as int,
            ss_stride as int,
            px as int,
            py as int,
            pw as int,
            ph as int,
            r,
        ),
{
    let rows: u32 = ss_data.len() as u32 / ss_stride;
    let x: u32 = start_in(px, ss_width);
    let y: u32 = start_in(py, rows);
    let (w, h): (u32, u32) = region_size(ss_data, ss_width, ss_stride, px, py, pw, ph);
    if w == 0 || h == 0 {
        return Err(EmptySelection);
    }
    let mut rgba: Vec<u8> = Vec::with_capacity(w as usize * h as usize * 4);
    let mut row: u32 = 0;
    while row < h
        invariant
            ss_stride > 0,
            rows == rows_in(ss_data@.len(), ss_stride as int),
            x + w <= ss_width,
            y + h <= rows,
            w > 0,
            row <= h,
            rgba@.len() == row * w * 4,
            forall|k: int|
                0 <= k < rgba@.len() ==> #[trigger] rgba@[k] == crop_byte(
                    ss_data@,
                    ss_stride as int,
                    x as int,
                    y as int,
                    w as int,
                    k,
                ),
        decreases h - row,
    {
        proof {
            lemma_rows_fit(ss_data@.len(), ss_stride as int, y + row);
        }
        let line: u64 = (y + row) as u64 * ss_stride as u64;
        let mut col: u32 = 0;
        while col < w
            invariant
                ss_stride > 0,
                x + w <= ss_width,
                y + h <= rows,
                w > 0,
                row < h,
                col <= w,
                line == (y + row) * ss_stride,
                line <= u32::MAX,
                rgba@.len() == (row * w + col) * 4,
                forall|k: int|
                    0 <= k < rgba@.len() ==> #[trigger] rgba@[k] == crop_byte(
                        ss_data@,
                        ss_stride as int,
                        x as int,
                        y as int,
                        w as int,
                        k,
                    ),
            decreases w - col,
        {
            let ghost before = rgba@.len() as int;
            proof {
                assert forall|k: int| before <= k < before + 4 implies column_of(k, w as int) == col
                    && row_of(k, w as int) == row by {
                    lemma_pixel(k, w as int, row as int, col as int);
                }
            }
            let place: u64 = line + (x + col) as u64 * 4;
            if place + 3 < ss_data.len() as u64 {
                let si: usize = place as usize;
                push_pixel(&mut rgba, ss_data[si + 2], ss_data[si + 1], ss_data[si], ss_data[si + 3]);
            } else {
                push_pixel(&mut rgba, 0, 0, 0, 0);
            }
            col = col + 1;
        }
        proof {
            lemma_row_start(row as int, w as int, h as int);
        }
        row = row + 1;
    }
    assert(h * w == w * h) by (nonlinear_arith);
    Ok(Crop { width: w, height: h, rgba })
}

fn start_in(start: u32, limit: u32) -> (r: u32)
    ensures
        r == region_start(start as int, limit as int),
        r <= limit,
{
    let last: u32 = if limit > 0 {
        limit - 1
    } else {
        0
    };
    if start < last {
        start
    } else {
        last
    }
}

// ── What holds of every rendering ────────────────────────────────

/// Byte `k` of a buffer of this size belongs to one of its pixels.
proof fn lemma_in_buffer(k: int, width: int, height: int)
    requires
        0 <= k < width * height * 4,
        0 <= width,
        0 <= height,
    ensures
        0 < width,
        0 <= column_of(k, width) < width,
        0 <= row_of(k, width) < height,
        k / 4 == row_of(k, width) * width + column_of(k, width),
{
    let p = k / 4;
    assert(0 < width) by (nonlinear_arith)
        requires
            0 <= k < width * height * 4,
            0 <= width,
            0 <= height,
    ;
    lemma_fundamental_div_mod(p, width);
    lemma_mod_bound(p, width);
    lemma_div_pos_is_pos(p, width);
    let (r, c) = (p / width, p % width);
    assert(width * r == r * width) by (nonlinear_arith);
    assert(p < width * height) by (nonlinear_arith)
        requires
            p == k / 4,
            k < width * height * 4,
    ;
    assert(r < height) by (nonlinear_arith)
        requires
            r * width <= p < width * height,
            0 < width,
    ;
}

/// An overlay has three parts: the highlight shows the picture as it is, the border round it has its
/// colour, and everything else is dimmed.
pub proof fn overlay_has_three_parts(
    old_canvas: Seq<u8>,
    normal: Seq<u8>,
    dimmed: Seq<u8>,
    width: int,
    height: int,
    rect: (i32, i32, u32, u32),
    border_color: Seq<u8>,
    border_width: int,
    k: int,
)
    requires
        0 <= width,
        0 <= height,
        0 <= border_width,
        old_canvas.len() == width * height * 4,
        normal.len() == old_canvas.len(),
        dimmed.len() == old_canvas.len(),
        0 <= k < old_canvas.len(),
    ensures
        ({
            let clip = clip_of(rect, width, height);
            let (x, y) = (column_of(k, width), row_of(k, width));
            rendered_byte(
                old_canvas,
                normal,
                dimmed,
                width,
                height,
                Some(rect),
                border_color,
                border_width,
                k,
            ) == (if clip.holds(x, y) {
                normal[k]
            } else if !clip.is_empty() && clip.borders(x, y, border_width) {
                border_color[k % 4]
            } else {
                dimmed[k]
            })
        }),
{
    let clip = clip_of(rect, width, height);
    let (x, y) = (column_of(k, width), row_of(k, width));
    lemma_in_buffer(k, width, height);
    if clip.holds(x, y) {
        assert((y * width + clip.x2) * 4 <= width * height * 4) by (nonlinear_arith)
            requires
                0 <= y < height,
                0 <= clip.x2 <= width,
        ;
    }
    assert(old_canvas.len() % 4 == 0);
}

/// An output of the size of the screenshot, at its corner, shows the screenshot as it is.
pub proof fn whole_shot_is_shown(shot: Seq<u8>, width: int, height: int, k: int)
    requires
        0 <= width,
        0 <= height,
        shot.len() == width * height * 4,
        shot.len() <= u32::MAX,
        0 <= k < shot.len(),
    ensures
        normal_byte(shot, source_of(shot.len(), width * 4, width, 0, 0, width, k), k) == shot[k],
{
    lemma_in_buffer(k, width, height);
    let (x, y) = (column_of(k, width), row_of(k, width));
    assert(shot.len() == height * (width * 4) + 0) by (nonlinear_arith)
        requires
            shot.len() == width * height * 4,
    ;
    lemma_fundamental_div_mod_converse(shot.len() as int, width * 4, height, 0);
    assert(y * (width * 4) + x * 4 == (y * width + x) * 4) by (nonlinear_arith);
}

/// A region of a screenshot whose rows do not overlap is no larger than the screenshot.
pub proof fn regions_fit_the_shot(
    len: nat,
    width: int,
    stride: int,
    px: int,
    py: int,
    pw: int,
    ph: int,
)
    requires
        0 <= width,
        0 <= px,
        0 <= py,
        0 <= pw,
        0 <= ph,
        0 < stride,
        width * 4 <= stride,
    ensures
        region_len(px, pw, width) * region_len(py, ph, rows_in(len, stride)) * 4 <= len,
{
    let bytes = (len as u32) as int;
    let rows = rows_in(len, stride);
    let (w, h) = (region_len(px, pw, width), region_len(py, ph, rows));
    lemma_fundamental_div_mod(bytes, stride);
    lemma_mod_bound(bytes, stride);
    lemma_div_pos_is_pos(bytes, stride);
    assert(w * h * 4 <= stride * rows) by (nonlinear_arith)
        requires
            0 <= w <= width,
            0 <= h <= rows,
            width * 4 <= stride,
    ;
}

/// Dimming keeps alpha, and with a table that keeps every byte it keeps the picture.
pub proof fn dimming_is_by_the_table(shot: Seq<u8>, dim: Seq<u8>, source: Option<int>, k: int)
    ensures
        k % 4 == 3 ==> dim_byte(shot, dim, source, k) == normal_byte(shot, source, k),
        (forall|b: u8| #[trigger] dim[b as int] == b) ==> dim_byte(shot, dim, source, k)
            == normal_byte(shot, source, k),
{
}

/// Where the bytes of the pixel in column `x` of row `y` are.
proof fn lemma_place(width: int, x: int, y: int, c: int)
    requires
        0 <= x < width,
        0 <= y,
        0 <= c < 4,
    ensures
        ({
            let k = (y * width + x) * 4 + c;
            &&& 0 <= k
            &&& k / 4 == y * width + x
            &&& k % 4 == c
            &&& row_of(k, width) == y
            &&& column_of(k, width) == x
        }),
{
    assert(0 <= y * width) by (nonlinear_arith)
        requires
            0 <= y,
            0 <= width,
    ;
    lemma_pixel((y * width + x) * 4 + c, width, y, x);
}

/// What byte `c` of the pixel in column `x` of row `y` is once an overlay is rendered. The highlight
/// covers the columns from `x1` up to `x2` and the rows from `y1` up to `y2` of the buffer.
///
/// Inside of the highlight the pixel is that of the picture, provided that the buffers reach to the
/// end of the highlight in that row. Outside of it the pixel has the border's colour if and only if
/// it is no farther than the border's width from the highlight in either direction, and wholly in
/// the buffer. Every other pixel is dimmed, as is every pixel where the highlight covers none.
pub proof fn pixels_of_an_overlay(
    old_canvas: Seq<u8>,
    normal: Seq<u8>,
    dimmed: Seq<u8>,
    width: int,
    height: int,
    rect: (i32, i32, u32, u32),
    border_color: Seq<u8>,
    border_width: int,
    x1: int,
    y1: int,
    x2: int,
    y2: int,
    x: int,
    y: int,
    c: int,
)
    requires
        0 <= x < width,
        0 <= height,
        0 <= y,
        0 <= c < 4,
        0 <= border_width,
        (y * width + x) * 4 + c < old_canvas.len(),
        x1 == (if rect.0 < 0 {
            0
        } else if rect.0 > width {
            width
        } else {
            rect.0 as int
        }),
        y1 == (if rect.1 < 0 {
            0
        } else if rect.1 > height {
            height
        } else {
            rect.1 as int
        }),
        x2 == (if rect.0 + rect.2 < 0 {
            0
        } else if rect.0 + rect.2 > width {
            width
        } else {
            rect.0 + rect.2
        }),
        y2 == (if rect.1 + rect.3 < 0 {
            0
        } else if rect.1 + rect.3 > height {
            height
        } else {
            rect.1 + rect.3
        }),
    ensures
        ({
            let k = (y * width + x) * 4 + c;
            let is_inside = x1 <= x < x2 && y1 <= y < y2;
            let is_near = x1 - border_width <= x < x2 + border_width && y1 - border_width <= y < y2
                + border_width;
            let reaches = (y * width + x2) * 4 <= normal.len() && (y * width + x2) * 4
                <= old_canvas.len();
            let is_whole = y < height && (y * width + x) * 4 + 3 < old_canvas.len();
            rendered_byte(
                old_canvas,
                normal,
                dimmed,
                width,
                height,
                Some(rect),
                border_color,
                border_width,
                k,
            ) == (if x1 < x2 && y1 < y2 && is_inside && reaches {
                normal[k]
            } else if x1 < x2 && y1 < y2 && !is_inside && is_near && is_whole {
                border_color[c]
            } else if k < dimmed.len() {
                dimmed[k]
            } else {
                old_canvas[k]
            })
        }),
{
    lemma_place(width, x, y, c);
}

/// Without a highlight every byte is dimmed, as far as there are dimmed bytes.
pub proof fn pixels_without_a_highlight(
    old_canvas: Seq<u8>,
    normal: Seq<u8>,
    dimmed: Seq<u8>,
    width: int,
    height: int,
    border_color: Seq<u8>,
    border_width: int,
    k: int,
)
    ensures
        k < dimmed.len() ==> rendered_byte(
            old_canvas,
            normal,
            dimmed,
            width,
            height,
            None,
            border_color,
            border_width,
            k,
        ) == dimmed[k],
        k >= dimmed.len() ==> rendered_byte(
            old_canvas,
            normal,
            dimmed,
            width,
            height,
            None,
            border_color,
            border_width,
            k,
        ) == old_canvas[k],
{
}

/// The screenshot has as many whole rows as fit in it.
pub proof fn rows_fill_the_shot(len: nat, stride: int)
    requires
        len <= u32::MAX,
        0 < stride,
    ensures
        rows_in(len, stride) * stride <= len < (rows_in(len, stride) + 1) * stride,
        0 <= rows_in(len, stride),
{
    let n = len as int;
    lemma_fundamental_div_mod(n, stride);
    lemma_mod_bound(n, stride);
    lemma_div_pos_is_pos(n, stride);
    let q = n / stride;
    assert(q * stride <= n < (q + 1) * stride) by (nonlinear_arith)
        requires
            n == stride * q + n % stride,
            0 <= n % stride < stride,
    ;
}

/// The pixel in column `x` of row `y` of an output that begins at the pixel `ox`, `oy` of the
/// screenshot is the pixel of the screenshot there. Its dimmed image has the colours by the table and
/// the same alpha. Beyond the screenshot's columns and rows, both are zero.
pub proof fn outputs_show_their_part(
    shot: Seq<u8>,
    dim: Seq<u8>,
    stride: int,
    shot_width: int,
    rows: int,
    ox: int,
    oy: int,
    width: int,
    x: int,
    y: int,
    c: int,
)
    requires
        shot.len() <= u32::MAX,
        0 < stride,
        0 <= rows,
        rows * stride <= shot.len() < (rows + 1) * stride,
        0 <= ox,
        0 <= oy,
        0 <= x < width,
        0 <= y,
        0 <= c < 4,
    ensures
        ({
            let k = (y * width + x) * 4 + c;
            let place = (oy + y) * stride + (ox + x) * 4;
            let source = source_of(shot.len(), stride, shot_width, ox, oy, width, k);
            if ox + x < shot_width && oy + y < rows && place + 3 < shot.len() {
                &&& normal_byte(shot, source, k) == shot[place + c]
                &&& dim_byte(shot, dim, source, k) == (if c < 3 {
                    dim[shot[place + c] as int]
                } else {
                    shot[place + 3]
                })
            } else {
                normal_byte(shot, source, k) == 0 && dim_byte(shot, dim, source, k) == 0
            }
        }),
{
    lemma_place(width, x, y, c);
    rows_fill_the_shot(shot.len(), stride);
    let q = rows_in(shot.len(), stride);
    let n = shot.len() as int;
    assert(q == rows) by (nonlinear_arith)
        requires
            q * stride <= n < (q + 1) * stride,
            rows * stride <= n < (rows + 1) * stride,
            0 < stride,
    ;
}

/// A region is cut to the screenshot. It starts where it should, or at the last pixel if that is
/// beyond it; and it reaches as far as it should, or to the end of the screenshot.
pub proof fn regions_are_cut_to_the_shot(start: int, len: int, limit: int)
    requires
        0 <= start,
        0 <= len,
        0 <= limit,
    ensures
        start < limit ==> region_start(start, limit) == start,
        start >= limit > 0 ==> region_start(start, limit) == limit - 1,
        limit == 0 ==> region_start(start, limit) == 0 && region_len(start, len, limit) == 0,
        0 <= region_len(start, len, limit) <= len,
        region_start(start, limit) + region_len(start, len, limit) <= limit,
        region_start(start, limit) + len <= limit ==> region_len(start, len, limit) == len,
        region_start(start, limit) + len > limit ==> region_start(start, limit) + region_len(
            start,
            len,
            limit,
        ) == limit,
{
}

/// The pixel in column `col` of row `row` of a region is that of the screenshot, with red and blue in
/// each other's places; zero, where the screenshot does not hold it wholly.
pub proof fn pixels_of_a_region(
    shot: Seq<u8>,
    stride: int,
    x: int,
    y: int,
    width: int,
    col: int,
    row: int,
)
    requires
        0 <= col < width,
        0 <= row,
    ensures
        ({
            let k = (row * width + col) * 4;
            let place = (y + row) * stride + (x + col) * 4;
            if place + 3 < shot.len() {
                &&& crop_byte(shot, stride, x, y, width, k) == shot[place + 2]
                &&& crop_byte(shot, stride, x, y, width, k + 1) == shot[place + 1]
                &&& crop_byte(shot, stride, x, y, width, k + 2) == shot[place]
                &&& crop_byte(shot, stride, x, y, width, k + 3) == shot[place + 3]
            } else {
                forall|c: int|
                    0 <= c < 4 ==> #[trigger] crop_byte(shot, stride, x, y, width, k + c) == 0
            }
        }),
{
    lemma_place(width, col, row, 0);
    lemma_place(width, col, row, 1);
    lemma_place(width, col, row, 2);
    lemma_place(width, col, row, 3);
    let k = (row * width + col) * 4;
    let place = (y + row) * stride + (x + col) * 4;
    assert forall|c: int| 0 <= c < 4 && !(place + 3 < shot.len()) implies #[trigger] crop_byte(
        shot,
        stride,
        x,
        y,
        width,
        k + c,
    ) == 0 by {
        lemma_place(width, col, row, c);
    }
}

/// A region that lies in the screenshot is cut out whole: the pixel in column `col` of row `row` has
/// the red, green, blue and alpha of the pixel of the screenshot that many columns and rows from the
/// region's corner.
pub proof fn regions_are_cut_out(
    shot: Seq<u8>,
    width: int,
    stride: int,
    rows: int,
    px: int,
    py: int,
    pw: int,
    ph: int,
    r: Result<Crop, EmptySelection>,
    col: int,
    row: int,
)
    requires
        is_cut(shot, width, stride, px, py, pw, ph, r),
        shot.len() <= u32::MAX,
        0 <= width,
        width * 4 <= stride,
        0 < stride,
        0 <= rows,
        rows * stride <= shot.len() < (rows + 1) * stride,
        0 <= px,
        0 <= py,
        px + pw <= width,
        py + ph <= rows,
        0 <= col < pw,
        0 <= row < ph,
    ensures
        r matches Ok(crop) && {
            let to = (row * pw + col) * 4;
            let from = (py + row) * stride + (px + col) * 4;
            &&& crop.width == pw && crop.height == ph && crop.rgba@.len() == pw * ph * 4
            &&& crop.rgba@[to] == shot[from + 2]
            &&& crop.rgba@[to + 1] == shot[from + 1]
            &&& crop.rgba@[to + 2] == shot[from]
            &&& crop.rgba@[to + 3] == shot[from + 3]
        },
{
    rows_fill_the_shot(shot.len(), stride);
    let q = rows_in(shot.len(), stride);
    let n = shot.len() as int;
    assert(q == rows) by (nonlinear_arith)
        requires
            q * stride <= n < (q + 1) * stride,
            rows * stride <= n < (rows + 1) * stride,
            0 < stride,
    ;
    let from = (py + row) * stride + (px + col) * 4;
    assert(0 <= from && from + 3 < n) by (nonlinear_arith)
        requires
            from == (py + row) * stride + (px + col) * 4,
            0 <= py + row < rows,
            0 <= px + col < width,
            width * 4 <= stride,
            rows * stride <= n,
    ;
    let to = (row * pw + col) * 4;
    assert(0 <= to && to + 3 < pw * ph * 4) by (nonlinear_arith)
        requires
            to == (row * pw + col) * 4,
            0 <= row < ph,
            0 <= col < pw,
    ;
    pixels_of_a_region(shot, stride, px, py, pw, col, row);
}

/// A region without width or height is refused, as is one of a screenshot without columns; any other
/// is cut out.
pub proof fn empty_regions_are_refused(
    shot: Seq<u8>,
    width: int,
    stride: int,
    px: int,
    py: int,
    pw: int,
    ph: int,
    r: Result<Crop, EmptySelection>,
)
    requires
        is_cut(shot, width, stride, px, py, pw, ph, r),
        0 <= width,
        0 < stride <= shot.len() <= u32::MAX,
        0 <= px,
        0 <= py,
        0 <= pw,
        0 <= ph,
    ensures
        r is Err <==> pw == 0 || ph == 0 || width == 0,
{
    rows_fill_the_shot(shot.len(), stride);
    let q = rows_in(shot.len(), stride);
    assert(q > 0) by (nonlinear_arith)
        requires
            shot.len() < (q + 1) * stride,
            stride <= shot.len(),
            0 < stride,
            0 <= q,
    ;
}

} // verus!
