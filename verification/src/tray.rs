//! The icon in the system tray: what it looks like, its menu, and how it is registered.
use vstd::arithmetic::power2::*;
use vstd::prelude::*;

verus! {

/// What the daemon can be asked to do.
#[derive(Debug, Clone, Copy, PartialEq, Eq, Structural)]
pub enum Action {
    TakeScreenshot,
    OpenLastScreenshot,
    OpenFolder,
    OpenConfig,
    ReloadConfig,
    Quit,
}

/// The icon in the system tray.
pub struct TrayIcon {}

/// A picture for the tray: its bytes are alpha, red, green and blue of each pixel, row by row.
#[derive(Debug, Clone)]
pub struct Icon {
    pub width: i32,
    pub height: i32,
    pub data: Vec<u8>,
}

/// An entry of the menu.
#[derive(Debug, Clone)]
pub enum MenuEntry {
    Item { label: String, icon_name: String, action: Action },
    Separator,
}

/// The width and the height of the icon.
pub const ICON_SIZE: i32 = 24;

// ── The picture ──────────────────────────────────────────────────

/// The body of the camera.
pub open spec fn in_body(x: int, y: int) -> bool {
    3 <= x < 21 && 8 <= y < 20
}

/// The bump of its viewfinder.
pub open spec fn in_bump(x: int, y: int) -> bool {
    8 <= x < 14 && 6 <= y < 9
}

/// The square of the distance to the centre of the lens.
pub open spec fn lens_distance(x: int, y: int) -> int {
    (x - 12) * (x - 12) + (y - 14) * (y - 14)
}

/// The colour of a pixel: alpha, red, green, blue. The rings of the lens end where the distance to
/// its centre reaches 1.5, 3.2 and 4.5.
pub open spec fn icon_pixel(x: int, y: int) -> Seq<u8> {
    if in_body(x, y) && lens_distance(x, y) * 100 < 225 {
        seq![255u8, 180u8, 210u8, 240u8]
    } else if in_body(x, y) && lens_distance(x, y) * 100 < 1024 {
        seq![255u8, 100u8, 160u8, 220u8]
    } else if in_body(x, y) && lens_distance(x, y) * 100 < 2025 {
        seq![255u8, 60u8, 60u8, 70u8]
    } else if in_bump(x, y) {
        seq![255u8, 200u8, 200u8, 210u8]
    } else if in_body(x, y) {
        seq![255u8, 220u8, 220u8, 230u8]
    } else {
        seq![0u8, 0u8, 0u8, 0u8]
    }
}

fn pixel(x: i32, y: i32) -> (r: [u8; 4])
    requires
        0 <= x < ICON_SIZE,
        0 <= y < ICON_SIZE,
    ensures
        r@ == icon_pixel(x as int, y as int),
{
    let body: bool = 3 <= x && x < 21 && 8 <= y && y < 20;
    let bump: bool = 8 <= x && x < 14 && 6 <= y && y < 9;
    let (dx, dy): (i32, i32) = (x - 12, y - 14);
    proof {
        assert(0 <= dx * dx <= 144 && 0 <= dy * dy <= 196) by (nonlinear_arith)
            requires
                -12 <= dx <= 11,
                -14 <= dy <= 9,
        ;
    }
    let distance: i32 = (dx * dx + dy * dy) * 100;
    let color: [u8; 4] = if body && distance < 225 {
        [255, 180, 210, 240]
    } else if body && distance < 1024 {
        [255, 100, 160, 220]
    } else if body && distance < 2025 {
        [255, 60, 60, 70]
    } else if bump {
        [255, 200, 200, 210]
    } else if body {
        [255, 220, 220, 230]
    } else {
        [0, 0, 0, 0]
    };
    assert(color@ =~= icon_pixel(x as int, y as int));
    color
}

// ── The menu ─────────────────────────────────────────────────────

/// The entry has this label and this icon, and asks for this action.
pub open spec fn is_item(e: MenuEntry, label: Seq<char>, icon_name: Seq<char>, action: Action) -> bool {
    e matches MenuEntry::Item { label: l, icon_name: i, action: a } && l@ == label && i@
        == icon_name && a == action
}

fn item(label: &str, icon_name: &str, action: Action) -> (r: MenuEntry)
    ensures
        is_item(r, label@, icon_name@, action),
{
    MenuEntry::Item { label: label.to_owned(), icon_name: icon_name.to_owned(), action }
}

impl TrayIcon {
    /// The name of the icon on the bus.
    pub fn id(&self) -> (r: String)
        ensures
            r@ == "sshot"@,
    {
        "sshot".to_owned()
    }

    /// The icon has no name of a theme: it brings its own picture.
    pub fn icon_name(&self) -> (r: String)
        ensures
            r@ == Seq::<char>::empty(),
    {
        String::new()
    }

    /// The title of the icon.
    pub fn title(&self) -> (r: String)
        ensures
            r@ == "Screenshot"@,
    {
        "Screenshot".to_owned()
    }

    /// What a click on the icon asks for.
    pub fn activate(&self) -> (r: Action)
        ensures
            r == Action::OpenLastScreenshot,
    {
        Action::OpenLastScreenshot
    }

    /// Draws the picture of the icon: a camera.
    pub fn icon_pixmap(&self) -> (r: Icon)
        ensures
            r.width == ICON_SIZE,
            r.height == ICON_SIZE,
            r.data@.len() == 2304,
            forall|k: int|
                0 <= k < 2304 ==> #[trigger] r.data@[k] == icon_pixel(
                    (k / 4) % 24,
                    (k / 4) / 24,
                )[k % 4],
    {
        let mut data: Vec<u8> = Vec::new();
        let mut y: i32 = 0;
        while y < ICON_SIZE
            invariant
                0 <= y <= ICON_SIZE,
                data@.len() == y * 96,
                forall|k: int|
                    0 <= k < y * 96 ==> #[trigger] data@[k] == icon_pixel(
                        (k / 4) % 24,
                        (k / 4) / 24,
                    )[k % 4],
            decreases ICON_SIZE - y,
        {
            let mut x: i32 = 0;
            while x < ICON_SIZE
                invariant
                    0 <= x <= ICON_SIZE,
                    0 <= y < ICON_SIZE,
                    data@.len() == y * 96 + x * 4,
                    forall|k: int|
                        0 <= k < y * 96 + x * 4 ==> #[trigger] data@[k] == icon_pixel(
                            (k / 4) % 24,
                            (k / 4) / 24,
                        )[k % 4],
                decreases ICON_SIZE - x,
            {
                let color: [u8; 4] = pixel(x, y);
                data.push(color[0]);
                data.push(color[1]);
                data.push(color[2]);
                data.push(color[3]);
                x = x + 1;
            }
            y = y + 1;
        }
        Icon { width: ICON_SIZE, height: ICON_SIZE, data }
    }

    /// Lists the entries of the menu.
    pub fn menu(&self) -> (r: Vec<MenuEntry>)
        ensures
            r@.len() == 7,
            is_item(r@[0], "Take Screenshot"@, "camera-photo"@, Action::TakeScreenshot),
            is_item(r@[1], "Open Screenshots Folder"@, "folder-pictures"@, Action::OpenFolder),
            r@[2] is Separator,
            is_item(r@[3], "Open Config"@, "preferences-other"@, Action::OpenConfig),
            is_item(r@[4], "Reload Config"@, "view-refresh"@, Action::ReloadConfig),
            r@[5] is Separator,
            is_item(r@[6], "Quit"@, "application-exit"@, Action::Quit),
    {
        let mut entries: Vec<MenuEntry> = Vec::new();
        entries.push(item("Take Screenshot", "camera-photo", Action::TakeScreenshot));
        entries.push(item("Open Screenshots Folder", "folder-pictures", Action::OpenFolder));
        entries.push(MenuEntry::Separator);
        entries.push(item("Open Config", "preferences-other", Action::OpenConfig));
        entries.push(item("Reload Config", "view-refresh", Action::ReloadConfig));
        entries.push(MenuEntry::Separator);
        entries.push(item("Quit", "application-exit", Action::Quit));
        entries
    }
}

// ── Registration ─────────────────────────────────────────────────

/// How often the icon tries to register.
pub const MAX_ATTEMPTS: u32 = 60;

/// What follows an attempt to register the icon.
#[derive(Debug, Clone, Copy, PartialEq, Eq, Structural)]
pub enum Next {
    /// The icon is there. `announce`: say so.
    Registered { announce: bool },
    /// Wait, and make another attempt. `report`: tell what went wrong.
    Retry { report: bool, attempt: u32 },
    /// Wait, and give up. `report`: tell what went wrong.
    GiveUp { report: bool },
}

/// A power of two.
pub open spec fn is_power_of_two(n: nat) -> bool
    decreases n,
{
    n == 1 || (n > 1 && n % 2 == 0 && is_power_of_two(n / 2))
}

/// What follows an attempt: a first success goes without a word, and failures are told of at
/// attempts that are powers of two.
pub open spec fn next_after(attempt: u32, registered: bool) -> Next {
    let report = is_power_of_two(attempt as nat);
    if registered {
        Next::Registered { announce: attempt > 1 }
    } else if attempt < MAX_ATTEMPTS {
        Next::Retry { report, attempt: (attempt + 1) as u32 }
    } else {
        Next::GiveUp { report }
    }
}

fn power_of_two(n: u32) -> (r: bool)
    ensures
        r == is_power_of_two(n as nat),
{
    let mut m: u32 = n;
    while m > 1 && m % 2 == 0
        invariant
            is_power_of_two(n as nat) == is_power_of_two(m as nat),
        decreases m,
    {
        m = m / 2;
    }
    m == 1
}

/// Decides what follows an attempt to register the icon.
pub fn after_attempt(attempt: u32, registered: bool) -> (r: Next)
    ensures
        r == next_after(attempt, registered),
{
    if registered {
        return Next::Registered { announce: attempt > 1 };
    }
    let report: bool = power_of_two(attempt);
    if attempt < MAX_ATTEMPTS {
        Next::Retry { report, attempt: attempt + 1 }
    } else {
        Next::GiveUp { report }
    }
}

/// The attempt that follows `failures` failures, the first being attempt 1.
pub open spec fn attempt_after(failures: nat) -> Option<u32>
    decreases failures,
{
    if failures == 0 {
        Some(1)
    } else {
        match attempt_after((failures - 1) as nat) {
            Some(attempt) => match next_after(attempt, false) {
                Next::Retry { attempt: next, .. } => Some(next),
                _ => None,
            },
            None => None,
        }
    }
}

/// The icon makes 60 attempts, numbered from 1, and no more.
pub proof fn registration_ends(failures: nat)
    ensures
        failures < MAX_ATTEMPTS ==> attempt_after(failures) == Some((failures + 1) as u32),
        failures >= MAX_ATTEMPTS ==> attempt_after(failures) is None,
    decreases failures,
{
    if failures > 0 {
        registration_ends((failures - 1) as nat);
    }
}

/// The numbers at which a failure is told of are the powers of two.
pub proof fn powers_in_detail(n: nat)
    ensures
        is_power_of_two(n) <==> exists|e: nat| n == #[trigger] pow2(e),
    decreases n,
{
    if n == 1 {
        lemma2_to64();
        assert(pow2(0) == n);
    } else if n > 1 && n % 2 == 0 {
        powers_in_detail(n / 2);
        if is_power_of_two(n / 2) {
            let e = choose|e: nat| n / 2 == #[trigger] pow2(e);
            lemma_pow2_unfold(e + 1);
            assert(pow2(e + 1) == n);
        }
        if exists|e: nat| n == #[trigger] pow2(e) {
            let e = choose|e: nat| n == #[trigger] pow2(e);
            lemma2_to64();
            lemma_pow2_unfold(e);
            assert(pow2((e - 1) as nat) == n / 2);
        }
    } else {
        assert forall|e: nat| n != #[trigger] pow2(e) by {
            lemma_pow2_pos(e);
            lemma2_to64();
            if e > 0 {
                lemma_pow2_unfold(e);
            }
        }
    }
}

/// What follows an attempt. A success is announced unless it is the first attempt. A failure is told
/// of at attempts that are powers of two, and followed by the next attempt up to the sixtieth, and by
/// none then.
pub proof fn attempts_in_detail(attempt: u32)
    ensures
        next_after(attempt, true) == (Next::Registered { announce: attempt > 1 }),
        attempt < 60 ==> (next_after(attempt, false) matches Next::Retry { report, attempt: next }
            && next == attempt + 1 && (report <==> exists|e: nat| attempt == #[trigger] pow2(e))),
        attempt >= 60 ==> (next_after(attempt, false) matches Next::GiveUp { report } && (report
            <==> exists|e: nat| attempt == #[trigger] pow2(e))),
{
    powers_in_detail(attempt as nat);
}

/// The icon is a camera: opaque in the body and in the bump of the viewfinder and clear elsewhere,
/// with rings in one colour each round the centre of the lens.
pub proof fn icons_in_detail(x: int, y: int, u: int, v: int)
    ensures
        icon_pixel(x, y).len() == 4,
        icon_pixel(x, y)[0] == 255 <==> (3 <= x < 21 && 8 <= y < 20) || (8 <= x < 14 && 6 <= y < 9),
        icon_pixel(x, y)[0] == 0 || icon_pixel(x, y)[0] == 255,
        icon_pixel(x, y)[0] == 0 ==> icon_pixel(x, y) == seq![0u8, 0u8, 0u8, 0u8],
        3 <= x < 21 && 8 <= y < 20 && 3 <= u < 21 && 8 <= v < 20 && !(8 <= x < 14 && y == 8) && !(8
            <= u < 14 && v == 8) && (x - 12) * (x - 12) + (y - 14) * (y - 14) == (u - 12) * (u - 12)
            + (v - 14) * (v - 14) ==> icon_pixel(x, y) == icon_pixel(u, v),
{
}

} // verus!
