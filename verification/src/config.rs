//! The configuration, and the names that it gives to files and directories.
use vstd::prelude::*;
use vstd::string::*;
use vstd::utf8::*;

use crate::clock::always_fills;
use crate::clock::local_now;
use crate::clock::random_byte;
use crate::clock::stamp;
use crate::clock::Moment;
use crate::text::alphanumeric;
use crate::text::byte_len;
use crate::text::byte_len_is_encoded_len;
use crate::text::byte_paths_in_detail;
use crate::text::chars_of;
use crate::text::cut;
use crate::text::cut_range;
use crate::text::cuts_in_detail;
use crate::text::is_alphanumeric;
use crate::text::is_space;
use crate::text::join_bytes;
use crate::text::join_path;
use crate::text::joined;
use crate::text::joined_bytes;
use crate::text::occurs_at;
use crate::text::paths_in_detail;
use crate::text::replace_all;
use crate::text::replaced;
use crate::text::replaced_adds_nothing_else;
use crate::text::replaced_at_occurrence;
use crate::text::replaced_keeps_other_text;
use crate::text::text_of;
use crate::text::trim_range;
use crate::text::trimmed;
use crate::text::trimmed_at_both_ends;
use crate::text::trimmed_is_part;
use crate::text::trimming_leaves_the_middle;
use crate::text::unicode_alphanumeric;
use crate::text::CharClass;

verus! {

/// The whole configuration.
#[derive(Debug, Clone)]
pub struct Config {
    pub save: SaveConfig,
    pub appearance: AppearanceConfig,
    /// Global shortcut key (e.g. "Print", "Meta+Shift+S"). Empty to disable.
    pub shortcut: String,
}

/// Where screenshots are saved, and under which names.
#[derive(Debug, Clone)]
pub struct SaveConfig {
    /// Base directory for screenshots
    pub directory: String,
    /// Subfolder format (strftime). e.g. "%Y-%m"
    pub subfolder: String,
    /// Filename format for window captures.
    /// Variables: {title}, {random}. Also supports strftime.
    pub window_format: String,
    /// Filename format for region captures.
    /// Variables: {random}. Also supports strftime.
    pub region_format: String,
}

/// What the overlay looks like.
#[derive(Debug, Clone, Copy)]
pub struct AppearanceConfig {
    /// The factor that dims the screen, as the bit pattern of an IEEE 754 single.
    pub dim_factor: u32,
    pub border_width: u32,
    /// Red, green, blue.
    pub window_border_color: [u8; 3],
    /// Red, green, blue.
    pub region_border_color: [u8; 3],
    /// The gap that niri leaves between tiles.
    pub tiling_gap: u32,
    /// The width of the ring that niri draws round the focused window.
    pub focus_ring_width: u32,
}

/// Why there is no name for a file.
#[derive(Debug, Clone, Copy, PartialEq, Eq, Structural)]
pub enum FilenameError {
    /// The date formatter does not know a conversion of the template.
    BadTemplate,
    /// The title is too long, and would be cut inside of a character.
    SplitTitle,
}

/// The bit pattern of the single 0.75.
pub const THREE_QUARTERS: u32 = 0x3f40_0000;

/// The longest title in a file name, in bytes.
pub const TITLE_LIMIT: usize = 80;

/// The number of characters of a random identifier.
pub const ID_LEN: usize = 6;

// ── Defaults ─────────────────────────────────────────────────────

/// The shortcut where none is configured.
pub fn default_shortcut() -> (r: String)
    ensures
        r@ == "Print"@,
{
    "Print".to_owned()
}

impl Default for AppearanceConfig {
    fn default() -> (r: Self)
        ensures
            r.dim_factor == THREE_QUARTERS,
            r.border_width == 3,
            r.window_border_color@ == seq![80u8, 140u8, 255u8],
            r.region_border_color@ == seq![255u8, 255u8, 255u8],
            r.tiling_gap == 16,
            r.focus_ring_width == 4,
    {
        AppearanceConfig {
            dim_factor: THREE_QUARTERS,
            border_width: 3,
            window_border_color: [80, 140, 255],
            region_border_color: [255, 255, 255],
            tiling_gap: 16,
            focus_ring_width: 4,
        }
    }
}

/// The home directory, `/tmp` where there is none.
pub open spec fn home_or_tmp(home: Option<String>) -> Seq<char> {
    match home {
        Some(h) => h@,
        None => "/tmp"@,
    }
}

impl SaveConfig {
    /// The settings for a user with this home directory.
    pub open spec fn is_default_for(self, home: Option<String>) -> bool {
        &&& self.directory@ == home_or_tmp(home) + "/Pictures/Screenshots"@
        &&& self.subfolder@ == "%Y-%m"@
        &&& self.window_format@ == "{title} %Y-%m-%d-%H-%M-%S-{random}"@
        &&& self.region_format@ == "%Y-%m-%d-%H-%M-%S-{random}"@
    }

    /// The settings where none are configured.
    pub fn for_home(home: Option<String>) -> (r: SaveConfig)
        ensures
            r.is_default_for(home),
    {
        let mut directory: String = match home {
            Some(h) => h,
            None => "/tmp".to_owned(),
        };
        directory.append("/Pictures/Screenshots");
        SaveConfig {
            directory,
            subfolder: "%Y-%m".to_owned(),
            window_format: "{title} %Y-%m-%d-%H-%M-%S-{random}".to_owned(),
            region_format: "%Y-%m-%d-%H-%M-%S-{random}".to_owned(),
        }
    }
}

impl AppearanceConfig {
    /// The border round a window: blue, green, red, alpha.
    pub open spec fn window_border(self) -> Seq<u8> {
        let c = self.window_border_color@;
        seq![c[2], c[1], c[0], 255]
    }

    /// The border round a region: blue, green, red, alpha.
    pub open spec fn region_border(self) -> Seq<u8> {
        let c = self.region_border_color@;
        seq![c[2], c[1], c[0], 255]
    }
}

// ── Titles ───────────────────────────────────────────────────────

/// A character that a title keeps in a file name.
pub open spec fn is_safe(c: char) -> bool {
    is_alphanumeric(c) || c == '-' || c == '_' || c == ' '
}

/// A title with every other character replaced by an underscore.
pub open spec fn masked(title: Seq<char>) -> Seq<char> {
    Seq::new(
        title.len(),
        |i: int|
            if is_safe(title[i]) {
                title[i]
            } else {
                '_'
            },
    )
}

/// A title as it stands in a file name, before it is cut: masked, without white space and then
/// without underscores at its ends.
pub open spec fn safe_title(title: Seq<char>) -> Seq<char> {
    trimmed(trimmed(masked(title), CharClass::Space), CharClass::Only('_'))
}

/// What a title contributes to a file name: `window` where nothing is left of it, and nothing at
/// all where it would be cut inside of a character.
pub open spec fn title_part(title: Seq<char>) -> Option<Seq<char>> {
    match cut(safe_title(title), TITLE_LIMIT as nat) {
        Some(s) => Some(
            if s.len() == 0 {
                "window"@
            } else {
                s
            },
        ),
        None => None,
    }
}

/// Makes a title fit for a file name.
pub fn title_for_file(title: &str) -> (r: Option<String>)
    ensures
        match title_part(title@) {
            Some(s) => r matches Some(t) && t@ == s,
            None => r is None,
        },
{
    let given: Vec<char> = chars_of(title);
    let mut chars: Vec<char> = Vec::with_capacity(given.len());
    let mut i: usize = 0;
    while i < given.len()
        invariant
            given@ == title@,
            i <= given.len(),
            chars@ == masked(title@).take(i as int),
        decreases given.len() - i,
    {
        let c: char = given[i];
        if alphanumeric(c) || c == '-' || c == '_' || c == ' ' {
            chars.push(c);
        } else {
            chars.push('_');
        }
        i = i + 1;
        assert(masked(title@).take(i as int) =~= masked(title@).take(i - 1).push(
            masked(title@)[i - 1],
        ));
    }
    assert(chars@ =~= masked(title@));
    let len: usize = chars.len();
    assert(chars@.subrange(0, len as int) =~= chars@);
    let (a, b): (usize, usize) = trim_range(&chars, 0, len, CharClass::Space);
    let (c, d): (usize, usize) = trim_range(&chars, a, b, CharClass::Only('_'));
    match cut_range(&chars, c, d, TITLE_LIMIT) {
        Some(end) => if c == end {
            Some("window".to_owned())
        } else {
            Some(text_of(&chars, c, end))
        },
        None => None,
    }
}

// ── File names ───────────────────────────────────────────────────

/// The digit of a number below 36: a decimal digit or a small letter.
pub open spec fn id_char(n: int) -> char {
    if n < 10 {
        (0x30 + n) as char
    } else {
        (0x61 + n - 10) as char
    }
}

/// The identifier that bytes give.
pub open spec fn id_of(bytes: Seq<u8>) -> Seq<char> {
    Seq::new(bytes.len(), |i: int| id_char(bytes[i] as int % 36))
}

/// Makes an identifier out of bytes.
pub fn id_from_bytes(bytes: &Vec<u8>) -> (r: String)
    ensures
        r@ == id_of(bytes@),
{
    let mut out: String = String::new();
    let mut i: usize = 0;
    while i < bytes.len()
        invariant
            i <= bytes.len(),
            out@ == id_of(bytes@).take(i as int),
        decreases bytes.len() - i,
    {
        let n: u8 = bytes[i] % 36;
        let c: char = if n < 10 {
            (0x30u8 + n) as char
        } else {
            (0x61u8 + (n - 10)) as char
        };
        out.push(c);
        i = i + 1;
        assert(id_of(bytes@).take(i as int) =~= id_of(bytes@).take(i - 1).push(
            id_of(bytes@)[i - 1],
        ));
    }
    assert(id_of(bytes@).take(i as int) =~= id_of(bytes@));
    out
}

/// The title of a window as its characters.
pub open spec fn title_chars(title: Option<&str>) -> Option<Seq<char>> {
    match title {
        Some(t) => Some(t@),
        None => None,
    }
}

/// The name of a file, from the filled date template, the identifier and the title.
pub open spec fn name_of(stamped: Seq<char>, id: Seq<char>, title: Option<Seq<char>>) -> Result<
    Seq<char>,
    FilenameError,
> {
    let name = replaced(stamped, "{random}"@, id);
    match title {
        None => Ok(name + ".png"@),
        Some(t) => match title_part(t) {
            Some(part) => Ok(replaced(name, "{title}"@, part) + ".png"@),
            None => Err(FilenameError::SplitTitle),
        },
    }
}

/// The result is this name, or this error.
pub open spec fn is_name(r: Result<String, FilenameError>, name: Result<Seq<char>, FilenameError>) -> bool {
    match name {
        Ok(s) => r matches Ok(t) && t@ == s,
        Err(e) => r == Err::<String, FilenameError>(e),
    }
}

/// Puts the identifier and the title into a filled date template, and gives the name its extension.
pub fn compose_filename(stamped: &str, id: &str, title: Option<&str>) -> (r: Result<
    String,
    FilenameError,
>)
    ensures
        is_name(r, name_of(stamped@, id@, title_chars(title))),
{
    proof {
        reveal_strlit("{random}");
        reveal_strlit("{title}");
    }
    let named: String = replace_all(stamped, "{random}", id);
    let mut name: String = match title {
        Some(t) => match title_for_file(t) {
            Some(part) => replace_all(named.as_str(), "{title}", part.as_str()),
            None => return Err(FilenameError::SplitTitle),
        },
        None => named,
    };
    name.append(".png");
    Ok(name)
}

impl SaveConfig {
    /// The template for a file name.
    pub open spec fn template(self, title: Option<Seq<char>>) -> Seq<char> {
        match title {
            Some(_) => self.window_format@,
            None => self.region_format@,
        }
    }

    /// The name of a file at a moment, with the identifier that these bytes give.
    pub open spec fn filename(self, now: Moment, bytes: Seq<u8>, title: Option<Seq<char>>) -> Result<
        Seq<char>,
        FilenameError,
    > {
        match now.stamp(self.template(title)) {
            Some(stamped) => name_of(stamped, id_of(bytes), title),
            None => Err(FilenameError::BadTemplate),
        }
    }

    /// The directory for files at a moment.
    pub open spec fn dir(self, now: Moment) -> Option<Seq<char>> {
        match now.stamp(self.subfolder@) {
            Some(sub) => Some(joined(self.directory@, sub)),
            None => None,
        }
    }
}

/// The path of the configuration file, as bytes, under the user's directory for such files;
/// `~/.config` where there is none.
pub open spec fn config_file(config_dir: Option<Seq<u8>>) -> Seq<u8> {
    let dir = match config_dir {
        Some(d) => d,
        None => encode_utf8("~/.config"@),
    };
    joined_bytes(joined_bytes(dir, encode_utf8("sshot"@)), encode_utf8("config.json"@))
}

/// `dirs::config_dir` tells the user's directory for configuration files, if there is one, by the
/// environment of the process. The path is handed on as its bytes. Which directory it is is left
/// unsaid.
#[verifier::external_body]
fn config_dir() -> (r: Option<Vec<u8>>) {
    dirs::config_dir().map(|dir| dir.into_os_string().into_encoded_bytes())
}

impl Config {
    /// The configuration where none is written.
    pub fn for_home(home: Option<String>) -> (r: Config)
        ensures
            r.save.is_default_for(home),
            r.shortcut@ == "Print"@,
            r.appearance.dim_factor == THREE_QUARTERS,
            r.appearance.border_width == 3,
            r.appearance.window_border_color@ == seq![80u8, 140u8, 255u8],
            r.appearance.region_border_color@ == seq![255u8, 255u8, 255u8],
            r.appearance.tiling_gap == 16,
            r.appearance.focus_ring_width == 4,
    {
        Config {
            save: SaveConfig::for_home(home),
            appearance: AppearanceConfig::default(),
            shortcut: default_shortcut(),
        }
    }

    /// Where the configuration file is under this directory for configuration files, as bytes.
    pub fn config_path_in(config_dir: Option<Vec<u8>>) -> (r: Vec<u8>)
        ensures
            r@ == config_file(
                match config_dir {
                    Some(dir) => Some(dir@),
                    None => None,
                },
            ),
    {
        let own: Vec<u8> = match config_dir {
            Some(dir) => join_bytes(dir.as_slice(), "sshot".as_bytes()),
            None => join_bytes("~/.config".as_bytes(), "sshot".as_bytes()),
        };
        join_bytes(own.as_slice(), "config.json".as_bytes())
    }

    /// Where the configuration file is, as bytes: always somewhere, under whatever directory the
    /// environment gives.
    pub fn config_path() -> (r: Vec<u8>)
        ensures
            exists|dir: Option<Seq<u8>>| r@ == #[trigger] config_file(dir),
    {
        Config::config_path_in(config_dir())
    }

    /// Names a file at a moment, with the identifier that these bytes give.
    pub fn filename_at(&self, now: Moment, bytes: &Vec<u8>, window_title: Option<&str>) -> (r: Result<
        String,
        FilenameError,
    >)
        ensures
            is_name(r, self.save.filename(now, bytes@, title_chars(window_title))),
    {
        let filled: Option<String> = match window_title {
            Some(_) => stamp(now, self.save.window_format.as_str()),
            None => stamp(now, self.save.region_format.as_str()),
        };
        match filled {
            Some(stamped) => compose_filename(
                stamped.as_str(),
                id_from_bytes(bytes).as_str(),
                window_title,
            ),
            None => Err(FilenameError::BadTemplate),
        }
    }

    /// Names a file now: by the window format and the title for a window, by the region format
    /// otherwise. There is a name if the format can be filled at any time and the title is not cut
    /// inside of a character.
    pub fn format_filename(&self, window_title: Option<&str>) -> (r: Result<String, FilenameError>)
        ensures
            exists|now: Moment, bytes: Seq<u8>|
                now.is_real() && bytes.len() == ID_LEN && is_name(
                    r,
                    #[trigger] self.save.filename(now, bytes, title_chars(window_title)),
                ),
            always_fills(self.save.template(title_chars(window_title))) && (window_title matches Some(
                t,
            ) ==> title_part(t@) is Some) ==> r is Ok,
    {
        let now: Moment = local_now();
        let mut bytes: Vec<u8> = Vec::new();
        while bytes.len() < ID_LEN
            invariant
                bytes@.len() <= ID_LEN,
            decreases ID_LEN - bytes@.len(),
        {
            bytes.push(random_byte());
        }
        self.filename_at(now, &bytes, window_title)
    }

    /// The directory for files at a moment.
    pub fn save_dir_at(&self, now: Moment) -> (r: Option<String>)
        ensures
            match self.save.dir(now) {
                Some(s) => r matches Some(t) && t@ == s,
                None => r is None,
            },
    {
        match stamp(now, self.save.subfolder.as_str()) {
            Some(sub) => Some(join_path(self.save.directory.as_str(), sub.as_str())),
            None => None,
        }
    }

    /// The directory for files now. There is one if the subfolder's format can be filled at any time.
    pub fn save_dir(&self) -> (r: Option<String>)
        ensures
            exists|now: Moment|
                now.is_real() && match #[trigger] self.save.dir(now) {
                    Some(s) => r matches Some(t) && t@ == s,
                    None => r is None,
                },
            always_fills(self.save.subfolder@) ==> r is Some,
    {
        self.save_dir_at(local_now())
    }
}

// ── What holds of every file name ────────────────────────────────

/// A file name ends in `.png`.
pub proof fn names_are_png(stamped: Seq<char>, id: Seq<char>, title: Option<Seq<char>>)
    ensures
        name_of(stamped, id, title) matches Ok(name) ==> name.len() >= 4 && name.skip(
            name.len() - 4,
        ) == ".png"@,
{
    reveal_strlit(".png");
    if let Ok(name) = name_of(stamped, id, title) {
        assert(name.skip(name.len() - 4) =~= ".png"@);
    }
}

/// A title contributes safe characters only, so no separator of paths and nothing that means
/// anything in a template; at least one of them, the first of which is no underscore; and no more
/// than eighty bytes.
pub proof fn titles_are_safe(title: Seq<char>)
    ensures
        title_part(title) matches Some(part) ==> {
            &&& 0 < part.len()
            &&& byte_len(part) <= TITLE_LIMIT
            &&& part[0] != '_'
            &&& forall|i: int|
                0 <= i < part.len() ==> is_safe(#[trigger] part[i]) && part[i] != '/' && part[i] != '.'
                    && part[i] != '%' && part[i] != '{'
        },
{
    reveal_strlit("window");
    let m = masked(title);
    let t = trimmed(m, CharClass::Space);
    let s = safe_title(title);
    trimmed_is_part(m, CharClass::Space);
    trimmed_is_part(t, CharClass::Only('_'));
    trimmed_at_both_ends(t, CharClass::Only('_'));
    let (a, b) = choose|a: int, b: int| 0 <= a <= b <= m.len() && t == #[trigger] m.subrange(a, b);
    let (c, d) = choose|c: int, d: int| 0 <= c <= d <= t.len() && s == #[trigger] t.subrange(c, d);
    assert forall|i: int| 0 <= i < s.len() implies is_safe(#[trigger] s[i]) && s[i] != '/' by {
        assert(s[i] == m[a + c + i]);
    }
    if let Some(part) = title_part(title) {
        if part == "window"@ {
            reveal_with_fuel(byte_len, 8);
            assert(byte_len("window"@) == 6);
        }
    }
}

/// With a format that can be filled at any time, and a title that is not cut inside of a character,
/// every moment gives a name. It ends in `.png`, and holds no separator of paths unless the filled
/// format brings one in.
pub proof fn names_are_owed(
    save: SaveConfig,
    now: Moment,
    bytes: Seq<u8>,
    title: Option<Seq<char>>,
)
    requires
        now.is_real(),
        always_fills(save.template(title)),
        title matches Some(t) ==> title_part(t) is Some,
    ensures
        save.filename(now, bytes, title) matches Ok(name) && {
            &&& name.len() >= 4
            &&& name.skip(name.len() - 4) == ".png"@
            &&& !now.stamp(save.template(title))->0.contains('/') ==> !name.contains('/')
        },
{
    let stamped = now.stamp(save.template(title))->0;
    let id = id_of(bytes);
    names_are_png(stamped, id, title);
    reveal_strlit(".png");
    if !stamped.contains('/') {
        assert forall|i: int| 0 <= i < id.len() implies id[i] != '/' by {
            ids_are_alphanumeric(bytes, i);
        }
        replaced_adds_nothing_else(stamped, "{random}"@, id, '/');
        if let Some(t) = title {
            titles_are_safe(t);
            let name = replaced(stamped, "{random}"@, id);
            replaced_adds_nothing_else(name, "{title}"@, title_part(t)->0, '/');
        }
    }
}

/// An identifier is made of decimal digits and small letters.
pub proof fn ids_are_alphanumeric(bytes: Seq<u8>, i: int)
    requires
        0 <= i < bytes.len(),
    ensures
        is_alphanumeric(id_of(bytes)[i]),
        id_of(bytes).len() == bytes.len(),
{
}

/// Without a title the window format is not used, and with one the region format is not.
pub proof fn templates_go_by_title(a: SaveConfig, b: SaveConfig, now: Moment, bytes: Seq<u8>)
    ensures
        a.region_format@ == b.region_format@ ==> a.filename(now, bytes, None) == b.filename(
            now,
            bytes,
            None,
        ),
        a.window_format@ == b.window_format@ ==> forall|t: Seq<char>|
            a.filename(now, bytes, Some(t)) == b.filename(now, bytes, Some(t)),
{
}

// ── Titles and names in detail ───────────────────────────────────

/// The characters that a title keeps: the letters and digits of ASCII, those of Unicode beyond it,
/// the hyphen, the underscore and the space.
pub open spec fn is_plain(c: char) -> bool {
    ||| '0' <= c <= '9'
    ||| 'a' <= c <= 'z'
    ||| 'A' <= c <= 'Z'
    ||| c > '\u{7f}' && unicode_alphanumeric(c)
    ||| c == '-' || c == '_' || c == ' '
}

proof fn lemma_plain(c: char)
    ensures
        is_plain(c) == is_safe(c),
{
}

/// A title of kept characters stays as it is, but for spaces at its ends and, within them,
/// underscores: what is left in the middle is the title's part of the name, if it takes no more than
/// eighty bytes. Of a longer one the first eighty bytes are left, if they end with a character. Where
/// nothing is left in the middle, `window` stands for it.
pub proof fn plain_titles_stay(
    space_before: Seq<char>,
    underscores_before: Seq<char>,
    middle: Seq<char>,
    underscores_after: Seq<char>,
    space_after: Seq<char>,
    k: int,
)
    requires
        forall|i: int| 0 <= i < space_before.len() ==> #[trigger] space_before[i] == ' ',
        forall|i: int| 0 <= i < space_after.len() ==> #[trigger] space_after[i] == ' ',
        forall|i: int| 0 <= i < underscores_before.len() ==> #[trigger] underscores_before[i] == '_',
        forall|i: int| 0 <= i < underscores_after.len() ==> #[trigger] underscores_after[i] == '_',
        forall|i: int| 0 <= i < middle.len() ==> is_plain(#[trigger] middle[i]),
        middle.len() > 0 ==> middle[0] != '_' && middle.last() != '_',
        middle.len() > 0 && underscores_before.len() == 0 ==> !is_space(middle[0]),
        middle.len() > 0 && underscores_after.len() == 0 ==> !is_space(middle.last()),
        0 <= k <= middle.len(),
    ensures
        ({
            let title = space_before + underscores_before + middle + underscores_after + space_after;
            &&& 0 < middle.len() && encode_utf8(middle).len() <= 80 ==> title_part(title) == Some(
                middle,
            )
            &&& encode_utf8(middle).len() > 80 && encode_utf8(middle.take(k)).len() == 80
                ==> title_part(title) == Some(middle.take(k))
            &&& middle.len() == 0 ==> title_part(title) == Some("window"@)
        }),
{
    let (a, u, v, b) = (space_before, underscores_before, underscores_after, space_after);
    let title = a + u + middle + v + b;
    assert forall|i: int| 0 <= i < title.len() implies is_safe(#[trigger] title[i]) by {
        let (n1, n2) = (a.len() as int, (a.len() + u.len()) as int);
        let (n3, n4) = (n2 + middle.len(), n2 + middle.len() + v.len());
        if i < n1 {
            assert(title[i] == a[i]);
        } else if i < n2 {
            assert(title[i] == u[i - n1]);
        } else if i < n3 {
            assert(title[i] == middle[i - n2]);
            lemma_plain(middle[i - n2]);
        } else if i < n4 {
            assert(title[i] == v[i - n3]);
        } else {
            assert(title[i] == b[i - n4]);
        }
    }
    assert(masked(title) =~= title);
    let core = u + middle + v;
    assert(title =~= a + core + b);
    if core.len() > 0 {
        assert(!is_space(core[0])) by {
            if u.len() > 0 {
                assert(core[0] == u[0]);
            } else if middle.len() > 0 {
                assert(core[0] == middle[0]);
            } else {
                assert(core[0] == v[0]);
            }
        }
        assert(!is_space(core.last())) by {
            if v.len() > 0 {
                assert(core.last() == v[v.len() - 1]);
            } else if middle.len() > 0 {
                assert(core.last() == middle.last());
            } else {
                assert(core.last() == u[u.len() - 1]);
            }
        }
    }
    trimming_leaves_the_middle(a, core, b, CharClass::Space);
    trimming_leaves_the_middle(u, middle, v, CharClass::Only('_'));
    assert(safe_title(title) == middle);
    cuts_in_detail(middle, 80, k);
    if middle.len() == 0 {
        assert(cut(middle, 80) == Some(middle)) by {
            assert(middle =~= Seq::empty());
        }
    }
    if encode_utf8(middle).len() > 80 && encode_utf8(middle.take(k)).len() == 80 {
        byte_len_is_encoded_len(middle.take(k));
        assert(middle.take(k).len() > 0);
    }
}

/// Every character that a title does not keep counts as an underscore: two titles that differ only
/// in that one has underscores for such characters have the same part in a name.
pub proof fn other_characters_are_underscores(title: Seq<char>, other: Seq<char>)
    requires
        title.len() == other.len(),
        forall|i: int|
            0 <= i < title.len() ==> #[trigger] other[i] == (if is_plain(title[i]) {
                title[i]
            } else {
                '_'
            }),
    ensures
        title_part(other) == title_part(title),
{
    assert forall|i: int| 0 <= i < title.len() implies masked(other)[i] == masked(title)[i] by {
        lemma_plain(title[i]);
        assert(other[i] == (if is_plain(title[i]) {
            title[i]
        } else {
            '_'
        }));
    }
    assert(masked(other) =~= masked(title));
}

/// An identifier has a character for each byte: by the remainder of the byte divided by 36, a digit
/// or, from ten on, a small letter.
pub proof fn identifiers_in_detail(bytes: Seq<u8>, i: int)
    requires
        0 <= i < bytes.len(),
    ensures
        id_of(bytes).len() == bytes.len(),
        bytes[i] % 36 < 10 ==> id_of(bytes)[i] as u32 == '0' as u32 + bytes[i] % 36,
        bytes[i] % 36 >= 10 ==> id_of(bytes)[i] as u32 == 'a' as u32 + (bytes[i] % 36 - 10),
{
}

/// In the name of a file the identifier stands where the filled template has `{random}`, and
/// nothing else changes but that `.png` is put behind.
pub proof fn identifiers_stand_in_names(a: Seq<char>, b: Seq<char>, id: Seq<char>)
    requires
        forall|i: int| 0 <= i < a.len() ==> !occurs_at(a + "{random}"@ + b, "{random}"@, i),
        forall|i: int| !occurs_at(b, "{random}"@, i),
    ensures
        name_of(a + "{random}"@ + b, id, None) == Ok::<Seq<char>, FilenameError>(
            a + id + b + ".png"@,
        ),
{
    reveal_strlit("{random}");
    replaced_at_occurrence(a, b, "{random}"@, id);
    replaced_keeps_other_text(b, "{random}"@, id);
}

/// In the name of a window's file the title's part stands where the template has `{title}`. Without
/// a window `{title}` stays. Where the title has no part, there is no name.
pub proof fn titles_stand_in_names(a: Seq<char>, b: Seq<char>, id: Seq<char>, title: Seq<char>)
    requires
        forall|i: int| !occurs_at(a + "{title}"@ + b, "{random}"@, i),
        forall|i: int| 0 <= i < a.len() ==> !occurs_at(a + "{title}"@ + b, "{title}"@, i),
        forall|i: int| !occurs_at(b, "{title}"@, i),
    ensures
        title_part(title) matches Some(part) ==> name_of(a + "{title}"@ + b, id, Some(title))
            == Ok::<Seq<char>, FilenameError>(a + part + b + ".png"@),
        title_part(title) is None ==> name_of(a + "{title}"@ + b, id, Some(title)) == Err::<
            Seq<char>,
            FilenameError,
        >(FilenameError::SplitTitle),
        name_of(a + "{title}"@ + b, id, None) == Ok::<Seq<char>, FilenameError>(
            a + "{title}"@ + b + ".png"@,
        ),
{
    reveal_strlit("{random}");
    reveal_strlit("{title}");
    replaced_keeps_other_text(a + "{title}"@ + b, "{random}"@, id);
    if let Some(part) = title_part(title) {
        replaced_at_occurrence(a, b, "{title}"@, part);
        replaced_keeps_other_text(b, "{title}"@, part);
    }
}

/// The name of a window's file is made from the window format and that of a region's file from the
/// region format, filled at the moment. There is no name if the format cannot be filled. The
/// directory is the filled subfolder, put under the base directory.
pub proof fn files_go_by_their_formats(
    save: SaveConfig,
    now: Moment,
    bytes: Seq<u8>,
    title: Seq<char>,
)
    ensures
        now.stamp(save.window_format@) matches Some(s) ==> save.filename(now, bytes, Some(title))
            == name_of(s, id_of(bytes), Some(title)),
        now.stamp(save.window_format@) is None ==> save.filename(now, bytes, Some(title)) == Err::<
            Seq<char>,
            FilenameError,
        >(FilenameError::BadTemplate),
        now.stamp(save.region_format@) matches Some(s) ==> save.filename(now, bytes, None)
            == name_of(s, id_of(bytes), None),
        now.stamp(save.region_format@) is None ==> save.filename(now, bytes, None) == Err::<
            Seq<char>,
            FilenameError,
        >(FilenameError::BadTemplate),
        now.stamp(save.subfolder@) matches Some(s) ==> (!(s.len() > 0 && s[0] == '/')
            && save.directory@.len() > 0 && save.directory@.last() != '/' ==> save.dir(now) == Some(
            save.directory@ + seq!['/'] + s,
        )),
        now.stamp(save.subfolder@) is None ==> save.dir(now) is None,
{
    if let Some(s) = now.stamp(save.subfolder@) {
        paths_in_detail(save.directory@, s);
    }
}

/// The configuration file is `sshot/config.json` under the user's directory for such files, with
/// one separator before it.
pub proof fn the_configuration_file_in_detail(dir: Seq<u8>)
    requires
        dir.len() > 0,
    ensures
        dir.last() != 0x2f ==> config_file(Some(dir)) == dir + encode_utf8(
            "/sshot/config.json"@,
        ),
        dir.last() == 0x2f ==> config_file(Some(dir)) == dir + encode_utf8("sshot/config.json"@),
        config_file(None) == encode_utf8("~/.config/sshot/config.json"@),
{
    reveal_strlit("sshot");
    reveal_strlit("config.json");
    reveal_strlit("~/.config");
    reveal_strlit("/sshot/config.json");
    reveal_strlit("sshot/config.json");
    reveal_strlit("~/.config/sshot/config.json");
    is_ascii_chars_encode_utf8("sshot"@);
    is_ascii_chars_encode_utf8("config.json"@);
    is_ascii_chars_encode_utf8("~/.config"@);
    is_ascii_chars_encode_utf8("/sshot/config.json"@);
    is_ascii_chars_encode_utf8("sshot/config.json"@);
    is_ascii_chars_encode_utf8("~/.config/sshot/config.json"@);
    let home = encode_utf8("~/.config"@);
    let own = encode_utf8("sshot"@);
    byte_paths_in_detail(dir, own);
    byte_paths_in_detail(home, own);
    byte_paths_in_detail(joined_bytes(dir, own), encode_utf8("config.json"@));
    byte_paths_in_detail(joined_bytes(home, own), encode_utf8("config.json"@));
    if dir.last() != 0x2f {
        assert(config_file(Some(dir)) =~= dir + encode_utf8("/sshot/config.json"@));
    } else {
        assert(config_file(Some(dir)) =~= dir + encode_utf8("sshot/config.json"@));
    }
    assert(config_file(None) =~= encode_utf8("~/.config/sshot/config.json"@));
}

} // verus!
