//! The program around the overlay: its command line, the daemon and the signals that reach it, its
//! PID file, and the screenshots that are there.
use vstd::prelude::*;

use crate::config::name_of;
use crate::config::names_are_png;
use crate::config::FilenameError;
use crate::text::chars_of;
use crate::text::decimal;
use crate::text::decimal_is_digits;
use crate::text::decimal_reads_back;
use crate::text::decimal_text;
use crate::text::is_digit;
use crate::text::is_space;
use crate::text::join_path;
use crate::text::joined;
use crate::text::parse_u32;
use crate::text::parsed_u32;
use crate::text::same_text;
use crate::text::trim_back;
use crate::text::trim_front;
use crate::text::trim_range;
use crate::text::trimmed;
use crate::text::trimming_leaves_the_middle;
use crate::text::CharClass;
use crate::tray::Action;

verus! {

// ── Command line ─────────────────────────────────────────────────

/// What the program is started for.
#[derive(Debug, Clone, Copy, PartialEq, Eq, Structural)]
pub enum Mode {
    /// Start as background daemon with system tray.
    Daemon,
    /// Signal running daemon to take a screenshot.
    Trigger,
    /// Screenshot the focused window.
    Window,
    /// Signal running daemon to open settings.
    Settings,
    /// Take one screenshot and exit.
    Oneshot,
    /// Print the usage.
    Help,
}

/// The mode that an argument asks for; the daemon, for any that is not known.
pub open spec fn mode_named(arg: Seq<char>) -> Mode {
    if arg == "--trigger"@ {
        Mode::Trigger
    } else if arg == "--window"@ {
        Mode::Window
    } else if arg == "--settings"@ {
        Mode::Settings
    } else if arg == "--oneshot"@ {
        Mode::Oneshot
    } else if arg == "--help"@ || arg == "-h"@ {
        Mode::Help
    } else {
        Mode::Daemon
    }
}

/// The mode that the arguments of the program ask for, the first of which is its name.
pub open spec fn mode_in(args: Seq<String>) -> Mode {
    if args.len() > 1 {
        mode_named(args[1]@)
    } else {
        Mode::Daemon
    }
}

/// Reads the mode from the arguments of the program.
pub fn mode_from_args(args: &Vec<String>) -> (r: Mode)
    ensures
        r == mode_in(args@),
{
    if args.len() <= 1 {
        return Mode::Daemon;
    }
    let arg: &str = args[1].as_str();
    if same_text(arg, "--trigger") {
        Mode::Trigger
    } else if same_text(arg, "--window") {
        Mode::Window
    } else if same_text(arg, "--settings") {
        Mode::Settings
    } else if same_text(arg, "--oneshot") {
        Mode::Oneshot
    } else if same_text(arg, "--help") || same_text(arg, "-h") {
        Mode::Help
    } else {
        Mode::Daemon
    }
}

// ── Signals ──────────────────────────────────────────────────────

/// A signal that the daemon listens to, or another one.
#[derive(Debug, Clone, Copy, PartialEq, Eq, Structural)]
pub enum Signal {
    Usr1,
    Usr2,
    Term,
    Int,
    Other,
}

/// What a client does about the daemon.
#[derive(Debug, Clone, Copy, PartialEq, Eq, Structural)]
pub enum Request {
    /// Send the signal to the process.
    Send { pid: u32, signal: Signal },
    /// Tell that no daemon runs.
    NoDaemon,
    /// Open the configuration itself.
    OpenConfig,
    /// Nothing.
    Nothing,
}

/// What a client does: it signals the daemon that the PID file names, if there is one.
pub open spec fn request_for(mode: Mode, pid: Option<u32>) -> Request {
    match (mode, pid) {
        (Mode::Trigger, Some(pid)) => Request::Send { pid, signal: Signal::Usr1 },
        (Mode::Trigger, None) => Request::NoDaemon,
        (Mode::Settings, Some(pid)) => Request::Send { pid, signal: Signal::Usr2 },
        (Mode::Settings, None) => Request::OpenConfig,
        _ => Request::Nothing,
    }
}

/// Decides what a client does about the daemon.
pub fn client_request(mode: Mode, pid: Option<u32>) -> (r: Request)
    ensures
        r == request_for(mode, pid),
{
    match (mode, pid) {
        (Mode::Trigger, Some(pid)) => Request::Send { pid, signal: Signal::Usr1 },
        (Mode::Trigger, None) => Request::NoDaemon,
        (Mode::Settings, Some(pid)) => Request::Send { pid, signal: Signal::Usr2 },
        (Mode::Settings, None) => Request::OpenConfig,
        _ => Request::Nothing,
    }
}

/// What a signal asks the daemon to do.
pub open spec fn asked_by(signal: Signal) -> Option<Action> {
    match signal {
        Signal::Usr1 => Some(Action::TakeScreenshot),
        Signal::Usr2 => Some(Action::OpenConfig),
        Signal::Term => Some(Action::Quit),
        Signal::Int => Some(Action::Quit),
        Signal::Other => None,
    }
}

/// Tells what a signal asks the daemon to do.
pub fn action_for(signal: Signal) -> (r: Option<Action>)
    ensures
        r == asked_by(signal),
{
    match signal {
        Signal::Usr1 => Some(Action::TakeScreenshot),
        Signal::Usr2 => Some(Action::OpenConfig),
        Signal::Term => Some(Action::Quit),
        Signal::Int => Some(Action::Quit),
        Signal::Other => None,
    }
}

/// A client that finds a daemon makes it do what the client was started for: take a screenshot, or
/// open the settings.
pub proof fn clients_are_understood(pid: u32)
    ensures
        request_for(Mode::Trigger, Some(pid)) matches Request::Send { pid: p, signal } && p == pid
            && asked_by(signal) == Some(Action::TakeScreenshot),
        request_for(Mode::Settings, Some(pid)) matches Request::Send { pid: p, signal } && p == pid
            && asked_by(signal) == Some(Action::OpenConfig),
{
}

// ── Start ────────────────────────────────────────────────────────

/// How the daemon starts.
#[derive(Debug, Clone, Copy, PartialEq, Eq, Structural)]
pub enum Start {
    /// Not at all: the process with this PID is one already.
    AlreadyRunning { pid: u32 },
    /// A PID file of a process that is gone is removed first.
    AfterRemovingPid,
    /// At once.
    AtOnce,
}

/// How the daemon starts, by the PID that was found, if any, and whether that process is alive.
pub open spec fn start_for(existing: Option<u32>, alive: bool) -> Start {
    match existing {
        Some(pid) => if alive {
            Start::AlreadyRunning { pid }
        } else {
            Start::AfterRemovingPid
        },
        None => Start::AtOnce,
    }
}

/// Decides how the daemon starts.
pub fn start_daemon(existing: Option<u32>, alive: bool) -> (r: Start)
    ensures
        r == start_for(existing, alive),
{
    match existing {
        Some(pid) => if alive {
            Start::AlreadyRunning { pid }
        } else {
            Start::AfterRemovingPid
        },
        None => Start::AtOnce,
    }
}

// ── PID file ─────────────────────────────────────────────────────

/// The directory of the PID file: that of the session, or that of the user by number.
pub open spec fn runtime_dir_of(runtime_dir: Option<String>, uid: u32) -> Seq<char> {
    match runtime_dir {
        Some(dir) => dir@,
        None => "/run/user/"@ + decimal(uid as nat),
    }
}

/// Tells where the PID file is.
pub fn pid_path(runtime_dir: Option<String>, uid: u32) -> (r: String)
    ensures
        r@ == joined(runtime_dir_of(runtime_dir, uid), "sshot.pid"@),
{
    let dir: String = match runtime_dir {
        Some(dir) => dir,
        None => {
            let number: String = decimal_text(uid as u64);
            let mut dir: String = "/run/user/".to_owned();
            dir.append(number.as_str());
            dir
        },
    };
    join_path(dir.as_str(), "sshot.pid")
}

/// Writes the contents of the PID file.
pub fn pid_text(pid: u32) -> (r: String)
    ensures
        r@ == decimal(pid as nat),
{
    decimal_text(pid as u64)
}

/// The PID that a PID file gives.
pub open spec fn pid_in(content: Seq<char>) -> Option<u32> {
    parsed_u32(trimmed(content, CharClass::Space))
}

/// Reads the contents of a PID file.
pub fn read_pid(content: &str) -> (r: Option<u32>)
    ensures
        r == pid_in(content@),
{
    let chars: Vec<char> = chars_of(content);
    let (from, to): (usize, usize) = trim_range(&chars, 0, chars.len(), CharClass::Space);
    assert(chars@.subrange(0, chars@.len() as int) =~= content@);
    parse_u32(&chars, from, to)
}

/// A PID file gives back the PID that was written, also with a line end after it.
pub proof fn pid_reads_back(pid: u32)
    ensures
        pid_in(decimal(pid as nat)) == Some(pid),
        pid_in(decimal(pid as nat).push('\n')) == Some(pid),
{
    let d = decimal(pid as nat);
    decimal_is_digits(pid as nat);
    decimal_reads_back(pid);
    assert(is_digit(d[0]) && is_digit(d.last()));
    assert(trim_front(d, CharClass::Space) == d);
    assert(trim_back(d, CharClass::Space) == d);
    let line = d.push('\n');
    assert(line[0] == d[0]);
    assert(trim_front(line, CharClass::Space) == line);
    assert(line.drop_last() =~= d);
    assert(line.last() == '\n' && is_space('\n'));
}

// ── Screenshots ──────────────────────────────────────────────────

/// A file that was found, with the time of its last change in seconds and nanoseconds, if that is
/// known.
#[derive(Debug, Clone)]
pub struct FoundFile {
    pub name: String,
    pub modified: Option<(i64, u32)>,
}

/// The name has the extension `png`: it ends in `.png`, and something stands before that.
pub open spec fn has_png_extension(name: Seq<char>) -> bool {
    name.len() > 4 && name.skip(name.len() - 4) == seq!['.', 'p', 'n', 'g']
}

/// `a` is a later time than `b`.
pub open spec fn later(a: (i64, u32), b: (i64, u32)) -> bool {
    a.0 > b.0 || (a.0 == b.0 && a.1 > b.1)
}

/// A screenshot whose time is known.
pub open spec fn is_dated_png(f: FoundFile) -> bool {
    has_png_extension(f.name@) && f.modified is Some
}

/// `i` is the screenshot that changed last: none is later, and none that stands before it is as
/// late.
pub open spec fn is_latest(files: Seq<FoundFile>, i: int) -> bool {
    &&& 0 <= i < files.len()
    &&& is_dated_png(files[i])
    &&& forall|j: int|
        0 <= j < files.len() && is_dated_png(#[trigger] files[j]) ==> {
            &&& !later(files[j].modified->0, files[i].modified->0)
            &&& j < i ==> later(files[i].modified->0, files[j].modified->0)
        }
}

fn png_extension(name: &str) -> (r: bool)
    ensures
        r == has_png_extension(name@),
{
    let chars: Vec<char> = chars_of(name);
    let n: usize = chars.len();
    if n <= 4 {
        return false;
    }
    let r: bool = chars[n - 4] == '.' && chars[n - 3] == 'p' && chars[n - 2] == 'n' && chars[n - 1]
        == 'g';
    proof {
        let end = name@.skip(name@.len() - 4);
        if r {
            assert(end =~= seq!['.', 'p', 'n', 'g']);
        } else {
            assert(end[0] == name@[n - 4] && end[1] == name@[n - 3] && end[2] == name@[n - 2]
                && end[3] == name@[n - 1]);
        }
    }
    r
}

/// Finds the most recently modified .png file.
pub fn find_latest_file(files: &Vec<FoundFile>) -> (r: Option<usize>)
    ensures
        match r {
            Some(i) => is_latest(files@, i as int),
            None => forall|j: int| 0 <= j < files@.len() ==> !is_dated_png(#[trigger] files@[j]),
        },
{
    let mut best: Option<usize> = None;
    let mut i: usize = 0;
    while i < files.len()
        invariant
            i <= files@.len(),
            match best {
                Some(b) => b < i && is_latest(files@.take(i as int), b as int),
                None => forall|j: int| 0 <= j < i ==> !is_dated_png(#[trigger] files@[j]),
            },
        decreases files@.len() - i,
    {
        let ghost before = files@.take(i as int);
        let ghost after = files@.take(i + 1);
        assert(forall|j: int| 0 <= j < i ==> before[j] == after[j] && files@[j] == after[j]);
        assert(after[i as int] == files@[i as int]);
        let ghost old_best = best;
        if png_extension(files[i].name.as_str()) {
            match files[i].modified {
                Some(time) => {
                    let better: bool = match best {
                        Some(b) => match files[b].modified {
                            Some(t) => time.0 > t.0 || (time.0 == t.0 && time.1 > t.1),
                            None => true,
                        },
                        None => true,
                    };
                    if better {
                        best = Some(i);
                    }
                },
                None => {},
            }
        }
        proof {
            assert forall|j: int| 0 <= j < i implies #[trigger] after[j] == before[j] by {}
            match best {
                Some(b) => {
                    assert forall|j: int| 0 <= j < after.len() && is_dated_png(#[trigger] after[j])
                        implies {
                        &&& !later(after[j].modified->0, after[b as int].modified->0)
                        &&& j < b ==> later(after[b as int].modified->0, after[j].modified->0)
                    } by {
                        if j < i {
                            assert(is_dated_png(before[j]));
                            match old_best {
                                Some(o) => {
                                    assert(is_dated_png(before[o as int]));
                                },
                                None => {
                                    assert(is_dated_png(files@[j]));
                                },
                            }
                        }
                    }
                },
                None => {},
            }
        }
        i = i + 1;
    }
    assert(files@.take(files@.len() as int) =~= files@);
    best
}

/// Of the files found at most one is the latest.
pub proof fn latest_is_one(files: Seq<FoundFile>, i: int, j: int)
    requires
        is_latest(files, i),
        is_latest(files, j),
    ensures
        i == j,
{
    assert(is_dated_png(files[i]) && is_dated_png(files[j]));
}

/// A screenshot that was saved under a name of the library is found again as one, provided that the
/// name is more than its extension.
pub proof fn saved_files_are_found(
    stamped: Seq<char>,
    id: Seq<char>,
    title: Option<Seq<char>>,
    name: Seq<char>,
)
    requires
        name_of(stamped, id, title) == Ok::<Seq<char>, FilenameError>(name),
        name.len() > 4,
    ensures
        has_png_extension(name),
{
    names_are_png(stamped, id, title);
    reveal_strlit(".png");
    assert(".png"@ =~= seq!['.', 'p', 'n', 'g']);
}

// ── Window captures by niri ──────────────────────────────────────

/// The words of a niri command that saves a window: the one with this id, otherwise the one with the
/// focus.
pub open spec fn window_command(id: Option<Seq<char>>, path: Seq<char>) -> Seq<Seq<char>> {
    let action = seq!["msg"@, "action"@, "screenshot-window"@];
    match id {
        Some(id) => action + seq!["--id"@, id, "--path"@, path],
        None => action + seq!["--path"@, path],
    }
}

/// Writes the arguments for niri to save a window to a file.
pub fn screenshot_window_args(id: Option<&str>, path: &str) -> (r: Vec<String>)
    ensures
        r@.map_values(|s: String| s@) == window_command(
            (match id {
                Some(id) => Some(id@),
                None => None,
            }),
            path@,
        ),
{
    let mut args: Vec<String> = Vec::new();
    args.push("msg".to_owned());
    args.push("action".to_owned());
    args.push("screenshot-window".to_owned());
    match id {
        Some(id) => {
            args.push("--id".to_owned());
            args.push(id.to_owned());
        },
        None => {},
    }
    args.push("--path".to_owned());
    args.push(path.to_owned());
    assert(args@.map_values(|s: String| s@) =~= window_command(
        (match id {
            Some(id) => Some(id@),
            None => None,
        }),
        path@,
    ));
    args
}

// ── Choices in detail ────────────────────────────────────────────

/// Each mode but the daemon is asked for by its own name and no other, and the daemon by every other
/// word.
pub proof fn modes_have_their_names(arg: Seq<char>)
    ensures
        mode_named(arg) == Mode::Trigger <==> arg == "--trigger"@,
        mode_named(arg) == Mode::Window <==> arg == "--window"@,
        mode_named(arg) == Mode::Settings <==> arg == "--settings"@,
        mode_named(arg) == Mode::Oneshot <==> arg == "--oneshot"@,
        mode_named(arg) == Mode::Help <==> arg == "--help"@ || arg == "-h"@,
{
    reveal_strlit("--trigger");
    reveal_strlit("--window");
    reveal_strlit("--settings");
    reveal_strlit("--oneshot");
    reveal_strlit("--help");
    reveal_strlit("-h");
    assert("--trigger"@[2] != "--oneshot"@[2]);
    assert("--trigger"@.len() == 9 && "--window"@.len() == 8 && "--settings"@.len() == 10);
    assert("--oneshot"@.len() == 9 && "--help"@.len() == 6 && "-h"@.len() == 2);
}

/// Only the two modes for clients ask anything of the daemon, and a signal is sent only to the
/// process that the PID file names. Without one, a trigger tells so and the settings are opened
/// here.
pub proof fn requests_in_detail(mode: Mode, pid: Option<u32>)
    ensures
        request_for(mode, pid) matches Request::Send { pid: p, signal } ==> pid == Some(p) && (mode
            == Mode::Trigger || mode == Mode::Settings),
        (mode == Mode::Trigger || mode == Mode::Settings) && pid is Some ==> request_for(
            mode,
            pid,
        ) is Send,
        request_for(mode, pid) == Request::NoDaemon <==> mode == Mode::Trigger && pid is None,
        request_for(mode, pid) == Request::OpenConfig <==> mode == Mode::Settings && pid is None,
{
}

/// The daemon stops on the two signals that ask a process to end, and on no other.
pub proof fn signals_in_detail(signal: Signal)
    ensures
        asked_by(signal) == Some(Action::Quit) <==> signal == Signal::Term || signal == Signal::Int,
        asked_by(signal) == Some(Action::TakeScreenshot) <==> signal == Signal::Usr1,
        asked_by(signal) == Some(Action::OpenConfig) <==> signal == Signal::Usr2,
        asked_by(signal) is None <==> signal == Signal::Other,
{
}

/// White space round the number in a PID file does not matter; without it, the file gives a PID if and
/// only if it is a number.
pub proof fn pids_in_detail(before: Seq<char>, number: Seq<char>, after: Seq<char>, pid: u32)
    requires
        forall|i: int| 0 <= i < before.len() ==> is_space(#[trigger] before[i]),
        forall|i: int| 0 <= i < after.len() ==> is_space(#[trigger] after[i]),
        number.len() > 0 ==> !is_space(number[0]) && !is_space(number.last()),
    ensures
        pid_in(before + number + after) == parsed_u32(number),
        number == decimal(pid as nat) ==> pid_in(before + number + after) == Some(pid),
{
    assert forall|i: int| 0 <= i < before.len() implies CharClass::Space.holds(
        #[trigger] before[i],
    ) by {}
    assert forall|i: int| 0 <= i < after.len() implies CharClass::Space.holds(
        #[trigger] after[i],
    ) by {}
    trimming_leaves_the_middle(before, number, after, CharClass::Space);
    decimal_reads_back(pid);
}

/// Without a directory of the session the PID file is in that of the user, by number.
pub proof fn runtime_directories_in_detail(dir: String, uid: u32)
    ensures
        runtime_dir_of(Some(dir), uid) == dir@,
        runtime_dir_of(None, uid) == "/run/user/"@ + decimal(uid as nat),
{
}

/// A name has the extension of a screenshot if and only if it is something and `.png`.
pub proof fn extensions_in_detail(name: Seq<char>, stem: Seq<char>)
    ensures
        has_png_extension(stem + ".png"@) <==> stem.len() > 0,
        has_png_extension(name) ==> name == name.take(name.len() - 4) + ".png"@ && name.len() > 4,
{
    reveal_strlit(".png");
    assert(".png"@ =~= seq!['.', 'p', 'n', 'g']);
    let whole = stem + ".png"@;
    assert(whole.skip(whole.len() - 4) =~= ".png"@);
    if has_png_extension(name) {
        assert(name =~= name.take(name.len() - 4) + name.skip(name.len() - 4));
    }
}

/// A time as one number of nanoseconds.
pub open spec fn nanoseconds(time: (i64, u32)) -> int {
    time.0 * 1_000_000_000 + time.1
}

/// The latest screenshot has the extension and a known time, and counted in nanoseconds no other
/// screenshot whose time is known has a larger one. Of several with the same it is the first.
pub proof fn the_latest_is_the_newest(files: Seq<FoundFile>, i: int, j: int)
    requires
        is_latest(files, i),
        forall|k: int|
            0 <= k < files.len() ==> ((#[trigger] files[k]).modified matches Some(t) ==> t.1
                < 1_000_000_000),
        0 <= j < files.len(),
    ensures
        0 <= i < files.len(),
        has_png_extension(files[i].name@),
        files[i].modified is Some,
        has_png_extension(files[j].name@) && files[j].modified is Some ==> {
            &&& nanoseconds(files[j].modified->0) <= nanoseconds(files[i].modified->0)
            &&& nanoseconds(files[j].modified->0) == nanoseconds(files[i].modified->0) ==> i <= j
        },
{
    if has_png_extension(files[j].name@) && files[j].modified is Some {
        assert(is_dated_png(files[j]));
    }
}

/// The words for niri end with the path behind `--path`, and name a window behind `--id` if one is
/// given.
pub proof fn window_commands_in_detail(id: Seq<char>, path: Seq<char>)
    ensures
        ({
            let (one, focused) = (window_command(Some(id), path), window_command(None, path));
            &&& one.len() == 7 && focused.len() == 5
            &&& one[0] == "msg"@ && one[1] == "action"@ && one[2] == "screenshot-window"@
            &&& one.take(3) == focused.take(3)
            &&& one[3] == "--id"@ && one[4] == id
            &&& one[5] == "--path"@ && one[6] == path
            &&& focused[3] == "--path"@ && focused[4] == path
        }),
{
    assert(window_command(Some(id), path).take(3) =~= window_command(None, path).take(3));
}

/// Only the word behind the program's name counts, and without one the daemon is started.
pub proof fn modes_go_by_the_first_word(args: Seq<String>, more: Seq<String>)
    ensures
        args.len() <= 1 ==> mode_in(args) == Mode::Daemon,
        args.len() >= 2 ==> mode_in(args + more) == mode_in(args),
        args.len() >= 2 ==> (mode_in(args) == Mode::Trigger <==> args[1]@ == "--trigger"@),
        args.len() >= 2 ==> (mode_in(args) == Mode::Window <==> args[1]@ == "--window"@),
        args.len() >= 2 ==> (mode_in(args) == Mode::Settings <==> args[1]@ == "--settings"@),
        args.len() >= 2 ==> (mode_in(args) == Mode::Oneshot <==> args[1]@ == "--oneshot"@),
        args.len() >= 2 ==> (mode_in(args) == Mode::Help <==> args[1]@ == "--help"@ || args[1]@
            == "-h"@),
{
    if args.len() >= 2 {
        modes_have_their_names(args[1]@);
        assert((args + more)[1] == args[1]);
    }
}

/// A daemon does not start beside one that is alive, and removes the PID file of one that is not.
pub proof fn starts_in_detail(existing: Option<u32>, alive: bool, pid: u32)
    ensures
        start_for(existing, alive) == (Start::AlreadyRunning { pid }) <==> existing == Some(pid)
            && alive,
        start_for(existing, alive) == Start::AfterRemovingPid <==> existing is Some && !alive,
        start_for(existing, alive) == Start::AtOnce <==> existing is None,
{
}

} // verus!
