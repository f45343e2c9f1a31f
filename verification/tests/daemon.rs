use sshot::config::compose_filename;
use sshot::daemon::action_for;
use sshot::daemon::client_request;
use sshot::daemon::find_latest_file;
use sshot::daemon::mode_from_args;
use sshot::daemon::pid_path;
use sshot::daemon::pid_text;
use sshot::daemon::read_pid;
use sshot::daemon::screenshot_window_args;
use sshot::daemon::start_daemon;
use sshot::daemon::FoundFile;
use sshot::daemon::Mode;
use sshot::daemon::Request;
use sshot::daemon::Signal;
use sshot::daemon::Start;
use sshot::tray::after_attempt;
use sshot::tray::Action;
use sshot::tray::MenuEntry;
use sshot::tray::Next;
use sshot::tray::TrayIcon;

fn mode(args: &[&str]) -> Mode {
    mode_from_args(&args.iter().map(|a| a.to_string()).collect())
}

#[test]
fn the_first_argument_is_the_mode() {
    assert_eq!(mode(&[]), Mode::Daemon);
    assert_eq!(mode(&["sshot"]), Mode::Daemon);
    assert_eq!(mode(&["sshot", "--daemon"]), Mode::Daemon);
    assert_eq!(mode(&["sshot", "--trigger"]), Mode::Trigger);
    assert_eq!(mode(&["sshot", "--window"]), Mode::Window);
    assert_eq!(mode(&["sshot", "--settings"]), Mode::Settings);
    assert_eq!(mode(&["sshot", "--oneshot", "--help"]), Mode::Oneshot);
    assert_eq!(mode(&["sshot", "--help"]), Mode::Help);
    assert_eq!(mode(&["sshot", "-h"]), Mode::Help);
    assert_eq!(mode(&["--help"]), Mode::Daemon);
    assert_eq!(mode(&["sshot", "--frob"]), Mode::Daemon);
}

#[test]
fn clients_signal_the_daemon() {
    assert_eq!(
        client_request(Mode::Trigger, Some(7)),
        Request::Send { pid: 7, signal: Signal::Usr1 }
    );
    assert_eq!(
        client_request(Mode::Settings, Some(8)),
        Request::Send { pid: 8, signal: Signal::Usr2 }
    );
    assert_eq!(client_request(Mode::Trigger, None), Request::NoDaemon);
    assert_eq!(client_request(Mode::Settings, None), Request::OpenConfig);
    assert_eq!(client_request(Mode::Oneshot, Some(9)), Request::Nothing);
}

#[test]
fn signals_ask_for_actions() {
    assert_eq!(action_for(Signal::Usr1), Some(Action::TakeScreenshot));
    assert_eq!(action_for(Signal::Usr2), Some(Action::OpenConfig));
    assert_eq!(action_for(Signal::Term), Some(Action::Quit));
    assert_eq!(action_for(Signal::Int), Some(Action::Quit));
    assert_eq!(action_for(Signal::Other), None);
}

#[test]
fn the_daemon_understands_its_clients() {
    for (mode, expected) in [
        (Mode::Trigger, Action::TakeScreenshot),
        (Mode::Settings, Action::OpenConfig),
    ] {
        match client_request(mode, Some(3)) {
            Request::Send { pid, signal } => {
                assert_eq!((pid, action_for(signal)), (3, Some(expected)));
            }
            other => panic!("{other:?}"),
        }
    }
}

#[test]
fn one_daemon_runs_at_a_time() {
    assert_eq!(start_daemon(None, false), Start::AtOnce);
    assert_eq!(start_daemon(Some(5), true), Start::AlreadyRunning { pid: 5 });
    assert_eq!(start_daemon(Some(5), false), Start::AfterRemovingPid);
}

#[test]
fn the_pid_file_has_its_place() {
    assert_eq!(pid_path(Some("/run/user/7".to_string()), 1000), "/run/user/7/sshot.pid");
    assert_eq!(pid_path(None, 1000), "/run/user/1000/sshot.pid");
    assert_eq!(pid_path(Some(String::new()), 1000), "sshot.pid");
}

#[test]
fn the_pid_file_is_read_back() {
    for pid in [0, 1, 31337, u32::MAX] {
        assert_eq!(read_pid(&pid_text(pid)), Some(pid));
        assert_eq!(read_pid(&format!(" {}\n", pid_text(pid))), Some(pid));
    }
    assert_eq!(pid_text(31337), "31337");
    assert_eq!(read_pid(""), None);
    assert_eq!(read_pid("12 34"), None);
    assert_eq!(read_pid("-3"), None);
    assert_eq!(read_pid("4294967296"), None);
}

fn file(name: &str, modified: Option<(i64, u32)>) -> FoundFile {
    FoundFile { name: name.to_string(), modified }
}

#[test]
fn the_latest_screenshot_is_found() {
    let files = vec![
        file("a.png", Some((5, 1))),
        file("b.txt", Some((99, 0))),
        file("c.png", Some((5, 2))),
        file("d.png", None),
        file("e.png", Some((5, 2))),
        file("f.png", Some((-5, 9))),
    ];
    assert_eq!(find_latest_file(&files), Some(2));
    assert_eq!(find_latest_file(&files[..2].to_vec()), Some(0));
    assert_eq!(find_latest_file(&vec![]), None);
    assert_eq!(find_latest_file(&files[1..2].to_vec()), None);
}

#[test]
fn extensions_are_like_those_of_paths() {
    for name in ["x.png", ".png", "..png", "png", "x.PNG", "x.png.", "a.b.png", "xpng", "é.png"] {
        let expected = std::path::Path::new(name).extension().map(|e| e == "png").unwrap_or(false);
        let found = find_latest_file(&vec![file(name, Some((0, 0)))]);
        assert_eq!(found.is_some(), expected, "{name}");
    }
}

#[test]
fn saved_names_are_found_again() {
    for (stamped, title) in [("a-{random}", None), ("{title}", Some("w")), ("x", Some(""))] {
        let name = compose_filename(stamped, "0", title).unwrap();
        assert_eq!(find_latest_file(&vec![file(&name, Some((1, 0)))]), Some(0), "{name}");
    }
    // A name that is nothing but its extension is not found.
    let name = compose_filename("", "0", None).unwrap();
    assert_eq!(find_latest_file(&vec![file(&name, Some((1, 0)))]), None);
}

#[test]
fn niri_is_told_what_to_save() {
    assert_eq!(
        screenshot_window_args(Some("12"), "/p/x.png"),
        vec!["msg", "action", "screenshot-window", "--id", "12", "--path", "/p/x.png"]
    );
    assert_eq!(
        screenshot_window_args(None, "/p/x.png"),
        vec!["msg", "action", "screenshot-window", "--path", "/p/x.png"]
    );
}

#[test]
fn the_tray_icon_is_a_camera() {
    let icon = TrayIcon {};
    assert_eq!(icon.id(), "sshot");
    assert_eq!(icon.icon_name(), "");
    assert_eq!(icon.title(), "Screenshot");
    assert_eq!(icon.activate(), Action::OpenLastScreenshot);
    let picture = icon.icon_pixmap();
    assert_eq!((picture.width, picture.height, picture.data.len()), (24, 24, 2304));
    for y in 0..24i32 {
        for x in 0..24i32 {
            let mut expected = [0u8; 4];
            if (8..20).contains(&y) && (3..21).contains(&x) {
                expected = [255, 220, 220, 230];
            }
            if (6..9).contains(&y) && (8..14).contains(&x) {
                expected = [255, 200, 200, 210];
            }
            if (8..20).contains(&y) && (3..21).contains(&x) {
                let (dx, dy) = (x as f64 - 12.0, y as f64 - 14.0);
                let d = (dx * dx + dy * dy).sqrt();
                if d < 4.5 {
                    expected = [255, 60, 60, 70];
                }
                if d < 3.2 {
                    expected = [255, 100, 160, 220];
                }
                if d < 1.5 {
                    expected = [255, 180, 210, 240];
                }
            }
            let i = ((y * 24 + x) * 4) as usize;
            assert_eq!(picture.data[i..i + 4], expected, "{x} {y}");
        }
    }
}

#[test]
fn the_menu_has_five_items() {
    let lines: Vec<String> = TrayIcon {}
        .menu()
        .into_iter()
        .map(|entry| match entry {
            MenuEntry::Item { label, icon_name, action } => {
                format!("{label}|{icon_name}|{action:?}")
            }
            MenuEntry::Separator => "-".to_string(),
        })
        .collect();
    assert_eq!(
        lines,
        vec![
            "Take Screenshot|camera-photo|TakeScreenshot",
            "Open Screenshots Folder|folder-pictures|OpenFolder",
            "-",
            "Open Config|preferences-other|OpenConfig",
            "Reload Config|view-refresh|ReloadConfig",
            "-",
            "Quit|application-exit|Quit",
        ]
    );
}

#[test]
fn registration_is_tried_sixty_times() {
    assert_eq!(after_attempt(1, true), Next::Registered { announce: false });
    assert_eq!(after_attempt(2, true), Next::Registered { announce: true });
    let mut reported = Vec::new();
    let mut attempt = 1;
    let mut last = 0;
    while last == 0 {
        match after_attempt(attempt, false) {
            Next::Registered { .. } => panic!("registered without success"),
            Next::Retry { report, attempt: next } => {
                assert_eq!(next, attempt + 1);
                if report {
                    reported.push(attempt);
                }
                attempt = next;
            }
            Next::GiveUp { report } => {
                assert!(!report);
                last = attempt;
            }
        }
    }
    assert_eq!(last, 60);
    assert_eq!(reported, vec![1, 2, 4, 8, 16, 32]);
}
