use sshot::clock::stamp;
use sshot::clock::Moment;
use sshot::config::compose_filename;
use sshot::config::default_shortcut;
use sshot::config::id_from_bytes;
use sshot::config::title_for_file;
use sshot::config::Config;
use sshot::config::FilenameError;
use sshot::config::SaveConfig;

const NOON: Moment = Moment { seconds: 1_700_000_000, nanos: 5_000_000, offset: 3600 };

fn config() -> Config {
    Config::for_home(Some("/home/ann".to_string()))
}

#[test]
fn defaults_are_as_documented() {
    let c = config();
    assert_eq!(c.save.directory, "/home/ann/Pictures/Screenshots");
    assert_eq!(c.save.subfolder, "%Y-%m");
    assert_eq!(c.save.window_format, "{title} %Y-%m-%d-%H-%M-%S-{random}");
    assert_eq!(c.save.region_format, "%Y-%m-%d-%H-%M-%S-{random}");
    assert_eq!(c.shortcut, "Print");
    assert_eq!(default_shortcut(), "Print");
    assert_eq!(f32::from_bits(c.appearance.dim_factor), 0.75);
    assert_eq!(c.appearance.border_width, 3);
    assert_eq!(c.appearance.window_border_color, [80, 140, 255]);
    assert_eq!(c.appearance.region_border_color, [255, 255, 255]);
    assert_eq!(SaveConfig::for_home(None).directory, "/tmp/Pictures/Screenshots");
}

#[test]
fn the_configuration_file_has_its_place() {
    assert_eq!(Config::config_path_in(Some(b"/x".to_vec())), b"/x/sshot/config.json");
    assert_eq!(Config::config_path_in(Some(b"/x/".to_vec())), b"/x/sshot/config.json");
    assert_eq!(Config::config_path_in(Some(b"".to_vec())), b"sshot/config.json");
    assert_eq!(Config::config_path_in(None), b"~/.config/sshot/config.json");
    // The directory need not be text.
    assert_eq!(Config::config_path_in(Some(b"/\xff".to_vec())), b"/\xff/sshot/config.json");
}

#[test]
fn the_configuration_file_is_under_the_directory_of_now() {
    let here = dirs::config_dir().unwrap_or_else(|| std::path::PathBuf::from("~/.config"));
    let path = here.join("sshot").join("config.json");
    assert_eq!(Config::config_path(), path.into_os_string().into_encoded_bytes());
}

#[test]
fn templates_are_filled_in_local_time() {
    assert_eq!(stamp(NOON, "%Y-%m-%d-%H-%M-%S"), Some("2023-11-14-23-13-20".to_string()));
    assert_eq!(stamp(NOON, "%3f %z"), Some("005 +0100".to_string()));
    assert_eq!(stamp(NOON, "plain {random}"), Some("plain {random}".to_string()));
    assert_eq!(stamp(NOON, "%Q"), None);
    assert_eq!(stamp(Moment { offset: 90_000, ..NOON }, "%Y"), None);
    assert_eq!(stamp(Moment { seconds: i64::MAX, ..NOON }, "%Y"), None);
}

#[test]
fn default_templates_are_filled_at_all_times() {
    let save = config().save;
    for seconds in [-8_334_601_228_800, -1, 0, 1_700_000_000, 8_210_266_876_799] {
        for offset in [-86_399, 0, 86_399] {
            for nanos in [0, 999_999_999] {
                let now = Moment { seconds, nanos, offset };
                assert!(stamp(now, &save.window_format).is_some());
                assert!(stamp(now, &save.region_format).is_some());
                assert!(stamp(now, &save.subfolder).is_some());
            }
        }
    }
}

#[test]
fn identifiers_have_digits_and_small_letters() {
    assert_eq!(id_from_bytes(&vec![0, 9, 10, 35, 36, 255]), "09az03");
    assert_eq!(id_from_bytes(&vec![]), "");
}

#[test]
fn titles_are_made_safe() {
    for (title, part) in [
        ("Firefox", "Firefox"),
        ("a/b: c.txt", "a_b_ c_txt"),
        ("  spaced  ", "spaced"),
        ("__x__", "x"),
        ("* x *", " x "),
        ("café 漢字", "café 漢字"),
        ("", "window"),
        ("///", "window"),
        (" _ ", "window"),
        ("tab\there", "tab_here"),
    ] {
        assert_eq!(title_for_file(title), Some(part.to_string()), "{title:?}");
    }
}

#[test]
fn long_titles_are_cut() {
    assert_eq!(title_for_file(&"x".repeat(80)), Some("x".repeat(80)));
    assert_eq!(title_for_file(&"x".repeat(81)), Some("x".repeat(80)));
    assert_eq!(title_for_file(&"é".repeat(41)), Some("é".repeat(40)));
    assert_eq!(title_for_file(&"漢".repeat(27)), None);
    assert_eq!(title_for_file(&"漢".repeat(26)), Some("漢".repeat(26)));
}

#[test]
fn names_are_composed() {
    assert_eq!(
        compose_filename("{title} at {random}{random}", "ab12cd", Some("x/y")),
        Ok("x_y at ab12cdab12cd.png".to_string())
    );
    assert_eq!(
        compose_filename("{title}-{random}", "0", None),
        Ok("{title}-0.png".to_string())
    );
    assert_eq!(compose_filename("", "0", None), Ok(".png".to_string()));
    assert_eq!(
        compose_filename("{title}", "0", Some(&"漢".repeat(27))),
        Err(FilenameError::SplitTitle)
    );
}

#[test]
fn files_are_named_by_the_moment() {
    let bytes = vec![0, 1, 2, 10, 11, 12];
    let c = config();
    assert_eq!(
        c.filename_at(NOON, &bytes, Some("My: window")),
        Ok("My_ window 2023-11-14-23-13-20-012abc.png".to_string())
    );
    assert_eq!(
        c.filename_at(NOON, &bytes, None),
        Ok("2023-11-14-23-13-20-012abc.png".to_string())
    );
    assert_eq!(c.save_dir_at(NOON), Some("/home/ann/Pictures/Screenshots/2023-11".to_string()));
}

#[test]
fn unknown_conversions_are_refused() {
    let mut c = config();
    c.save.region_format = "%Q".to_string();
    c.save.subfolder = "%".to_string();
    assert_eq!(c.filename_at(NOON, &vec![], None), Err(FilenameError::BadTemplate));
    assert!(c.filename_at(NOON, &vec![], Some("x")).is_ok());
    assert_eq!(c.format_filename(None), Err(FilenameError::BadTemplate));
    assert_eq!(c.save_dir_at(NOON), None);
    assert_eq!(c.save_dir(), None);
}

#[test]
fn an_absolute_subfolder_stands_alone() {
    let mut c = config();
    c.save.subfolder = "/data/%Y".to_string();
    assert_eq!(c.save_dir_at(NOON), Some("/data/2023".to_string()));
}

#[test]
fn names_of_now_differ_by_chance() {
    let c = config();
    let mut names = Vec::new();
    for _ in 0..8 {
        let name = c.format_filename(None).unwrap();
        assert!(name.ends_with(".png"));
        assert_eq!(name.len(), "2023-11-14-23-13-20-012abc.png".len());
        let id = &name[20..26];
        assert!(id.chars().all(|c| c.is_ascii_digit() || c.is_ascii_lowercase()), "{id}");
        names.push(id.to_string());
    }
    names.sort();
    names.dedup();
    assert!(names.len() > 1);
    let year = chrono::Local::now().format("%Y").to_string();
    assert!(c.format_filename(Some("w")).unwrap().starts_with(&format!("w {year}")));
    assert!(c.save_dir().unwrap().starts_with(&format!("/home/ann/Pictures/Screenshots/{year}-")));
}
