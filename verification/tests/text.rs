use sshot::text::alphanumeric;
use sshot::text::chars_of;
use sshot::text::cut_range;
use sshot::text::decimal_text;
use sshot::text::find_word;
use sshot::text::join_bytes;
use sshot::text::join_path;
use sshot::text::parse_u32;
use sshot::text::replace_all;
use sshot::text::same_text;
use sshot::text::space;
use sshot::text::text_of;
use sshot::text::trim_range;
use sshot::text::CharClass;

fn parse(s: &str) -> Option<u32> {
    let chars = chars_of(s);
    parse_u32(&chars, 0, chars.len())
}

fn trim(s: &str, class: CharClass) -> String {
    let chars = chars_of(s);
    let (a, b) = trim_range(&chars, 0, chars.len(), class);
    text_of(&chars, a, b)
}

fn words(s: &str) -> Vec<String> {
    let chars = chars_of(s);
    let mut out = Vec::new();
    let mut at = 0;
    while let Some((a, b)) = find_word(&chars, at) {
        out.push(text_of(&chars, a, b));
        at = b;
    }
    out
}

#[test]
fn space_is_unicode_white_space() {
    for n in 0..=0x10ffff_u32 {
        if let Some(c) = char::from_u32(n) {
            assert_eq!(space(c), c.is_whitespace(), "{n:x}");
        }
    }
}

#[test]
fn alphanumeric_is_unicode_alphanumeric() {
    for n in 0..=0x10ffff_u32 {
        if let Some(c) = char::from_u32(n) {
            assert_eq!(alphanumeric(c), c.is_alphanumeric(), "{n:x}");
        }
    }
    assert!(alphanumeric('é'));
    assert!(alphanumeric('漢'));
    assert!(!alphanumeric('—'));
}

#[test]
fn texts_compare_by_their_characters() {
    assert!(same_text("", ""));
    assert!(same_text("größe", "größe"));
    assert!(!same_text("a", "b"));
    assert!(!same_text("a", "aa"));
}

#[test]
fn numbers_parse_like_u32() {
    for s in [
        "0", "7", "007", "+5", "4294967295", "4294967296", "99999999999999999999", "", "+", "-1",
        "1 ", " 1", "12a", "++1", "+-1", "٣",
    ] {
        assert_eq!(parse(s), s.parse::<u32>().ok(), "{s:?}");
    }
}

#[test]
fn decimal_text_writes_and_reads_back() {
    assert_eq!(decimal_text(0), "0");
    assert_eq!(decimal_text(9), "9");
    assert_eq!(decimal_text(10), "10");
    assert_eq!(decimal_text(u64::MAX), "18446744073709551615");
    for n in [0, 1, 42, 100, u32::MAX] {
        assert_eq!(parse(&decimal_text(n as u64)), Some(n));
    }
}

#[test]
fn words_split_at_white_space() {
    for s in ["", "  ", "a", " a  b\tc\n", "1920 1080", "\u{3000}x\u{2028}y"] {
        let expected: Vec<&str> = s.split_whitespace().collect();
        assert_eq!(words(s), expected, "{s:?}");
    }
}

#[test]
fn trimming_takes_both_ends() {
    for s in ["", " ", "a", " a b ", "\t\u{a0}x\n", "\u{2003}\u{2003}"] {
        assert_eq!(trim(s, CharClass::Space), s.trim(), "{s:?}");
    }
    for s in ["", "_", "__a_b__", "a_", "_ a _"] {
        assert_eq!(trim(s, CharClass::Only('_')), s.trim_matches('_'), "{s:?}");
    }
}

#[test]
fn cutting_goes_by_bytes() {
    let chars = chars_of("aéb漢c😀");
    // The characters end at the bytes 1, 3, 4, 7, 8 and 12.
    assert_eq!(cut_range(&chars, 0, 6, 12), Some(6));
    assert_eq!(cut_range(&chars, 0, 6, 100), Some(6));
    assert_eq!(cut_range(&chars, 0, 6, 8), Some(5));
    assert_eq!(cut_range(&chars, 0, 6, 7), Some(4));
    assert_eq!(cut_range(&chars, 0, 6, 3), Some(2));
    assert_eq!(cut_range(&chars, 0, 6, 0), Some(0));
    for limit in [2, 5, 6, 9, 10, 11] {
        assert_eq!(cut_range(&chars, 0, 6, limit), None);
    }
}

#[test]
fn replacing_is_like_str_replace() {
    for (s, pat, rep) in [
        ("", "ab", "x"),
        ("ab", "ab", ""),
        ("abab", "ab", "x"),
        ("aab", "ab", "ab"),
        ("aaaaa", "aa", "b"),
        ("{title} - {title}", "{title}", "é"),
        ("nothing here", "{random}", "1"),
    ] {
        assert_eq!(replace_all(s, pat, rep), s.replace(pat, rep), "{s:?}");
    }
}

#[test]
fn paths_join_like_path_bufs() {
    for (dir, path) in [
        ("/a", "b"),
        ("/a/", "b"),
        ("/a", "/b"),
        ("", "b"),
        ("/a", ""),
        ("", ""),
        ("~/.config", "sshot"),
    ] {
        let expected = std::path::PathBuf::from(dir).join(path);
        assert_eq!(join_path(dir, path), expected.to_str().unwrap(), "{dir:?} {path:?}");
        let bytes = join_bytes(dir.as_bytes(), path.as_bytes());
        assert_eq!(bytes, expected.into_os_string().into_encoded_bytes(), "{dir:?} {path:?}");
    }
}
