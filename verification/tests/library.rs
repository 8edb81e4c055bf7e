use show_renamer::cleaning::try_clean_vost;
use show_renamer::file_search::SrrFileSet;
use show_renamer::info::{decide_info, InfoProbe};
use show_renamer::text::{parse_u32, push_decimal, push_decimal_pad2, strip_chars, trim_text};
use show_renamer::{
    clean_name, confirms_rename, file_name_extension, get_info, parse_number_line,
    suggested_name, try_clean_name, try_get_info, Config,
};
use std::path::{Path, PathBuf};

#[test]
fn clean_name_doc_example() {
    assert_eq!(
        clean_name(&"Breaking Bad x264 season 1 ep 4".to_string()),
        "breaking bad"
    );
}

#[test]
fn get_info_doc_example() {
    assert_eq!(
        get_info(&"Breaking Bad x264 season 1 ep 4".to_string()).unwrap(),
        [1, 4]
    );
}

#[test]
fn try_variants_agree() {
    let name = "The Office S02E05 720p.mkv".to_string();
    assert_eq!(try_clean_name(&name), Some(clean_name(&name)));
    assert_eq!(try_get_info(&name), Some(get_info(&name)));
    assert_eq!(get_info(&name), Some([2, 5]));
    assert_eq!(try_clean_vost("Hello VOSTFR.mp4"), Some("hello.mp4".to_string()));
}

#[test]
fn get_info_nothing_found() {
    assert_eq!(get_info(&"Foo.mp4".to_string()), None);
    assert_eq!(try_get_info(&"Foo.mp4".to_string()), Some(None));
}

#[test]
fn get_info_season_without_episode() {
    assert_eq!(get_info(&"Foo Season 3.mkv".to_string()), Some([3, 0]));
}

#[test]
fn get_info_number_too_large() {
    // the S..E.. marker finds a season that is not a u32
    assert_eq!(try_get_info(&"Foo S99999999999E01.mkv".to_string()), None);
}

#[test]
fn get_info_ignores_case() {
    let a = get_info(&"FOO S03E07.AVI".to_string());
    let b = get_info(&"foo s03e07.avi".to_string());
    assert_eq!(a, b);
    assert_eq!(a, Some([3, 7]));
}

#[test]
fn clean_name_ignores_case_and_is_trimmed() {
    let a = clean_name(&"THE WIRE S01E01 x264.MKV".to_string());
    let b = clean_name(&"the wire s01e01 x264.mkv".to_string());
    assert_eq!(a, b);
    assert_eq!(a, "the wire");
    assert_eq!(a.trim(), a);
}

#[test]
fn decide_on_marker() {
    let mut p = empty_probe();
    p.marker = true;
    p.marker_season = Some("01".to_string());
    p.marker_episode = Some("12".to_string());
    assert_eq!(decide_info(&p), Some(Some([1, 12])));
    p.marker_episode = Some("4294967296".to_string());
    assert_eq!(decide_info(&p), None);
    p.marker_episode = None;
    assert_eq!(decide_info(&p), None);
}

#[test]
fn decide_on_season() {
    let mut p = empty_probe();
    p.season = true;
    p.season_number = Some("5".to_string());
    assert_eq!(decide_info(&p), Some(Some([5, 0])));
    p.rest_episode = true;
    p.rest_episode_match = Some("7".to_string());
    assert_eq!(decide_info(&p), Some(Some([5, 7])));
    p.rest_episode_match = Some(" 7".to_string());
    assert_eq!(decide_info(&p), None);
    p.rest_dash = true;
    p.rest_dash_number = Some("10".to_string());
    assert_eq!(decide_info(&p), Some(Some([5, 10])));
}

#[test]
fn decide_on_episode_only() {
    let mut p = empty_probe();
    p.dash = true;
    p.dash_number = Some("13".to_string());
    assert_eq!(decide_info(&p), Some(Some([1, 13])));
    let mut q = empty_probe();
    q.episode = true;
    q.episode_prefix = Some("episode ".to_string());
    assert_eq!(decide_info(&q), None);
    assert_eq!(decide_info(&empty_probe()), Some(None));
}

fn empty_probe() -> InfoProbe {
    InfoProbe {
        marker: false,
        marker_season: None,
        marker_episode: None,
        season: false,
        season_number: None,
        rest_dash: false,
        rest_dash_number: None,
        rest_episode: false,
        rest_episode_match: None,
        dash: false,
        dash_number: None,
        episode: false,
        episode_prefix: None,
    }
}

#[test]
fn parse_u32_like_std() {
    for s in [
        "0", "12", "+7", "-1", "", "+", "4294967295", "4294967296", "1a", " 1", "007",
        "\u{663}", "99999999999999999999",
    ] {
        assert_eq!(parse_u32(s), s.parse::<u32>().ok(), "{:?}", s);
    }
}

#[test]
fn trim_like_std() {
    for s in ["  a b \n", "\u{3000}x\u{a0}", " \t\r\n", "", "x", "\u{85}y\u{2029}", "\u{200b}z"] {
        assert_eq!(trim_text(s), s.trim(), "{:?}", s);
    }
}

#[test]
fn strip_separators() {
    assert_eq!(strip_chars("a:b-c_d\ne", &[':', '\n', '-', '_']), "abcde");
    assert_eq!(strip_chars("abc", &[]), "abc");
}

#[test]
fn decimal_writing() {
    let mut s = String::new();
    push_decimal(&mut s, 4294967295);
    assert_eq!(s, "4294967295");
    let mut t = String::from("S");
    push_decimal_pad2(&mut t, 4);
    push_decimal_pad2(&mut t, 0);
    push_decimal_pad2(&mut t, 123);
    assert_eq!(t, "S0400123");
}

#[test]
fn suggested_name_format() {
    assert_eq!(
        suggested_name("Breaking Bad", 1, 4, "Cancer Man", "mkv"),
        "Breaking Bad - S01E04 - Cancer Man.mkv"
    );
    assert_eq!(
        suggested_name("What? (US)", 12, 105, "A/B: <c>|*\\", "avi"),
        "What US - S12E105 - AB c.avi"
    );
}

#[test]
fn suggested_name_has_no_illegal_chars() {
    let name = suggested_name("<|>:/\\?*()", 3, 9, "()?", "m|p4");
    for c in ['<', '|', '>', ':', '/', '\\', '?', '*', '(', ')'] {
        assert!(!name.contains(c));
    }
    assert_eq!(name, " - S03E09 - .mp4");
}

#[test]
fn numbers_read_back() {
    for n in [0u32, 7, 10, 99, 100, 4294967295] {
        let mut s = String::new();
        push_decimal_pad2(&mut s, n);
        assert_eq!(parse_number_line(&s), Some(n));
        assert_eq!(parse_u32(&s), Some(n));
    }
}

#[test]
fn extension_like_path() {
    for name in ["a.mkv", "a.tar.gz", ".bashrc", "noext", "..", ".", "a.", "", "x..y"] {
        assert_eq!(
            file_name_extension(name),
            Path::new(name).extension().map(|e| e.to_str().unwrap().to_string()),
            "{:?}",
            name
        );
    }
}

#[test]
fn typed_numbers() {
    assert_eq!(parse_number_line(" 12\n"), Some(12));
    assert_eq!(parse_number_line("x\n"), None);
    assert_eq!(parse_number_line("\n"), None);
}

#[test]
fn consent() {
    assert!(confirms_rename("y\n"));
    assert!(confirms_rename("  y "));
    assert!(!confirms_rename("yes\n"));
    assert!(!confirms_rename("Y\n"));
    assert!(!confirms_rename("\n"));
}

#[test]
fn file_sets() {
    assert!(SrrFileSet::new().file_set.is_empty());
    let one = SrrFileSet::from_existing_path(PathBuf::from("/tmp/x.mkv"), true).unwrap();
    assert_eq!(one.file_set, vec![PathBuf::from("/tmp/x.mkv")]);
    assert!(SrrFileSet::from_existing_path(PathBuf::from("/nope"), false).is_none());
    let listed = SrrFileSet::from_listing(vec![
        (PathBuf::from("d/a.mkv"), false),
        (PathBuf::from("d/sub"), true),
        (PathBuf::from("d/b.mkv"), false),
    ]);
    assert_eq!(
        listed.file_set,
        vec![PathBuf::from("d/a.mkv"), PathBuf::from("d/b.mkv")]
    );
}

#[test]
fn config_keeps_its_settings() {
    let c = Config::new(vec![PathBuf::from("a.mkv")], "fr".to_string(), "key".to_string())
        .unwrap();
    assert_eq!(c.filenames, vec![PathBuf::from("a.mkv")]);
    assert_eq!(c.lang, "fr");
    assert_eq!(c.api_key, "key");
}

#[test]
fn clean_name_removes_episode_markers() {
    assert_eq!(clean_name(&"Foo Episode 10.mp4".to_string()), "foo");
    assert_eq!(clean_name(&"Foo Episodes 3.mkv".to_string()), "foo");
    assert_eq!(clean_name(&"Foo Ep 10.mp4".to_string()), "foo");
    assert_eq!(clean_name(&"Episode 2 Foo.mp4".to_string()), "foo");
}

#[test]
fn ascii_case_does_not_matter() {
    for name in [
        "Foo Episode 10.mp4",
        "The Office S02E05 720p.mkv",
        "Breaking Bad x264 season 1 ep 4",
        "(Season 2) - 10 Foo.mp4",
    ] {
        let n = name.to_string();
        let up = name.to_ascii_uppercase();
        let low = name.to_ascii_lowercase();
        assert_eq!(clean_name(&n), clean_name(&up));
        assert_eq!(clean_name(&n), clean_name(&low));
        assert_eq!(get_info(&n), get_info(&up));
        assert_eq!(get_info(&n), get_info(&low));
    }
}
