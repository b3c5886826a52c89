use std::collections::BTreeMap;

use media_launcher::media_scan::{
    classify, handle_media_file, is_font_dir, is_script_file, is_supported_file,
    validate_root_dir, episode_script_contents, episode_script_path, EpisodeFiles, FileClass,
    MediaKind, MediaOutcome, RootDirArg,
};
use media_launcher::os::TargetOs;
use media_launcher::pattern::{episode_from_matches, EpisodePatterns, Pattern};

fn episode(name: &str) -> Option<u32> {
    EpisodePatterns::new().unwrap().extract_episode_number(name)
}

#[test]
fn episode_number_from_marker_or_first_two_digits() {
    assert_eq!(
        episode("[SubsPlease] Solo Leveling - 13 (1080p) [HASH13].mkv"),
        Some(13)
    );
    assert_eq!(episode("Show.S01E05.1080p.mkv"), Some(5));
    assert_eq!(episode("Show 2021 E1x.mkv"), Some(20));
    assert_eq!(episode("no digits here.mkv"), None);
    assert_eq!(episode("one 7 digit.mkv"), None);
    // The first two digits win, even when they are part of a resolution.
    assert_eq!(episode("Show 1080p - 05.mkv"), Some(10));
}

#[test]
fn unicode_digits_match_but_do_not_parse() {
    // `\d` matches any Unicode digit; `parse::<u32>` reads only ASCII ones.
    assert_eq!(episode("Show ١٢.mkv"), None);
    assert_eq!(episode("Show E١٢ 34.mkv"), None);
}

#[test]
fn episode_from_matches_prefers_marker() {
    assert_eq!(episode_from_matches(Some(Some("07".into())), Some("99".into())), Some(7));
    assert_eq!(episode_from_matches(Some(None), Some("99".into())), None);
    assert_eq!(episode_from_matches(None, Some("42".into())), Some(42));
    assert_eq!(episode_from_matches(None, None), None);
}

#[test]
fn invalid_pattern_is_an_error() {
    assert!(Pattern::new("foo(bar").is_err());
    assert!(Pattern::new("\\d\\d").is_ok());
}

#[test]
fn classify_by_extension_in_any_case() {
    let os = TargetOs::Linux;
    assert_eq!(classify(os, "a/ep 01.MKV"), FileClass::Media(MediaKind::Video));
    assert_eq!(classify(os, "a/ep 01.ass"), FileClass::Media(MediaKind::Subtitle));
    assert_eq!(classify(os, "a/ep 01.Mka"), FileClass::Media(MediaKind::Audio));
    assert_eq!(classify(os, "a/font 01.ttf"), FileClass::Media(MediaKind::Font));
    assert_eq!(classify(os, "a/01.bash"), FileClass::Script);
    assert_eq!(classify(os, "a/01.CMD"), FileClass::Script);
    assert_eq!(classify(os, "a/notes.txt"), FileClass::Unsupported);
    assert_eq!(classify(os, "a/.mkv"), FileClass::Unsupported);
    assert!(is_script_file(os, "01.bash"));
    assert!(!is_script_file(os, "01.mkv"));
    assert!(is_supported_file(os, "01.ttf"));
    assert!(!is_supported_file(os, "01.txt"));
}

#[test]
fn handle_media_file_places_by_episode_and_role() {
    let pats = EpisodePatterns::new().unwrap();
    let os = TargetOs::Linux;
    let mut s: BTreeMap<u32, EpisodeFiles> = BTreeMap::new();

    let r = handle_media_file(os, &pats, "root/Show - 03.mkv".into(), &mut s);
    assert!(matches!(r, MediaOutcome::Placed(3, MediaKind::Video)));
    let r = handle_media_file(os, &pats, "root/sub/Show - 03.ass".into(), &mut s);
    assert!(matches!(r, MediaOutcome::Placed(3, MediaKind::Subtitle)));
    let r = handle_media_file(os, &pats, "root/snd/Show - 03.mka".into(), &mut s);
    assert!(matches!(r, MediaOutcome::Placed(3, MediaKind::Audio)));
    let r = handle_media_file(os, &pats, "root/snd2/Show - 03.mka".into(), &mut s);
    assert!(matches!(r, MediaOutcome::Placed(3, MediaKind::Audio)));
    // A later video replaces the earlier one.
    handle_media_file(os, &pats, "root/v2/Show - 03.mkv".into(), &mut s);
    // A font with a number creates an entry without a video.
    let r = handle_media_file(os, &pats, "root/Font 04.ttf".into(), &mut s);
    assert!(matches!(r, MediaOutcome::Placed(4, MediaKind::Font)));
    let r = handle_media_file(os, &pats, "root/01.bash".into(), &mut s);
    assert!(matches!(r, MediaOutcome::Script));
    let r = handle_media_file(os, &pats, "root/readme.txt".into(), &mut s);
    assert!(matches!(r, MediaOutcome::Unknown(ref n) if n == "readme.txt"));
    let r = handle_media_file(os, &pats, "root/extras.mkv".into(), &mut s);
    assert!(matches!(r, MediaOutcome::NoEpisode(ref n) if n == "extras.mkv"));

    assert_eq!(s.len(), 2);
    let e3 = &s[&3];
    assert_eq!(e3.video.as_deref(), Some("root/v2/Show - 03.mkv"));
    assert_eq!(e3.subtitles, vec!["root/sub/Show - 03.ass".to_string()]);
    assert_eq!(
        e3.audio,
        vec!["root/snd/Show - 03.mka".to_string(), "root/snd2/Show - 03.mka".to_string()]
    );
    let e4 = &s[&4];
    assert!(e4.video.is_none() && e4.audio.is_empty() && e4.subtitles.is_empty());
}

#[test]
fn font_folders_by_name() {
    assert!(is_font_dir(TargetOs::Linux, "root/Fonts"));
    assert!(is_font_dir(TargetOs::Linux, "root/attached FONT files"));
    assert!(is_font_dir(TargetOs::Linux, "root/шрифты"));
    // Only ASCII letters are lower-cased.
    assert!(!is_font_dir(TargetOs::Linux, "root/ШРИФТЫ"));
    assert!(!is_font_dir(TargetOs::Linux, "root/Subs"));
}

#[test]
fn validate_root_dir_messages() {
    assert_eq!(validate_root_dir("pick", false, false), Ok(RootDirArg::Pick));
    assert_eq!(
        validate_root_dir("/nope", false, false),
        Err("Path does not exist: /nope".to_string())
    );
    assert_eq!(
        validate_root_dir("/file", true, false),
        Err("Not a directory: /file".to_string())
    );
    assert_eq!(
        validate_root_dir("/dir", true, true),
        Ok(RootDirArg::Dir("/dir".to_string()))
    );
}

#[test]
fn episode_script_names_and_contents() {
    assert_eq!(episode_script_path(TargetOs::Linux, "root", 5), "root/05.bash");
    assert_eq!(episode_script_path(TargetOs::MacOs, "root", 13), "root/13.bash");
    assert_eq!(episode_script_path(TargetOs::Windows, "C:\\show", 120), "C:\\show\\120.cmd");
    assert_eq!(
        episode_script_contents(TargetOs::Linux, "mpv \"a.mkv\""),
        "#!/bin/bash\nmpv \"a.mkv\""
    );
    assert_eq!(episode_script_contents(TargetOs::Windows, "mpv \"a.mkv\""), "mpv \"a.mkv\"");
}

#[test]
fn distinct_episodes_distinct_scripts() {
    let mut seen = std::collections::BTreeSet::new();
    for ep in [0u32, 1, 9, 10, 11, 99, 100, 101, 1000] {
        assert!(seen.insert(episode_script_path(TargetOs::Linux, "root", ep)));
    }
}

#[test]
fn rejected_pattern_is_named_in_the_error() {
    let e = Pattern::new("foo(bar").err().unwrap();
    assert_eq!(e.pattern, "foo(bar");
}

#[test]
fn macos_launchers_are_bash_scripts() {
    assert_eq!(media_launcher::os::script_ext(TargetOs::MacOs), "bash");
}
