use media_launcher::number::{format_two_digit, parse_u32};
use media_launcher::os::TargetOs;
use media_launcher::paths::{extension, file_name, join, path_components};
use media_launcher::text::{chars_contain, lower_chars, str_equal, to_chars};

#[test]
fn parse_u32_reads_like_std() {
    assert_eq!(parse_u32("13"), Some(13));
    assert_eq!(parse_u32("07"), Some(7));
    assert_eq!(parse_u32("+5"), Some(5));
    assert_eq!(parse_u32(""), None);
    assert_eq!(parse_u32("+"), None);
    assert_eq!(parse_u32("-1"), None);
    assert_eq!(parse_u32("1a"), None);
    assert_eq!(parse_u32("4294967295"), Some(4294967295));
    assert_eq!(parse_u32("4294967296"), None);
    assert_eq!(parse_u32("١٢"), None);
    for s in ["0", "42", "+17", "99999", "x", "00012"] {
        assert_eq!(parse_u32(s), s.parse::<u32>().ok());
    }
}

#[test]
fn format_two_digit_pads_to_two() {
    assert_eq!(format_two_digit(0), "00");
    assert_eq!(format_two_digit(7), "07");
    assert_eq!(format_two_digit(13), "13");
    assert_eq!(format_two_digit(123), "123");
    for n in [0u32, 1, 9, 10, 99, 100, 4294967295] {
        assert_eq!(format_two_digit(n), format!("{:02}", n));
    }
}

#[test]
fn two_digit_reads_back() {
    for n in [0u32, 5, 10, 42, 1000, 4294967295] {
        assert_eq!(parse_u32(&format_two_digit(n)), Some(n));
    }
}

#[test]
fn file_name_matches_std_path() {
    let cases = [
        "root/RUS Sound/ep 01.mka",
        "/usr/bin/",
        "tmp/foo.txt",
        "foo.txt/.",
        "foo.txt/.//",
        "foo.txt/..",
        "/",
        "",
        ".",
        "./a",
        "a//b",
    ];
    for c in cases {
        let expected = std::path::Path::new(c)
            .file_name()
            .map(|s| s.to_string_lossy().into_owned());
        assert_eq!(file_name(TargetOs::Linux, c), expected, "file_name of {c:?}");
    }
}

#[test]
fn extension_matches_std_path() {
    let cases = [
        "a/b.MKV",
        ".hidden",
        "dir/.hidden",
        "foo.",
        "a.b.c",
        "noext",
        "x/y.tar.gz",
        "..",
        "a/..",
    ];
    for c in cases {
        let expected = std::path::Path::new(c)
            .extension()
            .map(|s| s.to_string_lossy().into_owned());
        assert_eq!(extension(TargetOs::Linux, c), expected, "extension of {c:?}");
    }
}

#[test]
fn windows_paths_split_on_both_separators() {
    assert_eq!(
        file_name(TargetOs::Windows, "C:\\shows\\ep 02.ass"),
        Some("ep 02.ass".to_string())
    );
    assert_eq!(
        file_name(TargetOs::Linux, "C:\\shows\\ep 02.ass"),
        Some("C:\\shows\\ep 02.ass".to_string())
    );
}

#[test]
fn join_adds_one_separator() {
    assert_eq!(join(TargetOs::Linux, "root", "05.bash"), "root/05.bash");
    assert_eq!(join(TargetOs::Linux, "root/", "05.bash"), "root/05.bash");
    assert_eq!(join(TargetOs::Linux, "", "mpv"), "mpv");
    assert_eq!(join(TargetOs::Linux, "root", "/abs"), "/abs");
    assert_eq!(join(TargetOs::Windows, "C:\\shows", "05.cmd"), "C:\\shows\\05.cmd");
    for (d, n) in [("root", "05.bash"), ("a/b/", "c"), ("", "x")] {
        assert_eq!(
            join(TargetOs::Linux, d, n),
            std::path::Path::new(d).join(n).to_string_lossy()
        );
    }
}

#[test]
fn path_components_match_std() {
    let cases = ["/a/b", "a/./b", "./a", "a/../b", "a//b/", ".", "/"];
    for c in cases {
        let expected: Vec<String> = std::path::Path::new(c)
            .components()
            .map(|p| p.as_os_str().to_string_lossy().into_owned())
            .collect();
        assert_eq!(path_components(TargetOs::Linux, c), expected, "components of {c:?}");
    }
}

#[test]
fn text_helpers() {
    assert!(str_equal("mpv", "mpv"));
    assert!(!str_equal("mpv", "mpv.exe"));
    let hay = lower_chars(&to_chars("Fonts Folder"));
    assert!(chars_contain(&hay, &to_chars("font")));
    assert!(!chars_contain(&hay, &to_chars("fonts folder!")));
    assert_eq!(lower_chars(&to_chars("ШРИФТЫ Ab")), to_chars("ШРИФТЫ ab"));
}

#[test]
fn windows_components_start_with_the_drive() {
    let s = |v: &[&str]| v.iter().map(|x| x.to_string()).collect::<Vec<String>>();
    assert_eq!(path_components(TargetOs::Windows, "C:\\a\\b"), s(&["C:", "\\", "a", "b"]));
    assert_eq!(path_components(TargetOs::Windows, "c:x"), s(&["c:", "x"]));
    assert_eq!(path_components(TargetOs::Windows, "C:"), s(&["C:"]));
    assert_eq!(path_components(TargetOs::Windows, "C:.\\y"), s(&["C:", "y"]));
    assert_eq!(path_components(TargetOs::Linux, "C:/a"), s(&["C:", "a"]));
}

#[test]
fn windows_drive_prefix_in_names_and_joins() {
    assert_eq!(file_name(TargetOs::Windows, "C:"), None);
    assert_eq!(file_name(TargetOs::Windows, "C:x.mkv"), Some("x.mkv".to_string()));
    assert_eq!(file_name(TargetOs::Windows, "C:\\"), None);
    assert_eq!(extension(TargetOs::Windows, "C:x.mkv"), Some("mkv".to_string()));
    assert_eq!(file_name(TargetOs::Linux, "C:"), Some("C:".to_string()));
    assert_eq!(join(TargetOs::Windows, "C:", "x"), "C:x");
    assert_eq!(join(TargetOs::Windows, "C:\\a", "\\x"), "C:\\x");
    assert_eq!(join(TargetOs::Windows, "C:\\a", "D:y"), "D:y");
    assert_eq!(join(TargetOs::Windows, "\\a", "\\x"), "\\x");
    assert_eq!(join(TargetOs::Windows, "C:\\a", "b"), "C:\\a\\b");
}

#[test]
fn windows_unc_device_and_verbatim_prefixes() {
    let s = |v: &[&str]| v.iter().map(|x| x.to_string()).collect::<Vec<String>>();
    let w = TargetOs::Windows;
    assert_eq!(path_components(w, "\\\\server\\share"), s(&["\\\\server\\share", "\\"]));
    assert_eq!(path_components(w, "\\\\server\\share\\a"), s(&["\\\\server\\share", "\\", "a"]));
    assert_eq!(file_name(w, "\\\\server\\share"), None);
    assert_eq!(file_name(w, "\\\\server\\share\\a.mkv"), Some("a.mkv".to_string()));
    assert_eq!(path_components(w, "\\\\server"), s(&["\\", "server"]));
    assert_eq!(path_components(w, "\\\\.\\COM1"), s(&["\\\\.\\COM1", "\\"]));
    assert_eq!(path_components(w, "\\\\?\\C:\\a/b\\."), s(&["\\\\?\\C:", "\\", "a/b", "."]));
    assert_eq!(file_name(w, "\\\\?\\C:\\a/b"), Some("a/b".to_string()));
    assert_eq!(file_name(w, "\\\\?\\C:\\a\\."), None);
    assert_eq!(
        path_components(w, "\\\\?\\UNC\\srv\\sh\\x"),
        s(&["\\\\?\\UNC\\srv\\sh", "\\", "x"])
    );
    assert_eq!(path_components(w, "\\\\?\\pipe\\x"), s(&["\\\\?\\pipe", "\\", "x"]));
    assert_eq!(join(w, "\\\\?\\C:\\show", "01.cmd"), "\\\\?\\C:\\show\\01.cmd");
    assert_eq!(join(w, "\\\\?\\C:\\a\\\\b\\", "x"), "\\\\?\\C:\\a\\b\\x");
    assert_eq!(join(w, "\\\\?\\C:\\a\\b", "..\\c"), "\\\\?\\C:\\a\\c");
    assert_eq!(join(w, "\\\\?\\C:\\a", "\\x"), "\\\\?\\C:\\x");
    assert_eq!(join(w, "\\\\server\\share", "x"), "\\\\server\\share\\x");
    assert_eq!(join(w, "\\\\server\\share\\a", "\\x"), "\\\\server\\share\\x");
}
