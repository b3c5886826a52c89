use std::collections::{BTreeSet, HashMap};
use std::path::PathBuf;
use std::sync::Mutex;

use media_launcher::app::{run_with, Args, RunError};
use media_launcher::fs_access::{Fs, FsError};
use media_launcher::media_scan::{scan_dir_with, ScanError, ScanNotice};
use media_launcher::os::{
    is_on_path_with, path_program_name, resolve_program_name_with, script_ext,
    set_script_permissions_with, TargetOs,
};
use media_launcher::players::{
    resolve_player_with, LaunchError, PlayerError, PlayerKind, SelectedPlayer,
};

#[derive(Debug, Default)]
struct MockFs {
    dirs: BTreeSet<String>,
    files: BTreeSet<String>,
    dir_entries: HashMap<String, Vec<String>>,
    writes: Mutex<HashMap<String, Vec<u8>>>,
}

fn path_str(p: &PathBuf) -> String {
    p.to_string_lossy().into_owned()
}

impl MockFs {
    fn add_dir(&mut self, dir: &PathBuf) {
        let dir = path_str(dir);
        self.dirs.insert(dir.clone());
        self.dir_entries.entry(dir).or_default();
    }

    fn add_file(&mut self, path: &PathBuf) {
        if let Some(parent) = path.parent() {
            let parent = parent.to_path_buf();
            self.add_dir(&parent);
            self.dir_entries
                .entry(path_str(&parent))
                .or_default()
                .push(path_str(path));
        }
        self.files.insert(path_str(path));
    }

    fn add_child_dir(&mut self, parent: &PathBuf, child: &PathBuf) {
        self.add_dir(parent);
        self.add_dir(child);
        self.dir_entries
            .entry(path_str(parent))
            .or_default()
            .push(path_str(child));
    }
}

impl Fs for MockFs {
    fn read_dir_paths(&self, dir: &str) -> Result<Vec<String>, FsError> {
        Ok(self.dir_entries.get(dir).cloned().unwrap_or_default())
    }

    fn is_dir(&self, path: &str) -> bool {
        self.dirs.contains(path)
    }

    fn is_file(&self, path: &str) -> bool {
        self.files.contains(path)
    }

    fn write(&self, path: &str, contents: &[u8]) -> Result<(), FsError> {
        let mut writes = self.writes.lock().unwrap();
        writes.insert(path.to_string(), contents.to_vec());
        Ok(())
    }

    fn canonicalize(&self, path: &str) -> Result<String, FsError> {
        Ok(path.to_string())
    }

    fn set_executable(&self, _path: &str) -> Result<(), FsError> {
        Ok(())
    }
}

#[test]
fn scan_dir_with_mock_fs_solo_leveling_tv2_groups_episodes() {
    let mut fs = MockFs::default();

    let root = PathBuf::from("root");
    let rus = root.join("RUS Sound");
    let sub = root.join("SUB");

    fs.add_dir(&root);
    fs.add_child_dir(&root, &rus);
    fs.add_child_dir(&root, &sub);

    for ep in 13..=25 {
        let hash = format!("HASH{ep:02}");

        let mkv = root.join(format!(
            "[SubsPlease] Solo Leveling - {ep:02} (1080p) [{hash}].mkv"
        ));
        fs.add_file(&mkv);

        let mka = rus.join(format!(
            "[SubsPlease] Solo Leveling - {ep:02} (1080p) [{hash}].mka"
        ));
        fs.add_file(&mka);

        let ass = sub.join(format!(
            "[SubsPlease] Solo Leveling - {ep:02} (1080p) [{hash}].ass"
        ));
        fs.add_file(&ass);
    }

    let scan = scan_dir_with(&fs, TargetOs::Linux, &path_str(&root)).unwrap();
    let structure = scan.structure;
    let font_dir = scan.font_dir;

    assert_eq!(font_dir, None);
    assert_eq!(structure.len(), 13);

    for ep in 13..=25 {
        let entry = structure.get(&ep).unwrap();
        assert!(entry.video.is_some());
        assert_eq!(entry.audio.len(), 1);
        assert_eq!(entry.subtitles.len(), 1);
    }
}

#[test]
fn is_program_in_path_with_mock_fs_uses_fs_for_existence() {
    let mut fs = MockFs::default();

    let bin1 = PathBuf::from("bin1");
    let bin2 = PathBuf::from("bin2");
    fs.add_dir(&bin1);
    fs.add_dir(&bin2);

    let decorated = path_program_name(TargetOs::Linux, "mpv");
    fs.add_file(&bin2.join(decorated));

    let path_dirs = vec![path_str(&bin1), path_str(&bin2)];
    let ok = is_on_path_with(&fs, TargetOs::Linux, &path_dirs, "mpv");

    assert!(ok);
}

#[test]
fn app_run_with_mock_fs_writes_scripts() {
    let mut fs = MockFs::default();

    let root = PathBuf::from("root");
    let rus = root.join("RUS Sound");
    let sub = root.join("SUB");

    fs.add_dir(&root);
    fs.add_child_dir(&root, &rus);
    fs.add_child_dir(&root, &sub);

    for ep in 13..=14 {
        let hash = format!("HASH{ep:02}");

        fs.add_file(&root.join(format!(
            "[SubsPlease] Solo Leveling - {ep:02} (1080p) [{hash}].mkv"
        )));
        fs.add_file(&rus.join(format!(
            "[SubsPlease] Solo Leveling - {ep:02} (1080p) [{hash}].mka"
        )));
        fs.add_file(&sub.join(format!(
            "[SubsPlease] Solo Leveling - {ep:02} (1080p) [{hash}].ass"
        )));
    }

    let bin = PathBuf::from("bin");
    fs.add_dir(&bin);
    fs.add_file(&bin.join(path_program_name(TargetOs::Linux, "mpv")));

    let args = Args {
        root_dir: Some(path_str(&root)),
        player: Some(PlayerKind::Mpv),
    };

    let report = run_with(&fs, TargetOs::Linux, &[path_str(&bin)], args, None);
    report.result.unwrap();

    let ext = script_ext(TargetOs::Linux);
    let writes = fs.writes.lock().unwrap();
    assert!(writes.contains_key(&path_str(&root.join(format!("13.{ext}")))));
    assert!(writes.contains_key(&path_str(&root.join(format!("14.{ext}")))));
}

struct FailingFs;

impl Fs for FailingFs {
    fn read_dir_paths(&self, _dir: &str) -> Result<Vec<String>, FsError> {
        Err(FsError { message: "denied".to_string() })
    }
    fn is_dir(&self, _path: &str) -> bool {
        false
    }
    fn is_file(&self, _path: &str) -> bool {
        false
    }
    fn write(&self, _path: &str, _contents: &[u8]) -> Result<(), FsError> {
        Err(FsError { message: "read-only".to_string() })
    }
    fn canonicalize(&self, _path: &str) -> Result<String, FsError> {
        Err(FsError { message: "missing".to_string() })
    }
    fn set_executable(&self, _path: &str) -> Result<(), FsError> {
        Ok(())
    }
}

fn season_with_fonts() -> MockFs {
    let mut fs = MockFs::default();
    let root = PathBuf::from("show");
    let fonts = root.join("Fonts");
    let extra = root.join("extra");
    fs.add_dir(&root);
    fs.add_child_dir(&root, &fonts);
    fs.add_child_dir(&root, &extra);
    fs.add_file(&root.join("Show - 01.mkv"));
    fs.add_file(&root.join("Show - 01.ass"));
    fs.add_file(&fonts.join("Arial 02.ttf"));
    fs.add_file(&extra.join("Show - 02.ttf"));
    fs.add_file(&extra.join("notes.txt"));
    fs.add_file(&root.join("01.bash"));
    fs.add_file(&root.join("trailer.mkv"));
    let bin = PathBuf::from("bin");
    fs.add_dir(&bin);
    fs.add_file(&bin.join("vlc"));
    fs
}

#[test]
fn scan_finds_fonts_and_reports_notices() {
    let fs = season_with_fonts();
    let scan = scan_dir_with(&fs, TargetOs::Linux, "show").unwrap();
    assert_eq!(scan.font_dir.as_deref(), Some("show/Fonts"));
    // The fonts folder is not scanned; the font in `extra` opens episode 2.
    assert_eq!(scan.structure.len(), 2);
    assert!(scan.structure[&1].video.is_some());
    assert!(scan.structure[&2].video.is_none());
    let mut unknown = Vec::new();
    let mut missing = Vec::new();
    for n in &scan.notices {
        match n {
            ScanNotice::UnknownFile(name) => unknown.push(name.clone()),
            ScanNotice::MissingEpisode(name) => missing.push(name.clone()),
        }
    }
    assert_eq!(unknown, vec!["notes.txt".to_string()]);
    assert_eq!(missing, vec!["trailer.mkv".to_string()]);
}

#[test]
fn run_skips_episodes_without_video() {
    let fs = season_with_fonts();
    let args = Args { root_dir: Some("show".to_string()), player: None };
    let report = run_with(&fs, TargetOs::Linux, &["bin".to_string()], args, None);
    report.result.unwrap();
    assert_eq!(report.skipped, vec![(2, LaunchError::MissingVideo)]);
    let writes = fs.writes.lock().unwrap();
    assert_eq!(writes.len(), 1);
    let script = String::from_utf8(writes["show/01.bash"].clone()).unwrap();
    assert_eq!(script, "#!/bin/bash\nvlc \"show/Show - 01.mkv\" --sub-file=\"show/Show - 01.ass\"");
}

#[test]
fn run_reports_errors() {

    let args = Args { root_dir: None, player: None };
    let report = run_with(&FailingFs, TargetOs::Linux, &[], args, None);
    assert!(matches!(report.result, Err(RunError::NoDirectorySelected)));

    let args = Args { root_dir: Some("x".to_string()), player: None };
    let report = run_with(&FailingFs, TargetOs::Linux, &[], args, None);
    assert!(matches!(report.result, Err(RunError::Canonicalize(_))));

    let args = Args { root_dir: None, player: Some(PlayerKind::Mpv) };
    let report = run_with(&FailingFs, TargetOs::Linux, &[], args, Some("picked".to_string()));
    assert!(matches!(
        report.result,
        Err(RunError::Player(PlayerError::NotFound(PlayerKind::Mpv)))
    ));

    let args = Args { root_dir: None, player: None };
    let report = run_with(&FailingFs, TargetOs::Linux, &[], args, Some("picked".to_string()));
    assert!(matches!(report.result, Err(RunError::Player(PlayerError::NoneFound))));

    let fs = season_with_fonts();
    let report = run_with(
        &fs,
        TargetOs::Linux,
        &["bin".to_string()],
        Args { root_dir: None, player: None },
        Some("elsewhere".to_string()),
    );
    assert!(report.result.is_ok());
    assert_eq!(report.root.as_deref(), Some("elsewhere"));

    assert!(matches!(
        scan_dir_with(&FailingFs, TargetOs::Linux, "x"),
        Err(ScanError::ReadDir(ref d, _)) if d == "x"
    ));
}

#[test]
fn resolve_player_prefers_path_then_install_location() {

    let mut fs = MockFs::default();
    fs.add_file(&PathBuf::from("/Applications/VLC.app/Contents/MacOS/VLC"));
    assert_eq!(
        resolve_program_name_with(&fs, TargetOs::MacOs, &["bin".to_string()], "vlc"),
        Some("/Applications/VLC.app/Contents/MacOS/VLC".to_string())
    );
    fs.add_file(&PathBuf::from("bin/vlc"));
    assert_eq!(
        resolve_program_name_with(&fs, TargetOs::MacOs, &["bin".to_string()], "vlc"),
        Some("vlc".to_string())
    );
    assert_eq!(
        resolve_program_name_with(&fs, TargetOs::MacOs, &["bin".to_string()], "mpv"),
        None
    );
    match resolve_player_with(&fs, TargetOs::MacOs, &["bin".to_string()], None) {
        Ok(SelectedPlayer::Vlc(v)) => assert_eq!(v.program_name, "vlc"),
        other => panic!("unexpected {other:?}"),
    }
}

#[test]
fn windows_scripts_need_no_permissions() {
    assert!(set_script_permissions_with(TargetOs::Windows, &FailingFs, "x.cmd").is_ok());
}

#[test]
fn run_report_lists_the_scripts_written() {
    let fs = season_with_fonts();
    let args = Args { root_dir: Some("show".to_string()), player: None };
    let report = run_with(&fs, TargetOs::Linux, &["bin".to_string()], args, None);
    report.result.unwrap();
    assert_eq!(report.written.len(), 1);
    assert_eq!(report.written[0].episode, 1);
    assert_eq!(report.written[0].path, "show/01.bash");
    assert_eq!(
        report.written[0].contents,
        "#!/bin/bash\nvlc \"show/Show - 01.mkv\" --sub-file=\"show/Show - 01.ass\""
    );
    assert_eq!(report.episodes.len(), 2);
    assert_eq!(report.font_dir.as_deref(), Some("show/Fonts"));
    let writes = fs.writes.lock().unwrap();
    assert_eq!(
        String::from_utf8(writes["show/01.bash"].clone()).unwrap(),
        report.written[0].contents
    );
}

#[test]
fn run_stops_at_a_failed_write() {
    struct ReadOnly(MockFs);
    impl Fs for ReadOnly {
        fn read_dir_paths(&self, dir: &str) -> Result<Vec<String>, FsError> {
            self.0.read_dir_paths(dir)
        }
        fn is_dir(&self, path: &str) -> bool {
            self.0.is_dir(path)
        }
        fn is_file(&self, path: &str) -> bool {
            self.0.is_file(path)
        }
        fn write(&self, _path: &str, _contents: &[u8]) -> Result<(), FsError> {
            Err(FsError { message: "read-only".to_string() })
        }
        fn canonicalize(&self, path: &str) -> Result<String, FsError> {
            self.0.canonicalize(path)
        }
        fn set_executable(&self, path: &str) -> Result<(), FsError> {
            self.0.set_executable(path)
        }
    }
    let fs = ReadOnly(season_with_fonts());
    let args = Args { root_dir: Some("show".to_string()), player: None };
    let report = run_with(&fs, TargetOs::Linux, &["bin".to_string()], args, None);
    assert!(matches!(report.result, Err(RunError::Write(1, _))));
    assert!(report.written.is_empty());
}

#[test]
fn no_path_dirs_finds_no_path_only_player() {
    let fs = season_with_fonts();
    assert_eq!(resolve_program_name_with(&fs, TargetOs::Linux, &[], "mpv"), None);
}

#[test]
fn scan_notices_name_files_met() {
    let fs = season_with_fonts();
    let scan = scan_dir_with(&fs, TargetOs::Linux, "show").unwrap();
    assert_eq!(scan.notices.len(), 2);
    for n in &scan.notices {
        match n {
            ScanNotice::UnknownFile(name) => assert_eq!(name, "notes.txt"),
            ScanNotice::MissingEpisode(name) => assert_eq!(name, "trailer.mkv"),
        }
    }
}

#[test]
fn run_error_messages() {
    assert_eq!(RunError::NoDirectorySelected.message(), "No directory selected");
    assert_eq!(
        RunError::Player(PlayerError::NotFound(PlayerKind::Vlc)).message(),
        "Player 'vlc' not found in PATH"
    );
    assert_eq!(
        RunError::Player(PlayerError::NoneFound).message(),
        "No supported players found in PATH (tried 'mpv' and 'vlc')"
    );
    assert_eq!(RunError::Scan(ScanError::TooDeep).message(), "Directory tree too deep");
    assert_eq!(
        RunError::Scan(ScanError::ReadDir("d".to_string(), FsError { message: "no".to_string() }))
            .message(),
        "Failed to read directory d: no"
    );
    assert_eq!(RunError::Write(3, FsError { message: "ro".to_string() }).message(), "ro");
}
