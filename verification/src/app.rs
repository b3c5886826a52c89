//! One run of the launcher: find the player, scan the season folder, and
//! write a launch script for every episode that has a video.

use std::collections::BTreeMap;

use vstd::prelude::*;
use vstd::std_specs::btree::increasing_seq;
use vstd::std_specs::cmp::OrdSpec;
use vstd::std_specs::iter::IteratorSpec;

use crate::fs_access::{Fs, FsError};
use crate::media_scan::{
    file_recorded, reaches, structure_view, MAX_SCAN_DEPTH, episode_script_contents, episode_script_path, opt_view, scan_dir_with, script_contents_spec,
    script_path_spec, write_script_file_with, EpisodeFiles, EpisodeView, ScanError, ScanNotice,
};
use crate::os::TargetOs;
use crate::players::{
    key_spec, resolve_player_with, LaunchError, Player, PlayerError, PlayerKind, SelectedPlayer,
};

verus! {

broadcast use {vstd::std_specs::btree::group_btree_axioms, vstd::laws_cmp::group_laws_cmp};

/// What a run is asked to do.
#[derive(Debug)]
pub struct Args {
    /// The season folder; `None` means one was chosen in a dialog.
    pub root_dir: Option<String>,
    /// The player to use; `None` means mpv if found, else VLC.
    pub player: Option<PlayerKind>,
}

/// The launch command for one episode, or why there is none.
#[derive(Debug)]
pub struct EpisodeCommand {
    pub episode: u32,
    pub command: Result<String, LaunchError>,
}

/// The launch command `player` is given for an episode with `files`.
pub open spec fn command_for(
    player: SelectedPlayer,
    files: EpisodeView,
    font_dir: Option<Seq<char>>,
) -> Result<Seq<char>, LaunchError> {
    match files.video {
        Some(v) => Ok(player.command_spec(v, files.audio, files.subtitles, font_dir)),
        None => Err(LaunchError::MissingVideo),
    }
}

/// A planned command as text.
pub open spec fn command_view(c: Result<String, LaunchError>) -> Result<Seq<char>, LaunchError> {
    match c {
        Ok(s) => Ok(s@),
        Err(e) => Err(e),
    }
}

/// The launch command of every episode in the table, in increasing episode
/// order, one per episode.
pub fn plan_commands(
    player: &SelectedPlayer,
    structure: &BTreeMap<u32, EpisodeFiles>,
    font_dir: &Option<String>,
) -> (r: Vec<EpisodeCommand>)
    ensures
        r@.len() == structure@.len(),
        forall|i: int, j: int| 0 <= i < j < r@.len() ==> r@[i].episode < r@[j].episode,
        forall|i: int|
            0 <= i < r@.len() ==> #[trigger] structure@.contains_key(r@[i].episode)
                && command_view(r@[i].command) == command_for(
                *player,
                structure@[r@[i].episode]@,
                opt_view(*font_dir),
            ),
        forall|k: u32|
            #[trigger] structure@.contains_key(k) ==> exists|i: int|
                0 <= i < r@.len() && r@[i].episode == k,
{
    let mut r: Vec<EpisodeCommand> = Vec::new();
    for entry in it: structure.iter()
        invariant
            it.seq() == structure.iter().remaining(),
            increasing_seq(
                structure.iter().remaining().map_values(|kv: (&u32, &EpisodeFiles)| *kv.0),
            ),
            r@.len() == it.index(),
            forall|i: int|
                0 <= i < r@.len() ==> r@[i].episode == *structure.iter().remaining()[i].0,
            forall|i: int|
                0 <= i < r@.len() ==> #[trigger] structure@.contains_key(r@[i].episode)
                    && command_view(r@[i].command) == command_for(
                    *player,
                    structure@[r@[i].episode]@,
                    opt_view(*font_dir),
                ),
    {
        let (episode, files) = entry;
        let command = player.build_launch_command(files, font_dir);
        r.push(EpisodeCommand { episode: *episode, command });
    }
    proof {
        let v = structure.iter().remaining();
        let keys = v.map_values(|kv: (&u32, &EpisodeFiles)| *kv.0);
        assert forall|i: int, j: int| 0 <= i < j < r@.len() implies r@[i].episode
            < r@[j].episode by {
            assert(keys[i] == r@[i].episode);
            assert(keys[j] == r@[j].episode);
            lemma_increasing_keys(keys, i, j);
        }
        assert forall|k: u32| #[trigger] structure@.contains_key(k) implies exists|i: int|
            0 <= i < r@.len() && r@[i].episode == k by {
            assert(v.contains((&k, &structure@[k])));
            let i = choose|i: int| 0 <= i < v.len() && v[i] == (&k, &structure@[k]);
            assert(r@[i].episode == k);
        }
    }
    r
}

/// In an increasing sequence of episode numbers, earlier ones are smaller.
proof fn lemma_increasing_keys(keys: Seq<u32>, i: int, j: int)
    requires
        increasing_seq(keys),
        0 <= i < j < keys.len(),
    ensures
        keys[i] < keys[j],
{
    assert(vstd::laws_cmp::obeys_cmp::<u32>());
    assert(keys[i].cmp_spec(&keys[j]) is Less);
}

/// Why a run stopped early.
#[derive(Debug)]
pub enum RunError {
    /// No season folder was given or chosen.
    NoDirectorySelected,
    /// The given season folder could not be resolved.
    Canonicalize(FsError),
    Player(PlayerError),
    Scan(ScanError),
    /// Writing the launch script of this episode failed.
    Write(u32, FsError),
}

/// The message a stopped run reports for `e`.
pub open spec fn run_error_message(e: RunError) -> Seq<char> {
    match e {
        RunError::NoDirectorySelected => "No directory selected"@,
        RunError::Canonicalize(fe) => fe.message@,
        RunError::Player(PlayerError::NotFound(k)) => "Player '"@ + key_spec(k)
            + "' not found in PATH"@,
        RunError::Player(PlayerError::NoneFound) => "No supported players found in PATH (tried '"@
            + key_spec(PlayerKind::Mpv) + "' and '"@ + key_spec(PlayerKind::Vlc) + "')"@,
        RunError::Scan(ScanError::Pattern(pe)) => "Invalid pattern "@ + pe.pattern@,
        RunError::Scan(ScanError::ReadDir(d, fe)) => "Failed to read directory "@ + d@ + ": "@
            + fe.message@,
        RunError::Scan(ScanError::TooDeep) => "Directory tree too deep"@,
        RunError::Write(_, fe) => fe.message@,
    }
}

impl RunError {
    /// The message to show for this error.
    pub fn message(&self) -> (r: String)
        ensures
            r@ == run_error_message(*self),
    {
        match self {
            RunError::NoDirectorySelected => String::from_str("No directory selected"),
            RunError::Canonicalize(fe) => fe.message.clone(),
            RunError::Player(PlayerError::NotFound(k)) => {
                let mut r = String::from_str("Player '");
                r.append(k.key());
                r.append("' not found in PATH");
                r
            },
            RunError::Player(PlayerError::NoneFound) => {
                let mut r = String::from_str("No supported players found in PATH (tried '");
                r.append(PlayerKind::Mpv.key());
                r.append("' and '");
                r.append(PlayerKind::Vlc.key());
                r.append("')");
                r
            },
            RunError::Scan(ScanError::Pattern(pe)) => {
                let mut r = String::from_str("Invalid pattern ");
                r.append(pe.pattern.as_str());
                r
            },
            RunError::Scan(ScanError::ReadDir(d, fe)) => {
                let mut r = String::from_str("Failed to read directory ");
                r.append(d.as_str());
                r.append(": ");
                r.append(fe.message.as_str());
                r
            },
            RunError::Scan(ScanError::TooDeep) => String::from_str("Directory tree too deep"),
            RunError::Write(_, fe) => fe.message.clone(),
        }
    }
}

/// A launch script that a run wrote.
#[derive(Debug)]
pub struct ScriptFile {
    pub episode: u32,
    pub path: String,
    pub contents: String,
}

/// `path` and `contents` are the launch script of episode `episode`, with
/// `files`, under `root`: its path is the episode's script path, and it runs
/// the command `player` is given for the episode (which has a video).
pub open spec fn is_launch_script(
    os: TargetOs,
    root: Seq<char>,
    player: SelectedPlayer,
    files: EpisodeView,
    font_dir: Option<Seq<char>>,
    episode: u32,
    path: Seq<char>,
    contents: Seq<char>,
) -> bool {
    &&& path == script_path_spec(os, root, episode)
    &&& command_for(player, files, font_dir) matches Ok(c)
    &&& contents == script_contents_spec(os, c)
}

/// What a run did: the season folder, the player chosen, the episode table
/// and fonts folder the scan found, the scan's notices, the scripts written
/// and the episodes skipped for want of a video (both in increasing episode
/// order), and how it ended.
#[derive(Debug)]
pub struct RunReport {
    pub root: Option<String>,
    pub player: Option<SelectedPlayer>,
    pub episodes: BTreeMap<u32, EpisodeFiles>,
    pub font_dir: Option<String>,
    pub notices: Vec<ScanNotice>,
    pub written: Vec<ScriptFile>,
    pub skipped: Vec<(u32, LaunchError)>,
    pub result: Result<(), RunError>,
}

/// Every script in `written` is the launch script of an episode of the
/// report's table, for its folder and player.
pub open spec fn written_are_launch_scripts(os: TargetOs, r: RunReport) -> bool {
    forall|i: int|
        0 <= i < r.written@.len() ==> {
            let w = #[trigger] r.written@[i];
            &&& r.root matches Some(root)
            &&& r.player matches Some(p)
            &&& r.episodes@.contains_key(w.episode)
            &&& is_launch_script(
                os,
                root@,
                p,
                r.episodes@[w.episode]@,
                opt_view(r.font_dir),
                w.episode,
                w.path@,
                w.contents@,
            )
        }
}

/// Every skipped episode is one of the table's that has no video.
pub open spec fn skipped_lack_video(r: RunReport) -> bool {
    forall|i: int|
        0 <= i < r.skipped@.len() ==> {
            &&& #[trigger] r.skipped@[i].1 == LaunchError::MissingVideo
            &&& r.episodes@.contains_key(r.skipped@[i].0)
            &&& r.episodes@[r.skipped@[i].0]@.video is None
        }
}

/// Every episode of `episodes` below `limit` has its script in `written`
/// when it has a video, and is in `skipped` when it has none.
pub open spec fn handled_below(
    episodes: Map<u32, EpisodeFiles>,
    written: Seq<ScriptFile>,
    skipped: Seq<(u32, LaunchError)>,
    limit: int,
) -> bool {
    forall|k: u32|
        #[trigger] episodes.contains_key(k) && k < limit ==> if episodes[k]@.video is Some {
            exists|i: int| 0 <= i < written.len() && #[trigger] written[i].episode == k
        } else {
            exists|i: int| 0 <= i < skipped.len() && #[trigger] skipped[i].0 == k
        }
}

/// Every episode of the table has its script written when it has a video,
/// and is skipped when it has none.
pub open spec fn every_episode_handled(r: RunReport) -> bool {
    forall|k: u32|
        #[trigger] r.episodes@.contains_key(k) ==> if r.episodes@[k]@.video is Some {
            exists|i: int| 0 <= i < r.written@.len() && #[trigger] r.written@[i].episode == k
        } else {
            exists|i: int| 0 <= i < r.skipped@.len() && #[trigger] r.skipped@[i].0 == k
        }
}

/// When the run stops at the write for the `i`-th planned command, every
/// earlier episode has been handled and that episode has a video.
proof fn lemma_stopped_run(r: RunReport, pl: SelectedPlayer, commands: Seq<EpisodeCommand>, i: int)
    requires
        0 <= i < commands.len(),
        commands[i].command is Ok,
        forall|a: int, b: int| 0 <= a < b < commands.len() ==> commands[a].episode < commands[b].episode,
        forall|a: int|
            0 <= a < commands.len() ==> #[trigger] r.episodes@.contains_key(commands[a].episode)
                && command_view(commands[a].command) == command_for(
                pl,
                r.episodes@[commands[a].episode]@,
                opt_view(r.font_dir),
            ),
        forall|k: u32|
            #[trigger] r.episodes@.contains_key(k) ==> exists|a: int|
                0 <= a < commands.len() && commands[a].episode == k,
        forall|a: int|
            0 <= a < i ==> if commands[a].command is Ok {
                exists|j: int|
                    0 <= j < r.written@.len() && #[trigger] r.written@[j].episode
                        == commands[a].episode
            } else {
                exists|j: int|
                    0 <= j < r.skipped@.len() && #[trigger] r.skipped@[j].0 == commands[a].episode
            },
    ensures
        r.episodes@.contains_key(commands[i].episode),
        r.episodes@[commands[i].episode]@.video is Some,
        handled_below(r.episodes@, r.written@, r.skipped@, commands[i].episode as int),
{
    assert(r.episodes@.contains_key(commands[i].episode));
    let ep = commands[i].episode;
    assert forall|k: u32| #[trigger] r.episodes@.contains_key(k) && k < ep implies if r.episodes@[
        k
    ]@.video is Some {
        exists|j: int| 0 <= j < r.written@.len() && #[trigger] r.written@[j].episode == k
    } else {
        exists|j: int| 0 <= j < r.skipped@.len() && #[trigger] r.skipped@[j].0 == k
    } by {
        let a = choose|a: int| 0 <= a < commands.len() && commands[a].episode == k;
        assert(r.episodes@.contains_key(commands[a].episode));
        if a >= i {
            if a > i {
                assert(commands[i].episode < commands[a].episode);
            }
            assert(false);
        }
    }
}

/// Runs the launcher: resolves the season folder (the given one made
/// canonical, else the one chosen in a dialog, `picked_dir`), finds the
/// player, scans the folder and writes a launch script for every episode
/// with a video, in increasing episode order, stopping at the first failed
/// write. Whatever the file system answers: with no folder at all nothing is
/// done, and only then is that the error; player errors are the ones for the
/// request; every script written is the launch script of an episode that has
/// a video; episodes are only skipped for want of a video; and a run that
/// ends well has written one script for each episode with a video and
/// skipped each other one.
pub fn run_with<F: Fs>(
    fs: &F,
    os: TargetOs,
    path_dirs: &[String],
    args: Args,
    picked_dir: Option<String>,
) -> (r: RunReport)
    ensures
        (r.result matches Err(RunError::NoDirectorySelected)) <==> (args.root_dir is None
            && picked_dir is None),
        r.result matches Err(RunError::Player(e)) ==> match args.player {
            Some(k) => e == PlayerError::NotFound(k),
            None => e == PlayerError::NoneFound,
        },
        r.result is Ok ==> r.root is Some && r.player is Some,
        written_are_launch_scripts(os, r),
        forall|i: int, j: int|
            0 <= i < j < r.written@.len() ==> r.written@[i].episode < r.written@[j].episode,
        skipped_lack_video(r),
        forall|i: int, j: int|
            0 <= i < j < r.skipped@.len() ==> r.skipped@[i].0 < r.skipped@[j].0,
        r.result is Ok ==> every_episode_handled(r),
        fs.obeys_fs_spec() ==> match args.root_dir {
            Some(d) => match fs.canonical(d@) {
                Some(c) => r.root matches Some(x) && x@ == c,
                None => r.root is None && r.result matches Err(RunError::Canonicalize(_)),
            },
            None => picked_dir matches Some(pk) ==> (r.root matches Some(x) && x@ == pk@),
        },
        fs.obeys_fs_spec() && r.result is Ok ==> forall|p: Seq<char>|
            #[trigger] reaches(fs, os, r.root->0@, p, MAX_SCAN_DEPTH as nat) ==> file_recorded(
                os,
                structure_view(r.episodes@),
                p,
            ),
        r.result matches Err(RunError::Write(ep, _)) ==> {
            &&& r.episodes@.contains_key(ep)
            &&& r.episodes@[ep]@.video is Some
            &&& forall|i: int| 0 <= i < r.written@.len() ==> #[trigger] r.written@[i].episode < ep
            &&& forall|i: int| 0 <= i < r.skipped@.len() ==> #[trigger] r.skipped@[i].0 < ep
            &&& handled_below(r.episodes@, r.written@, r.skipped@, ep as int)
        },
{
    let mut report = RunReport {
        root: None,
        player: None,
        episodes: BTreeMap::new(),
        font_dir: None,
        notices: Vec::new(),
        written: Vec::new(),
        skipped: Vec::new(),
        result: Ok(()),
    };
    let root = match args.root_dir {
        Some(p) => match fs.canonicalize(p.as_str()) {
            Ok(c) => c,
            Err(e) => {
                report.result = Err(RunError::Canonicalize(e));
                return report;
            },
        },
        None => match picked_dir {
            Some(d) => d,
            None => {
                report.result = Err(RunError::NoDirectorySelected);
                return report;
            },
        },
    };
    report.root = Some(root.clone());
    let player = match resolve_player_with(fs, os, path_dirs, args.player) {
        Ok(p) => p,
        Err(e) => {
            report.result = Err(RunError::Player(e));
            return report;
        },
    };
    let scan = match scan_dir_with(fs, os, root.as_str()) {
        Ok(s) => s,
        Err(e) => {
            report.result = Err(RunError::Scan(e));
            return report;
        },
    };
    report.notices = scan.notices;
    report.episodes = scan.structure;
    report.font_dir = scan.font_dir;
    let commands = plan_commands(&player, &report.episodes, &report.font_dir);
    let ghost pl = player;
    report.player = Some(player);
    let mut i: usize = 0;
    while i < commands.len()
        invariant
            i <= commands.len(),
            report.root matches Some(rt) && rt@ == root@,
            report.player == Some(pl),
            forall|a: int, b: int|
                0 <= a < b < commands@.len() ==> commands@[a].episode < commands@[b].episode,
            forall|a: int|
                0 <= a < commands@.len() ==> #[trigger] report.episodes@.contains_key(
                    commands@[a].episode,
                ) && command_view(commands@[a].command) == command_for(
                    pl,
                    report.episodes@[commands@[a].episode]@,
                    opt_view(report.font_dir),
                ),
            forall|k: u32|
                #[trigger] report.episodes@.contains_key(k) ==> exists|a: int|
                    0 <= a < commands@.len() && commands@[a].episode == k,
            written_are_launch_scripts(os, report),
            skipped_lack_video(report),
            forall|a: int, b: int|
                0 <= a < b < report.written@.len() ==> report.written@[a].episode
                    < report.written@[b].episode,
            forall|a: int, b: int|
                0 <= a < b < report.skipped@.len() ==> report.skipped@[a].0
                    < report.skipped@[b].0,
            i < commands@.len() ==> forall|a: int|
                0 <= a < report.written@.len() ==> report.written@[a].episode
                    < commands@[i as int].episode,
            i < commands@.len() ==> forall|a: int|
                0 <= a < report.skipped@.len() ==> report.skipped@[a].0
                    < commands@[i as int].episode,
            forall|a: int|
                0 <= a < i ==> if commands@[a].command is Ok {
                    exists|j: int|
                        0 <= j < report.written@.len() && #[trigger] report.written@[j].episode
                            == commands@[a].episode
                } else {
                    exists|j: int|
                        0 <= j < report.skipped@.len() && #[trigger] report.skipped@[j].0
                            == commands@[a].episode
                },
            report.result is Ok,
            !(args.root_dir is None && picked_dir is None),
            fs.obeys_fs_spec() ==> match args.root_dir {
                Some(d) => fs.canonical(d@) == Some(root@),
                None => picked_dir matches Some(pk) && pk@ == root@,
            },
            fs.obeys_fs_spec() ==> forall|p: Seq<char>|
                #[trigger] reaches(fs, os, root@, p, MAX_SCAN_DEPTH as nat) ==> file_recorded(
                    os,
                    structure_view(report.episodes@),
                    p,
                ),
        decreases commands.len() - i,
    {
        let episode = commands[i].episode;
        let ghost before_w = report.written@;
        let ghost before_s = report.skipped@;
        let ghost before_r = report;
        proof {
            assert(written_are_launch_scripts(os, before_r));
            assert(skipped_lack_video(before_r));
        }
        match &commands[i].command {
            Ok(cmd) => {
                let path = episode_script_path(os, root.as_str(), episode);
                let contents = episode_script_contents(os, cmd.as_str());
                if let Err(e) = write_script_file_with(fs, os, path.as_str(), contents.as_str()) {
                    proof {
                        lemma_stopped_run(report, pl, commands@, i as int);
                    }
                    report.result = Err(RunError::Write(episode, e));
                    return report;
                }
                report.written.push(ScriptFile { episode, path, contents });
                proof {
                    assert(report.written@[before_w.len() as int].episode == commands@[i as int].episode);
                }
            },
            Err(e) => {
                report.skipped.push((episode, *e));
                proof {
                    assert(report.skipped@[before_s.len() as int].0 == commands@[i as int].episode);
                }
            },
        }
        proof {
            assert forall|a: int| 0 <= a < before_w.len() implies #[trigger] report.written@[a]
                == before_w[a] by {}
            assert forall|a: int| 0 <= a < before_s.len() implies #[trigger] report.skipped@[a]
                == before_s[a] by {}
            assert forall|a: int| 0 <= a < report.written@.len() implies {
                let w = #[trigger] report.written@[a];
                &&& report.root matches Some(rt)
                &&& report.player matches Some(p)
                &&& report.episodes@.contains_key(w.episode)
                &&& is_launch_script(
                    os,
                    rt@,
                    p,
                    report.episodes@[w.episode]@,
                    opt_view(report.font_dir),
                    w.episode,
                    w.path@,
                    w.contents@,
                )
            } by {
                if a < before_w.len() {
                    assert(report.written@[a] == before_r.written@[a]);
                } else {
                    assert(report.episodes@.contains_key(commands@[i as int].episode));
                }
            }
            assert forall|a: int| 0 <= a < report.skipped@.len() implies {
                &&& #[trigger] report.skipped@[a].1 == LaunchError::MissingVideo
                &&& report.episodes@.contains_key(report.skipped@[a].0)
                &&& report.episodes@[report.skipped@[a].0]@.video is None
            } by {
                if a < before_s.len() {
                    assert(report.skipped@[a] == before_r.skipped@[a]);
                } else {
                    assert(report.episodes@.contains_key(commands@[i as int].episode));
                }
            }
            assert forall|a: int| 0 <= a < i + 1 implies if commands@[a].command is Ok {
                exists|j: int|
                    0 <= j < report.written@.len() && #[trigger] report.written@[j].episode
                        == commands@[a].episode
            } else {
                exists|j: int|
                    0 <= j < report.skipped@.len() && #[trigger] report.skipped@[j].0
                        == commands@[a].episode
            } by {
                if a < i {
                    if commands@[a].command is Ok {
                        let j = choose|j: int|
                            0 <= j < before_w.len() && #[trigger] before_r.written@[j].episode
                                == commands@[a].episode;
                        assert(report.written@[j] == before_w[j]);
                    } else {
                        let j = choose|j: int|
                            0 <= j < before_s.len() && #[trigger] before_r.skipped@[j].0
                                == commands@[a].episode;
                        assert(report.skipped@[j] == before_s[j]);
                    }
                }
            }
        }
        i = i + 1;
    }
    proof {
        assert forall|k: u32| #[trigger] report.episodes@.contains_key(k) implies if report.episodes@[
            k
        ]@.video is Some {
            exists|j: int| 0 <= j < report.written@.len() && #[trigger] report.written@[j].episode == k
        } else {
            exists|j: int| 0 <= j < report.skipped@.len() && #[trigger] report.skipped@[j].0 == k
        } by {
            let a = choose|a: int| 0 <= a < commands@.len() && commands@[a].episode == k;
            assert(report.episodes@.contains_key(commands@[a].episode));
        }
    }
    report
}

} // verus!
