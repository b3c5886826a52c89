use media_launcher::media_scan::EpisodeFiles;
use media_launcher::os::{first_available, path_program_name, player_locations, PlayerLocation, TargetOs};
use media_launcher::players::{
    select_player, LaunchError, MpvPlayer, Player, PlayerError, PlayerKind, PotPlayerPlayer,
    SelectedPlayer, VlcPlayer,
};

fn episode() -> EpisodeFiles {
    EpisodeFiles {
        audio: vec!["a1.mka".to_string(), "a2.mka".to_string()],
        subtitles: vec!["s1.ass".to_string()],
        video: Some("v.mkv".to_string()),
    }
}

#[test]
fn mpv_command() {
    let p = MpvPlayer { program_name: "mpv".to_string() };
    let cmd = p.build_launch_command(&episode(), &Some("fonts".to_string())).unwrap();
    assert_eq!(
        cmd,
        "mpv \"v.mkv\" --audio-file=\"a1.mka\" --audio-file=\"a2.mka\" --sub-file=\"s1.ass\" --sub-fonts-dir=\"fonts\""
    );
    let cmd = p.build_launch_command(&episode(), &None).unwrap();
    assert_eq!(
        cmd,
        "mpv \"v.mkv\" --audio-file=\"a1.mka\" --audio-file=\"a2.mka\" --sub-file=\"s1.ass\""
    );
}

#[test]
fn vlc_command_joins_audio() {
    let p = VlcPlayer { program_name: "vlc".to_string() };
    let cmd = p.build_launch_command(&episode(), &Some("fonts".to_string())).unwrap();
    assert_eq!(
        cmd,
        "vlc \"v.mkv\" --input-slave=\"a1.mka#a2.mka\" --sub-file=\"s1.ass\""
    );
    let mut e = episode();
    e.audio.clear();
    assert_eq!(
        p.build_launch_command(&e, &None).unwrap(),
        "vlc \"v.mkv\" --sub-file=\"s1.ass\""
    );
}

#[test]
fn potplayer_command() {
    let p = PotPlayerPlayer { program_name: "PotPlayerMini64.exe".to_string() };
    let cmd = p.build_launch_command(&episode(), &Some("fonts".to_string())).unwrap();
    assert_eq!(
        cmd,
        "\"PotPlayerMini64.exe\" /same \"v.mkv\" \"a1.mka\" \"a2.mka\" /sub=\"s1.ass\""
    );
}

#[test]
fn missing_video_is_an_error() {
    let mut e = episode();
    e.video = None;
    let mpv = MpvPlayer { program_name: "mpv".to_string() };
    let pot = PotPlayerPlayer { program_name: "pot".to_string() };
    assert_eq!(mpv.build_launch_command(&e, &None), Err(LaunchError::MissingVideo));
    assert_eq!(pot.build_launch_command(&e, &None), Err(LaunchError::MissingVideo));
}

#[test]
fn every_track_is_attached() {
    for sel in [
        SelectedPlayer::Mpv(MpvPlayer { program_name: "mpv".into() }),
        SelectedPlayer::Vlc(VlcPlayer { program_name: "vlc".into() }),
    ] {
        let cmd = sel.build_launch_command(&episode(), &None).unwrap();
        for f in ["v.mkv", "a1.mka", "a2.mka", "s1.ass"] {
            assert!(cmd.contains(f), "{cmd} lacks {f}");
        }
    }
}

fn kind_and_name(r: Result<SelectedPlayer, PlayerError>) -> Result<(PlayerKind, String), PlayerError> {
    r.map(|p| match p {
        SelectedPlayer::Mpv(m) => (PlayerKind::Mpv, m.program_name),
        SelectedPlayer::Vlc(v) => (PlayerKind::Vlc, v.program_name),
    })
}

#[test]
fn mpv_preferred_when_both_found() {
    assert_eq!(
        kind_and_name(select_player(None, Some("mpv".into()), Some("vlc".into()))),
        Ok((PlayerKind::Mpv, "mpv".to_string()))
    );
    assert_eq!(
        kind_and_name(select_player(None, None, Some("vlc".into()))),
        Ok((PlayerKind::Vlc, "vlc".to_string()))
    );
    assert_eq!(kind_and_name(select_player(None, None, None)), Err(PlayerError::NoneFound));
}

#[test]
fn requested_player_is_honoured() {
    assert_eq!(
        kind_and_name(select_player(Some(PlayerKind::Vlc), Some("mpv".into()), Some("vlc".into()))),
        Ok((PlayerKind::Vlc, "vlc".to_string()))
    );
    assert_eq!(
        kind_and_name(select_player(Some(PlayerKind::Vlc), Some("mpv".into()), None)),
        Err(PlayerError::NotFound(PlayerKind::Vlc))
    );
    assert_eq!(
        kind_and_name(select_player(Some(PlayerKind::Mpv), None, Some("vlc".into()))),
        Err(PlayerError::NotFound(PlayerKind::Mpv))
    );
}

#[test]
fn player_keys() {
    assert_eq!(PlayerKind::Mpv.key(), "mpv");
    assert_eq!(PlayerKind::Vlc.key(), "vlc");
}

fn texts(v: Vec<PlayerLocation>) -> Vec<(bool, String)> {
    v.into_iter()
        .map(|l| match l {
            PlayerLocation::Path(n) => (true, n),
            PlayerLocation::Absolute(p) => (false, p),
        })
        .collect()
}

#[test]
fn player_locations_per_os() {
    assert_eq!(texts(player_locations(TargetOs::Linux, "vlc")), vec![(true, "vlc".to_string())]);
    assert_eq!(
        texts(player_locations(TargetOs::MacOs, "vlc")),
        vec![
            (true, "vlc".to_string()),
            (false, "/Applications/VLC.app/Contents/MacOS/VLC".to_string())
        ]
    );
    assert_eq!(
        texts(player_locations(TargetOs::Windows, "mpv")),
        vec![
            (true, "mpv.exe".to_string()),
            (false, "C:\\Program Files\\mpv\\mpv.exe".to_string())
        ]
    );
    assert_eq!(
        texts(player_locations(TargetOs::Windows, "other")),
        vec![(true, "other".to_string())]
    );
    assert_eq!(path_program_name(TargetOs::Windows, "vlc"), "vlc.exe");
    assert_eq!(path_program_name(TargetOs::MacOs, "mpv"), "mpv");
    assert_eq!(path_program_name(TargetOs::Linux, "mpv"), "mpv");
}

#[test]
fn first_available_location_wins() {
    let locs = player_locations(TargetOs::Windows, "vlc");
    assert_eq!(first_available(&locs, &[false, true, true]), Some("C:\\Program Files\\VideoLAN\\VLC\\vlc.exe".to_string()));
    assert_eq!(first_available(&locs, &[true]), Some("vlc.exe".to_string()));
    assert_eq!(first_available(&locs, &[false, false]), None);
    assert_eq!(first_available(&locs, &[]), None);
}
