//! Video players and the launch commands they are given.

pub mod mpv;
pub mod potplayer;
pub mod vlc;

use vstd::prelude::*;

use crate::fs_access::Fs;
use crate::media_scan::{opt_view, strings_view, EpisodeFiles};
use crate::text::{
    lemma_contains_extend, lemma_contains_self, lemma_join_contains_items, seq_contains,
};
use crate::os::{
    all_path_locations, first_found, location_text, player_locations_spec, resolve_program_name_with, TargetOs,
};

pub use mpv::MpvPlayer;
pub use potplayer::PotPlayerPlayer;
pub use vlc::VlcPlayer;

verus! {

/// The players the launcher can pick.
#[derive(Clone, Copy, Debug, PartialEq, Eq, Structural)]
pub enum PlayerKind {
    Mpv,
    Vlc,
}

/// The name a player kind is looked up by.
pub open spec fn key_spec(kind: PlayerKind) -> Seq<char> {
    match kind {
        PlayerKind::Mpv => "mpv"@,
        PlayerKind::Vlc => "vlc"@,
    }
}

impl PlayerKind {
    pub fn key(self) -> (r: &'static str)
        ensures
            r@ == key_spec(self),
    {
        match self {
            PlayerKind::Mpv => "mpv",
            PlayerKind::Vlc => "vlc",
        }
    }
}

/// Why no launch command could be built for an episode.
#[derive(Clone, Copy, Debug, PartialEq, Eq, Structural)]
pub enum LaunchError {
    /// The episode has no main video file.
    MissingVideo,
}

/// `flag`, the item and a closing quote, for every item in order.
pub open spec fn quoted_flags(flag: Seq<char>, items: Seq<Seq<char>>) -> Seq<char>
    decreases items.len(),
{
    if items.len() == 0 {
        seq![]
    } else {
        quoted_flags(flag, items.drop_last()) + flag + items.last() + "\""@
    }
}

/// The command most players take: the program, the quoted video, then the
/// audio, subtitle and font arguments.
pub open spec fn default_command(
    name: Seq<char>,
    video: Seq<char>,
    audio_args: Seq<char>,
    subtitle_args: Seq<char>,
    font_args: Seq<char>,
) -> Seq<char> {
    name + " \""@ + video + "\""@ + audio_args + subtitle_args + font_args
}

/// Appends `flag`, the item and a closing quote for every item.
pub fn append_quoted_flags(cmd: &mut String, flag: &str, items: &[String])
    ensures
        final(cmd)@ == old(cmd)@ + quoted_flags(flag@, strings_view(items@)),
{
    let ghost start = cmd@;
    let ghost all = strings_view(items@);
    let mut i: usize = 0;
    while i < items.len()
        invariant
            i <= items.len(),
            all == strings_view(items@),
            cmd@ == start + quoted_flags(flag@, all.take(i as int)),
        decreases items.len() - i,
    {
        cmd.append(flag);
        cmd.append(items[i].as_str());
        cmd.append("\"");
        proof {
            assert(all.take(i + 1).drop_last() =~= all.take(i as int));
            assert(all.take(i + 1).last() == items@[i as int]@);
        }
        i = i + 1;
    }
    assert(all.take(items.len() as int) =~= all);
}

/// A video player that can be handed an episode.
pub trait Player {
    /// The program name or path the command starts with.
    spec fn name_spec(&self) -> Seq<char>;

    /// The arguments that attach audio tracks.
    spec fn audio_args_spec(&self, audio: Seq<Seq<char>>) -> Seq<char>;

    /// The arguments that attach subtitle files.
    spec fn subtitle_args_spec(&self, subtitles: Seq<Seq<char>>) -> Seq<char>;

    /// The arguments that point at the fonts folder.
    spec fn font_args_spec(&self, font_dir: Option<Seq<char>>) -> Seq<char>;

    /// The whole launch command for an episode with this video.
    spec fn command_spec(
        &self,
        video: Seq<char>,
        audio: Seq<Seq<char>>,
        subtitles: Seq<Seq<char>>,
        font_dir: Option<Seq<char>>,
    ) -> Seq<char>;

    fn program_name(&self) -> (r: &str)
        ensures
            r@ == self.name_spec(),
    ;

    /// The launch command for an episode; fails when it has no video.
    fn build_launch_command(&self, value: &EpisodeFiles, font_dir: &Option<String>) -> (r: Result<
        String,
        LaunchError,
    >)
        ensures
            match r {
                Ok(c) => value@.video matches Some(v) && c@ == self.command_spec(
                    v,
                    value@.audio,
                    value@.subtitles,
                    opt_view(*font_dir),
                ),
                Err(e) => value@.video is None && e == LaunchError::MissingVideo,
            },
    ;

    fn append_audio_args(&self, cmd: &mut String, audio: &[String])
        ensures
            final(cmd)@ == old(cmd)@ + self.audio_args_spec(strings_view(audio@)),
    ;

    fn append_subtitle_args(&self, cmd: &mut String, subtitles: &[String])
        ensures
            final(cmd)@ == old(cmd)@ + self.subtitle_args_spec(strings_view(subtitles@)),
    ;

    fn append_font_args(&self, cmd: &mut String, font_dir: &Option<String>)
        ensures
            final(cmd)@ == old(cmd)@ + self.font_args_spec(opt_view(*font_dir)),
    ;
}

/// The program followed by the quoted video: how most commands begin.
pub fn start_command(name: &str, video: &str) -> (r: String)
    ensures
        r@ == name@ + " \""@ + video@ + "\""@,
{
    let mut cmd = String::from_str(name);
    cmd.append(" \"");
    cmd.append(video);
    cmd.append("\"");
    cmd
}

/// The player the launcher settled on.
#[derive(Debug)]
pub enum SelectedPlayer {
    Mpv(MpvPlayer),
    Vlc(VlcPlayer),
}

impl View for SelectedPlayer {
    type V = (PlayerKind, Seq<char>);

    /// Which player, and the program name it is launched by.
    open spec fn view(&self) -> (PlayerKind, Seq<char>) {
        match self {
            SelectedPlayer::Mpv(p) => (PlayerKind::Mpv, p.program_name@),
            SelectedPlayer::Vlc(p) => (PlayerKind::Vlc, p.program_name@),
        }
    }
}

impl Player for SelectedPlayer {
    open spec fn name_spec(&self) -> Seq<char> {
        match self {
            SelectedPlayer::Mpv(p) => p.name_spec(),
            SelectedPlayer::Vlc(p) => p.name_spec(),
        }
    }

    open spec fn audio_args_spec(&self, audio: Seq<Seq<char>>) -> Seq<char> {
        match self {
            SelectedPlayer::Mpv(p) => p.audio_args_spec(audio),
            SelectedPlayer::Vlc(p) => p.audio_args_spec(audio),
        }
    }

    open spec fn subtitle_args_spec(&self, subtitles: Seq<Seq<char>>) -> Seq<char> {
        match self {
            SelectedPlayer::Mpv(p) => p.subtitle_args_spec(subtitles),
            SelectedPlayer::Vlc(p) => p.subtitle_args_spec(subtitles),
        }
    }

    open spec fn font_args_spec(&self, font_dir: Option<Seq<char>>) -> Seq<char> {
        match self {
            SelectedPlayer::Mpv(p) => p.font_args_spec(font_dir),
            SelectedPlayer::Vlc(p) => p.font_args_spec(font_dir),
        }
    }

    open spec fn command_spec(
        &self,
        video: Seq<char>,
        audio: Seq<Seq<char>>,
        subtitles: Seq<Seq<char>>,
        font_dir: Option<Seq<char>>,
    ) -> Seq<char> {
        match self {
            SelectedPlayer::Mpv(p) => p.command_spec(video, audio, subtitles, font_dir),
            SelectedPlayer::Vlc(p) => p.command_spec(video, audio, subtitles, font_dir),
        }
    }

    fn program_name(&self) -> (r: &str) {
        match self {
            SelectedPlayer::Mpv(p) => p.program_name(),
            SelectedPlayer::Vlc(p) => p.program_name(),
        }
    }

    fn build_launch_command(&self, value: &EpisodeFiles, font_dir: &Option<String>) -> (r: Result<
        String,
        LaunchError,
    >) {
        match self {
            SelectedPlayer::Mpv(p) => p.build_launch_command(value, font_dir),
            SelectedPlayer::Vlc(p) => p.build_launch_command(value, font_dir),
        }
    }

    fn append_audio_args(&self, cmd: &mut String, audio: &[String]) {
        match self {
            SelectedPlayer::Mpv(p) => p.append_audio_args(cmd, audio),
            SelectedPlayer::Vlc(p) => p.append_audio_args(cmd, audio),
        }
    }

    fn append_subtitle_args(&self, cmd: &mut String, subtitles: &[String]) {
        match self {
            SelectedPlayer::Mpv(p) => p.append_subtitle_args(cmd, subtitles),
            SelectedPlayer::Vlc(p) => p.append_subtitle_args(cmd, subtitles),
        }
    }

    fn append_font_args(&self, cmd: &mut String, font_dir: &Option<String>) {
        match self {
            SelectedPlayer::Mpv(p) => p.append_font_args(cmd, font_dir),
            SelectedPlayer::Vlc(p) => p.append_font_args(cmd, font_dir),
        }
    }
}

/// Why no player could be chosen.
#[derive(Clone, Copy, Debug, PartialEq, Eq, Structural)]
pub enum PlayerError {
    /// The requested player was not found.
    NotFound(PlayerKind),
    /// No player was requested, and neither mpv nor VLC was found.
    NoneFound,
}

/// The choice given where mpv and VLC were found: the requested player if it
/// was found; with no request, mpv when found, else VLC when found.
pub open spec fn selection_spec(
    requested: Option<PlayerKind>,
    mpv: Option<Seq<char>>,
    vlc: Option<Seq<char>>,
) -> Result<(PlayerKind, Seq<char>), PlayerError> {
    match requested {
        Some(PlayerKind::Mpv) => match mpv {
            Some(n) => Ok((PlayerKind::Mpv, n)),
            None => Err(PlayerError::NotFound(PlayerKind::Mpv)),
        },
        Some(PlayerKind::Vlc) => match vlc {
            Some(n) => Ok((PlayerKind::Vlc, n)),
            None => Err(PlayerError::NotFound(PlayerKind::Vlc)),
        },
        None => match mpv {
            Some(n) => Ok((PlayerKind::Mpv, n)),
            None => match vlc {
                Some(n) => Ok((PlayerKind::Vlc, n)),
                None => Err(PlayerError::NoneFound),
            },
        },
    }
}

/// Chooses the player from where mpv and VLC were found.
pub fn select_player(
    requested: Option<PlayerKind>,
    mpv: Option<String>,
    vlc: Option<String>,
) -> (r: Result<SelectedPlayer, PlayerError>)
    ensures
        match r {
            Ok(p) => selection_spec(requested, opt_view(mpv), opt_view(vlc)) == Ok::<
                (PlayerKind, Seq<char>),
                PlayerError,
            >(p@),
            Err(e) => selection_spec(requested, opt_view(mpv), opt_view(vlc)) == Err::<
                (PlayerKind, Seq<char>),
                PlayerError,
            >(e),
        },
{
    match requested {
        Some(PlayerKind::Mpv) => match mpv {
            Some(n) => Ok(SelectedPlayer::Mpv(MpvPlayer { program_name: n })),
            None => Err(PlayerError::NotFound(PlayerKind::Mpv)),
        },
        Some(PlayerKind::Vlc) => match vlc {
            Some(n) => Ok(SelectedPlayer::Vlc(VlcPlayer { program_name: n })),
            None => Err(PlayerError::NotFound(PlayerKind::Vlc)),
        },
        None => match mpv {
            Some(n) => Ok(SelectedPlayer::Mpv(MpvPlayer { program_name: n })),
            None => match vlc {
                Some(n) => Ok(SelectedPlayer::Vlc(VlcPlayer { program_name: n })),
                None => Err(PlayerError::NoneFound),
            },
        },
    }
}

/// Without a request, mpv is preferred when both players are found.
pub proof fn lemma_mpv_preferred(mpv: Seq<char>, vlc: Seq<char>)
    ensures
        selection_spec(None, Some(mpv), Some(vlc)) == Ok::<(PlayerKind, Seq<char>), PlayerError>(
            (PlayerKind::Mpv, mpv),
        ),
{
}

/// Without a request, a player that is the only one found is used.
pub proof fn lemma_only_found_player_used(name: Seq<char>)
    ensures
        selection_spec(None, Some(name), None) == Ok::<(PlayerKind, Seq<char>), PlayerError>(
            (PlayerKind::Mpv, name),
        ),
        selection_spec(None, None, Some(name)) == Ok::<(PlayerKind, Seq<char>), PlayerError>(
            (PlayerKind::Vlc, name),
        ),
{
}

/// A requested player is used when found, and is never replaced by another.
pub proof fn lemma_request_is_honoured(
    kind: PlayerKind,
    mpv: Option<Seq<char>>,
    vlc: Option<Seq<char>>,
)
    ensures
        selection_spec(Some(kind), mpv, vlc) matches Ok(sel) ==> sel.0 == kind,
        selection_spec(Some(kind), mpv, vlc) is Err ==> selection_spec(Some(kind), mpv, vlc)
            == Err::<(PlayerKind, Seq<char>), PlayerError>(PlayerError::NotFound(kind)),
{
}

/// `name` is the text of one of the places where `kind` is looked for.
pub open spec fn is_location_of(os: TargetOs, kind: PlayerKind, name: Seq<char>) -> bool {
    exists|i: int|
        0 <= i < player_locations_spec(os, key_spec(kind)).len() && location_text(
            #[trigger] player_locations_spec(os, key_spec(kind))[i],
        ) == name
}

/// Finds the player to launch with: the requested one, or mpv before VLC
/// when none is requested (both are looked up then). Whatever the file
/// system answers, a chosen player is the requested kind and is launched by
/// one of that kind's locations, and the errors are the ones for the request.
/// With no `PATH` directories, a player found only through `PATH` is never
/// found. On a file system that obeys its spec, the choice is exactly
/// `selection_spec` of where mpv and VLC are found: with no request, mpv
/// whenever mpv is found.
pub fn resolve_player_with<F: Fs>(
    fs: &F,
    os: TargetOs,
    path_dirs: &[String],
    requested: Option<PlayerKind>,
) -> (r: Result<SelectedPlayer, PlayerError>)
    ensures
        match r {
            Ok(p) => is_location_of(os, p@.0, p@.1) && (requested matches Some(k) ==> p@.0 == k),
            Err(e) => match requested {
                Some(k) => e == PlayerError::NotFound(k),
                None => e == PlayerError::NoneFound,
            },
        },
        path_dirs@.len() == 0 && all_path_locations(
            player_locations_spec(os, key_spec(PlayerKind::Mpv)),
        ) && all_path_locations(player_locations_spec(os, key_spec(PlayerKind::Vlc)))
            ==> r is Err,
        fs.obeys_fs_spec() ==> ({
            let mpv = first_found(
                fs,
                os,
                path_dirs@,
                player_locations_spec(os, key_spec(PlayerKind::Mpv)),
            );
            let vlc = first_found(
                fs,
                os,
                path_dirs@,
                player_locations_spec(os, key_spec(PlayerKind::Vlc)),
            );
            match r {
                Ok(p) => selection_spec(requested, mpv, vlc) == Ok::<
                    (PlayerKind, Seq<char>),
                    PlayerError,
                >(p@),
                Err(e) => selection_spec(requested, mpv, vlc) == Err::<
                    (PlayerKind, Seq<char>),
                    PlayerError,
                >(e),
            }
        }),
{
    match requested {
        Some(kind) => {
            let name = resolve_program_name_with(fs, os, path_dirs, kind.key());
            match kind {
                PlayerKind::Mpv => select_player(requested, name, None),
                PlayerKind::Vlc => select_player(requested, None, name),
            }
        },
        None => {
            let mpv = resolve_program_name_with(fs, os, path_dirs, PlayerKind::Mpv.key());
            let vlc = resolve_program_name_with(fs, os, path_dirs, PlayerKind::Vlc.key());
            select_player(None, mpv, vlc)
        },
    }
}

/// Every item appears in its quoted flags.
pub proof fn lemma_quoted_flags_contain(flag: Seq<char>, items: Seq<Seq<char>>, k: int)
    requires
        0 <= k < items.len(),
    ensures
        seq_contains(quoted_flags(flag, items), items[k]),
    decreases items.len(),
{
    let rest = quoted_flags(flag, items.drop_last());
    if k == items.len() - 1 {
        lemma_contains_self(items.last());
        lemma_contains_extend(items.last(), items.last(), rest + flag, "\""@);
        assert(rest + flag + items.last() + "\""@ =~= quoted_flags(flag, items));
    } else {
        lemma_quoted_flags_contain(flag, items.drop_last(), k);
        assert(items.drop_last()[k] == items[k]);
        lemma_contains_extend(rest, items[k], seq![], flag + items.last() + "\""@);
        assert(seq![] + rest + (flag + items.last() + "\""@) =~= quoted_flags(flag, items));
    }
}

/// Whatever `default_command` is built from, each of its five parts appears
/// in it.
proof fn lemma_default_command_parts(
    name: Seq<char>,
    video: Seq<char>,
    a: Seq<char>,
    s: Seq<char>,
    f: Seq<char>,
)
    ensures
        seq_contains(default_command(name, video, a, s, f), video),
        forall|x: Seq<char>|
            seq_contains(a, x) ==> seq_contains(default_command(name, video, a, s, f), x),
        forall|x: Seq<char>|
            seq_contains(s, x) ==> seq_contains(default_command(name, video, a, s, f), x),
        forall|x: Seq<char>|
            seq_contains(f, x) ==> seq_contains(default_command(name, video, a, s, f), x),
{
    let cmd = default_command(name, video, a, s, f);
    let pre = name + " \""@;
    lemma_contains_self(video);
    lemma_contains_extend(video, video, pre, "\""@ + a + s + f);
    assert(pre + video + ("\""@ + a + s + f) =~= cmd);
    assert forall|x: Seq<char>| seq_contains(a, x) implies seq_contains(cmd, x) by {
        lemma_contains_extend(a, x, pre + video + "\""@, s + f);
        assert(pre + video + "\""@ + a + (s + f) =~= cmd);
    }
    assert forall|x: Seq<char>| seq_contains(s, x) implies seq_contains(cmd, x) by {
        lemma_contains_extend(s, x, pre + video + "\""@ + a, f);
        assert(pre + video + "\""@ + a + s + f =~= cmd);
    }
    assert forall|x: Seq<char>| seq_contains(f, x) implies seq_contains(cmd, x) by {
        lemma_contains_extend(f, x, pre + video + "\""@ + a + s, seq![]);
        assert(pre + video + "\""@ + a + s + f + seq![] =~= cmd);
    }
}

/// All matching audio and subtitle tracks are attached: the launch command of
/// the selected player names the video, every audio track and every subtitle
/// file, and, for mpv, the fonts folder.
pub proof fn lemma_command_attaches_all_tracks(
    p: SelectedPlayer,
    video: Seq<char>,
    audio: Seq<Seq<char>>,
    subtitles: Seq<Seq<char>>,
    font_dir: Option<Seq<char>>,
)
    ensures
        seq_contains(p.command_spec(video, audio, subtitles, font_dir), video),
        forall|i: int|
            0 <= i < audio.len() ==> seq_contains(
                p.command_spec(video, audio, subtitles, font_dir),
                #[trigger] audio[i],
            ),
        forall|i: int|
            0 <= i < subtitles.len() ==> seq_contains(
                p.command_spec(video, audio, subtitles, font_dir),
                #[trigger] subtitles[i],
            ),
        p is Mpv && font_dir is Some ==> seq_contains(
            p.command_spec(video, audio, subtitles, font_dir),
            font_dir->0,
        ),
{
    lemma_default_command_parts(
        p.name_spec(),
        video,
        p.audio_args_spec(audio),
        p.subtitle_args_spec(subtitles),
        p.font_args_spec(font_dir),
    );
    assert forall|i: int| 0 <= i < audio.len() implies seq_contains(
        p.audio_args_spec(audio),
        #[trigger] audio[i],
    ) by {
        match p {
            SelectedPlayer::Mpv(_) => lemma_quoted_flags_contain(" --audio-file=\""@, audio, i),
            SelectedPlayer::Vlc(_) => {
                lemma_join_contains_items(audio, "#"@, i);
                lemma_contains_extend(
                    crate::text::join_with(audio, "#"@),
                    audio[i],
                    " --input-slave=\""@,
                    "\""@,
                );
            },
        }
    }
    assert forall|i: int| 0 <= i < subtitles.len() implies seq_contains(
        p.subtitle_args_spec(subtitles),
        #[trigger] subtitles[i],
    ) by {
        lemma_quoted_flags_contain(" --sub-file=\""@, subtitles, i);
    }
    if p is Mpv && font_dir is Some {
        let d = font_dir->0;
        lemma_contains_self(d);
        lemma_contains_extend(d, d, " --sub-fonts-dir=\""@, "\""@);
    }
}

/// PotPlayer's command likewise names the video, every audio track and
/// every subtitle file.
pub proof fn lemma_potplayer_attaches_all_tracks(
    p: PotPlayerPlayer,
    video: Seq<char>,
    audio: Seq<Seq<char>>,
    subtitles: Seq<Seq<char>>,
    font_dir: Option<Seq<char>>,
)
    ensures
        seq_contains(p.command_spec(video, audio, subtitles, font_dir), video),
        forall|i: int|
            0 <= i < audio.len() ==> seq_contains(
                p.command_spec(video, audio, subtitles, font_dir),
                #[trigger] audio[i],
            ),
        forall|i: int|
            0 <= i < subtitles.len() ==> seq_contains(
                p.command_spec(video, audio, subtitles, font_dir),
                #[trigger] subtitles[i],
            ),
{
    let a = p.audio_args_spec(audio);
    let s = p.subtitle_args_spec(subtitles);
    let pre = "\""@ + p.name_spec() + "\" /same \""@;
    let cmd = p.command_spec(video, audio, subtitles, font_dir);
    lemma_contains_self(video);
    lemma_contains_extend(video, video, pre, "\""@ + a + s);
    assert(pre + video + ("\""@ + a + s) =~= cmd);
    assert forall|i: int| 0 <= i < audio.len() implies seq_contains(cmd, #[trigger] audio[i]) by {
        lemma_quoted_flags_contain(" \""@, audio, i);
        lemma_contains_extend(a, audio[i], pre + video + "\""@, s);
        assert(pre + video + "\""@ + a + s =~= cmd);
    }
    assert forall|i: int| 0 <= i < subtitles.len() implies seq_contains(
        cmd,
        #[trigger] subtitles[i],
    ) by {
        lemma_quoted_flags_contain(" /sub=\""@, subtitles, i);
        lemma_contains_extend(s, subtitles[i], pre + video + "\""@ + a, seq![]);
        assert(pre + video + "\""@ + a + s + seq![] =~= cmd);
    }
}

} // verus!
