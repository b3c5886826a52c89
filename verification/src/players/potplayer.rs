//! The PotPlayer player.

use vstd::prelude::*;

use super::{append_quoted_flags, quoted_flags, LaunchError, Player};
use crate::media_scan::EpisodeFiles;

verus! {

/// PotPlayer, launched by `program_name`.
#[derive(Debug)]
pub struct PotPlayerPlayer {
    pub program_name: String,
}

impl Player for PotPlayerPlayer {
    open spec fn name_spec(&self) -> Seq<char> {
        self.program_name@
    }

    /// Audio files are bare quoted arguments, so that `/same` loads them as
    /// streams of the video.
    open spec fn audio_args_spec(&self, audio: Seq<Seq<char>>) -> Seq<char> {
        quoted_flags(" \""@, audio)
    }

    /// One `/sub="…"` per subtitle file.
    open spec fn subtitle_args_spec(&self, subtitles: Seq<Seq<char>>) -> Seq<char> {
        quoted_flags(" /sub=\""@, subtitles)
    }

    /// PotPlayer is given no fonts folder.
    open spec fn font_args_spec(&self, font_dir: Option<Seq<char>>) -> Seq<char> {
        seq![]
    }

    /// The quoted program, `/same`, the quoted video, then the audio,
    /// subtitle and font arguments.
    open spec fn command_spec(
        &self,
        video: Seq<char>,
        audio: Seq<Seq<char>>,
        subtitles: Seq<Seq<char>>,
        font_dir: Option<Seq<char>>,
    ) -> Seq<char> {
        "\""@ + self.name_spec() + "\" /same \""@ + video + "\""@ + self.audio_args_spec(audio)
            + self.subtitle_args_spec(subtitles) + self.font_args_spec(font_dir)
    }

    fn program_name(&self) -> (r: &str) {
        self.program_name.as_str()
    }

    fn build_launch_command(&self, value: &EpisodeFiles, font_dir: &Option<String>) -> (r: Result<
        String,
        LaunchError,
    >) {
        let video = match &value.video {
            Some(v) => v,
            None => {
                return Err(LaunchError::MissingVideo);
            },
        };
        let mut cmd = String::from_str("\"");
        cmd.append(self.program_name());
        cmd.append("\" /same \"");
        cmd.append(video.as_str());
        cmd.append("\"");
        self.append_audio_args(&mut cmd, value.audio.as_slice());
        self.append_subtitle_args(&mut cmd, value.subtitles.as_slice());
        self.append_font_args(&mut cmd, font_dir);
        Ok(cmd)
    }

    fn append_audio_args(&self, cmd: &mut String, audio: &[String]) {
        append_quoted_flags(cmd, " \"", audio);
    }

    fn append_subtitle_args(&self, cmd: &mut String, subtitles: &[String]) {
        append_quoted_flags(cmd, " /sub=\"", subtitles);
    }

    fn append_font_args(&self, cmd: &mut String, font_dir: &Option<String>) {
        assert(cmd@ =~= cmd@ + seq![]);
    }
}

} // verus!
