//! The mpv player.

use vstd::prelude::*;

use super::{append_quoted_flags, start_command, default_command, quoted_flags, LaunchError, Player};
use crate::media_scan::EpisodeFiles;

verus! {

/// mpv, launched by `program_name`.
#[derive(Debug)]
pub struct MpvPlayer {
    pub program_name: String,
}

impl Player for MpvPlayer {
    open spec fn name_spec(&self) -> Seq<char> {
        self.program_name@
    }

    /// One `--audio-file="…"` per track.
    open spec fn audio_args_spec(&self, audio: Seq<Seq<char>>) -> Seq<char> {
        quoted_flags(" --audio-file=\""@, audio)
    }

    /// One `--sub-file="…"` per subtitle file.
    open spec fn subtitle_args_spec(&self, subtitles: Seq<Seq<char>>) -> Seq<char> {
        quoted_flags(" --sub-file=\""@, subtitles)
    }

    /// `--sub-fonts-dir="…"` when there is a fonts folder.
    open spec fn font_args_spec(&self, font_dir: Option<Seq<char>>) -> Seq<char> {
        match font_dir {
            Some(d) => " --sub-fonts-dir=\""@ + d + "\""@,
            None => seq![],
        }
    }

    open spec fn command_spec(
        &self,
        video: Seq<char>,
        audio: Seq<Seq<char>>,
        subtitles: Seq<Seq<char>>,
        font_dir: Option<Seq<char>>,
    ) -> Seq<char> {
        default_command(
            self.name_spec(),
            video,
            self.audio_args_spec(audio),
            self.subtitle_args_spec(subtitles),
            self.font_args_spec(font_dir),
        )
    }

    fn program_name(&self) -> (r: &str) {
        self.program_name.as_str()
    }

    fn build_launch_command(&self, value: &EpisodeFiles, font_dir: &Option<String>) -> (r: Result<
        String,
        LaunchError,
    >) {
        let video = match &value.video {
            Some(v) => v,
            None => {
                return Err(LaunchError::MissingVideo);
            },
        };
        let mut cmd = start_command(self.program_name(), video.as_str());
        self.append_audio_args(&mut cmd, value.audio.as_slice());
        self.append_subtitle_args(&mut cmd, value.subtitles.as_slice());
        self.append_font_args(&mut cmd, font_dir);
        Ok(cmd)
    }

    fn append_audio_args(&self, cmd: &mut String, audio: &[String]) {
        append_quoted_flags(cmd, " --audio-file=\"", audio);
    }

    fn append_subtitle_args(&self, cmd: &mut String, subtitles: &[String]) {
        append_quoted_flags(cmd, " --sub-file=\"", subtitles);
    }

    fn append_font_args(&self, cmd: &mut String, font_dir: &Option<String>) {
        if let Some(d) = font_dir {
            cmd.append(" --sub-fonts-dir=\"");
            cmd.append(d.as_str());
            cmd.append("\"");
        }
    }
}

} // verus!
