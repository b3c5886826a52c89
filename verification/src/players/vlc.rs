//! The VLC player.

use vstd::prelude::*;

use super::{append_quoted_flags, start_command, default_command, quoted_flags, LaunchError, Player};
use crate::media_scan::{strings_view, EpisodeFiles};
use crate::text::join_with;

verus! {

/// VLC, launched by `program_name`.
#[derive(Debug)]
pub struct VlcPlayer {
    pub program_name: String,
}

impl Player for VlcPlayer {
    open spec fn name_spec(&self) -> Seq<char> {
        self.program_name@
    }

    /// VLC's `--input-slave` keeps only its last value, so all tracks go
    /// into one `--input-slave="a#b#…"`; nothing when there are none.
    open spec fn audio_args_spec(&self, audio: Seq<Seq<char>>) -> Seq<char> {
        if audio.len() == 0 {
            seq![]
        } else {
            " --input-slave=\""@ + join_with(audio, "#"@) + "\""@
        }
    }

    /// One `--sub-file="…"` per subtitle file.
    open spec fn subtitle_args_spec(&self, subtitles: Seq<Seq<char>>) -> Seq<char> {
        quoted_flags(" --sub-file=\""@, subtitles)
    }

    /// VLC is given no fonts folder.
    open spec fn font_args_spec(&self, font_dir: Option<Seq<char>>) -> Seq<char> {
        seq![]
    }

    open spec fn command_spec(
        &self,
        video: Seq<char>,
        audio: Seq<Seq<char>>,
        subtitles: Seq<Seq<char>>,
        font_dir: Option<Seq<char>>,
    ) -> Seq<char> {
        default_command(
            self.name_spec(),
            video,
            self.audio_args_spec(audio),
            self.subtitle_args_spec(subtitles),
            self.font_args_spec(font_dir),
        )
    }

    fn program_name(&self) -> (r: &str) {
        self.program_name.as_str()
    }

    fn build_launch_command(&self, value: &EpisodeFiles, font_dir: &Option<String>) -> (r: Result<
        String,
        LaunchError,
    >) {
        let video = match &value.video {
            Some(v) => v,
            None => {
                return Err(LaunchError::MissingVideo);
            },
        };
        let mut cmd = start_command(self.program_name(), video.as_str());
        self.append_audio_args(&mut cmd, value.audio.as_slice());
        self.append_subtitle_args(&mut cmd, value.subtitles.as_slice());
        self.append_font_args(&mut cmd, font_dir);
        Ok(cmd)
    }

    fn append_audio_args(&self, cmd: &mut String, audio: &[String]) {
        if audio.len() == 0 {
            return;
        }
        let ghost start = cmd@;
        let ghost all = strings_view(audio@);
        cmd.append(" --input-slave=\"");
        cmd.append(audio[0].as_str());
        assert(all.take(1) =~= seq![all[0]]);
        let mut i: usize = 1;
        while i < audio.len()
            invariant
                1 <= i <= audio.len(),
                all == strings_view(audio@),
                cmd@ == start + " --input-slave=\""@ + join_with(all.take(i as int), "#"@),
            decreases audio.len() - i,
        {
            cmd.append("#");
            cmd.append(audio[i].as_str());
            proof {
                assert(all.take(i + 1).drop_last() =~= all.take(i as int));
                assert(all.take(i + 1).last() == audio@[i as int]@);
            }
            i = i + 1;
        }
        assert(all.take(audio.len() as int) =~= all);
        cmd.append("\"");
    }

    fn append_subtitle_args(&self, cmd: &mut String, subtitles: &[String]) {
        append_quoted_flags(cmd, " --sub-file=\"", subtitles);
    }

    fn append_font_args(&self, cmd: &mut String, font_dir: &Option<String>) {
        assert(cmd@ =~= cmd@ + seq![]);
    }
}

} // verus!
