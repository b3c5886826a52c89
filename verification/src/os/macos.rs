//! macOS conventions.

use vstd::prelude::*;

use super::{LocationView, PlayerLocation};
use crate::fs_access::{Fs, FsError};
use crate::text::str_equal;

verus! {

/// Where the folder picker starts.
pub fn default_pick_dir() -> (r: &'static str)
    ensures
        r@ == "~/"@,
{
    "~/"
}

/// The extension of launch scripts: `.bash`, as on Linux.
pub fn script_ext() -> (r: &'static str)
    ensures
        r@ == "bash"@,
{
    "bash"
}

/// The first line of launch scripts.
pub fn script_header() -> (r: &'static str)
    ensures
        r@ == "#!/bin/bash\n"@,
{
    "#!/bin/bash\n"
}

/// Where to look for `player`: players ship as `.app` bundles, so a `PATH`
/// install (such as Homebrew's) is tried first and the bundled binary next.
pub open spec fn player_locations_spec(player: Seq<char>) -> Seq<LocationView> {
    if player == "vlc"@ {
        seq![
            LocationView::Path("vlc"@),
            LocationView::Absolute("/Applications/VLC.app/Contents/MacOS/VLC"@),
        ]
    } else if player == "mpv"@ {
        seq![
            LocationView::Path("mpv"@),
            LocationView::Absolute("/Applications/mpv.app/Contents/MacOS/mpv"@),
        ]
    } else {
        seq![LocationView::Path(player)]
    }
}

/// Where to look for `player`, in order.
pub fn player_locations(player: &str) -> (r: Vec<PlayerLocation>)
    ensures
        r@.map_values(|l: PlayerLocation| l@) == player_locations_spec(player@),
{
    if str_equal(player, "vlc") {
        let r = vec![
            PlayerLocation::Path(String::from_str("vlc")),
            PlayerLocation::Absolute(String::from_str("/Applications/VLC.app/Contents/MacOS/VLC")),
        ];
        assert(r@.map_values(|l: PlayerLocation| l@) =~= player_locations_spec(player@));
        r
    } else if str_equal(player, "mpv") {
        let r = vec![
            PlayerLocation::Path(String::from_str("mpv")),
            PlayerLocation::Absolute(String::from_str("/Applications/mpv.app/Contents/MacOS/mpv")),
        ];
        assert(r@.map_values(|l: PlayerLocation| l@) =~= player_locations_spec(player@));
        r
    } else {
        let r = vec![PlayerLocation::Path(String::from_str(player))];
        assert(r@.map_values(|l: PlayerLocation| l@) =~= player_locations_spec(player@));
        r
    }
}

/// Makes the script at `path` executable; the result is the file system's.
pub fn set_script_permissions_with<F: Fs>(fs: &F, path: &str) -> (r: Result<(), FsError>) {
    fs.set_executable(path)
}

} // verus!
