//! Windows conventions.

use vstd::prelude::*;

use super::{LocationView, PlayerLocation};
use crate::fs_access::{Fs, FsError};
use crate::text::str_equal;

verus! {

/// Where the folder picker starts.
pub fn default_pick_dir() -> (r: &'static str)
    ensures
        r@ == "C:\\\\"@,
{
    "C:\\\\"
}

/// The extension of launch scripts.
pub fn script_ext() -> (r: &'static str)
    ensures
        r@ == "cmd"@,
{
    "cmd"
}

/// The first line of launch scripts: none.
pub fn script_header() -> (r: &'static str)
    ensures
        r@ == ""@,
{
    ""
}

/// Where to look for `player`: the `.exe` on `PATH`, then the usual
/// install folders.
pub open spec fn player_locations_spec(player: Seq<char>) -> Seq<LocationView> {
    if player == "vlc"@ {
        seq![
            LocationView::Path("vlc.exe"@),
            LocationView::Absolute("C:\\Program Files\\VideoLAN\\VLC\\vlc.exe"@),
            LocationView::Absolute("C:\\Program Files (x86)\\VideoLAN\\VLC\\vlc.exe"@),
        ]
    } else if player == "mpv"@ {
        seq![
            LocationView::Path("mpv.exe"@),
            LocationView::Absolute("C:\\Program Files\\mpv\\mpv.exe"@),
        ]
    } else {
        seq![LocationView::Path(player)]
    }
}

/// Where to look for `player`, in order.
pub fn player_locations(player: &str) -> (r: Vec<PlayerLocation>)
    ensures
        r@.map_values(|l: PlayerLocation| l@) == player_locations_spec(player@),
{
    if str_equal(player, "vlc") {
        let r = vec![
            PlayerLocation::Path(String::from_str("vlc.exe")),
            PlayerLocation::Absolute(String::from_str("C:\\Program Files\\VideoLAN\\VLC\\vlc.exe")),
            PlayerLocation::Absolute(
                String::from_str("C:\\Program Files (x86)\\VideoLAN\\VLC\\vlc.exe"),
            ),
        ];
        assert(r@.map_values(|l: PlayerLocation| l@) =~= player_locations_spec(player@));
        r
    } else if str_equal(player, "mpv") {
        let r = vec![
            PlayerLocation::Path(String::from_str("mpv.exe")),
            PlayerLocation::Absolute(String::from_str("C:\\Program Files\\mpv\\mpv.exe")),
        ];
        assert(r@.map_values(|l: PlayerLocation| l@) =~= player_locations_spec(player@));
        r
    } else {
        let r = vec![PlayerLocation::Path(String::from_str(player))];
        assert(r@.map_values(|l: PlayerLocation| l@) =~= player_locations_spec(player@));
        r
    }
}

/// Scripts need no permission change on Windows.
pub fn set_script_permissions_with<F: Fs>(fs: &F, path: &str) -> (r: Result<(), FsError>)
    ensures
        r is Ok,
{
    Ok(())
}

} // verus!
