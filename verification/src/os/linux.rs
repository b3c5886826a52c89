//! Linux conventions.

use vstd::prelude::*;

use super::{LocationView, PlayerLocation};
use crate::fs_access::{Fs, FsError};

verus! {

/// Where the folder picker starts.
pub fn default_pick_dir() -> (r: &'static str)
    ensures
        r@ == "~/"@,
{
    "~/"
}

/// The extension of launch scripts.
pub fn script_ext() -> (r: &'static str)
    ensures
        r@ == "bash"@,
{
    "bash"
}

/// The first line of launch scripts.
pub fn script_header() -> (r: &'static str)
    ensures
        r@ == "#!/bin/bash\n"@,
{
    "#!/bin/bash\n"
}

/// Where to look for `player`: package managers put players on `PATH`, so
/// that is the only place.
pub open spec fn player_locations_spec(player: Seq<char>) -> Seq<LocationView> {
    seq![LocationView::Path(player)]
}

/// Where to look for `player`, in order.
pub fn player_locations(player: &str) -> (r: Vec<PlayerLocation>)
    ensures
        r@.map_values(|l: PlayerLocation| l@) == player_locations_spec(player@),
{
    let r = vec![PlayerLocation::Path(String::from_str(player))];
    assert(r@.map_values(|l: PlayerLocation| l@) =~= player_locations_spec(player@));
    r
}

/// Makes the script at `path` executable; the result is the file system's.
pub fn set_script_permissions_with<F: Fs>(fs: &F, path: &str) -> (r: Result<(), FsError>) {
    fs.set_executable(path)
}

} // verus!
