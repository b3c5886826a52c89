//! Platform-specific conventions: where players live, what launch scripts look like.

pub mod linux;
pub mod macos;
pub mod windows;

use vstd::prelude::*;

use crate::fs_access::{Fs, FsError};
use crate::paths::{join, join_spec};

verus! {

/// The operating system whose conventions the library follows.
#[derive(Clone, Copy, Debug, PartialEq, Eq, Structural)]
pub enum TargetOs {
    Linux,
    MacOs,
    Windows,
}

/// One place to look for a player's executable.
#[derive(Debug)]
pub enum PlayerLocation {
    /// An executable name to look for in every directory on `PATH`.
    Path(String),
    /// An exact path, such as a known install location.
    Absolute(String),
}

/// A place to look for a player, as text.
pub ghost enum LocationView {
    Path(Seq<char>),
    Absolute(Seq<char>),
}

impl View for PlayerLocation {
    type V = LocationView;

    open spec fn view(&self) -> LocationView {
        match self {
            PlayerLocation::Path(n) => LocationView::Path(n@),
            PlayerLocation::Absolute(p) => LocationView::Absolute(p@),
        }
    }
}

/// The name or path a location stands for.
pub open spec fn location_text(l: LocationView) -> Seq<char> {
    match l {
        LocationView::Path(n) => n,
        LocationView::Absolute(p) => p,
    }
}

/// Where the folder picker starts on `os`.
pub open spec fn default_pick_dir_spec(os: TargetOs) -> Seq<char> {
    match os {
        TargetOs::Windows => "C:\\\\"@,
        _ => "~/"@,
    }
}

/// The extension of launch scripts on `os`.
pub open spec fn script_ext_spec(os: TargetOs) -> Seq<char> {
    match os {
        TargetOs::Linux | TargetOs::MacOs => "bash"@,
        TargetOs::Windows => "cmd"@,
    }
}

/// The first line of launch scripts on `os`.
pub open spec fn script_header_spec(os: TargetOs) -> Seq<char> {
    match os {
        TargetOs::Windows => ""@,
        _ => "#!/bin/bash\n"@,
    }
}

/// Where to look for `player` on `os`, in order.
pub open spec fn player_locations_spec(os: TargetOs, player: Seq<char>) -> Seq<LocationView> {
    match os {
        TargetOs::Linux => linux::player_locations_spec(player),
        TargetOs::MacOs => macos::player_locations_spec(player),
        TargetOs::Windows => windows::player_locations_spec(player),
    }
}

pub fn default_pick_dir(os: TargetOs) -> (r: &'static str)
    ensures
        r@ == default_pick_dir_spec(os),
{
    match os {
        TargetOs::Linux => linux::default_pick_dir(),
        TargetOs::MacOs => macos::default_pick_dir(),
        TargetOs::Windows => windows::default_pick_dir(),
    }
}

pub fn script_ext(os: TargetOs) -> (r: &'static str)
    ensures
        r@ == script_ext_spec(os),
{
    match os {
        TargetOs::Linux => linux::script_ext(),
        TargetOs::MacOs => macos::script_ext(),
        TargetOs::Windows => windows::script_ext(),
    }
}

pub fn script_header(os: TargetOs) -> (r: &'static str)
    ensures
        r@ == script_header_spec(os),
{
    match os {
        TargetOs::Linux => linux::script_header(),
        TargetOs::MacOs => macos::script_header(),
        TargetOs::Windows => windows::script_header(),
    }
}

pub fn player_locations(os: TargetOs, player: &str) -> (r: Vec<PlayerLocation>)
    ensures
        r@.map_values(|l: PlayerLocation| l@) == player_locations_spec(os, player@),
{
    match os {
        TargetOs::Linux => linux::player_locations(player),
        TargetOs::MacOs => macos::player_locations(player),
        TargetOs::Windows => windows::player_locations(player),
    }
}

/// Makes the script at `path` executable where `os` needs that; on Windows
/// it does nothing and succeeds.
pub fn set_script_permissions_with<F: Fs>(os: TargetOs, fs: &F, path: &str) -> (r: Result<
    (),
    FsError,
>)
    ensures
        os == TargetOs::Windows ==> r is Ok,
{
    match os {
        TargetOs::Linux => linux::set_script_permissions_with(fs, path),
        TargetOs::MacOs => macos::set_script_permissions_with(fs, path),
        TargetOs::Windows => windows::set_script_permissions_with(fs, path),
    }
}

/// Whether some directory of `dirs` holds a file `name`, by `fs`'s spec.
pub open spec fn on_path_spec<F: Fs>(fs: &F, os: TargetOs, dirs: Seq<String>, name: Seq<char>) -> bool {
    exists|i: int| 0 <= i < dirs.len() && fs.file_at(join_spec(os, #[trigger] dirs[i]@, name))
}

/// Whether the file system has a file `name` in one of `path_dirs`.
/// With no directories to search, it is never found; on a file system that
/// obeys its spec, it is found exactly when one of the directories holds it.
pub fn is_on_path_with<F: Fs>(fs: &F, os: TargetOs, path_dirs: &[String], name: &str) -> (r:
    bool)
    ensures
        path_dirs@.len() == 0 ==> !r,
        fs.obeys_fs_spec() ==> r == on_path_spec(fs, os, path_dirs@, name@),
{
    let mut i: usize = 0;
    while i < path_dirs.len()
        invariant
            i <= path_dirs.len(),
            fs.obeys_fs_spec() ==> forall|j: int|
                0 <= j < i ==> !fs.file_at(join_spec(os, #[trigger] path_dirs@[j]@, name@)),
        decreases path_dirs.len() - i,
    {
        let candidate = join(os, path_dirs[i].as_str(), name);
        if fs.is_file(candidate.as_str()) {
            proof {
                if fs.obeys_fs_spec() {
                    assert(fs.file_at(join_spec(os, path_dirs@[i as int]@, name@)));
                }
            }
            return true;
        }
        i = i + 1;
    }
    false
}

/// The text of the first location confirmed in `available` (entry `i` says
/// whether location `i` was found), or `None`.
pub open spec fn first_available_spec(locs: Seq<LocationView>, available: Seq<bool>) -> Option<
    Seq<char>,
>
    decreases available.len(),
{
    if available.len() == 0 || locs.len() == 0 {
        None
    } else if available[0] {
        Some(location_text(locs[0]))
    } else {
        first_available_spec(locs.drop_first(), available.drop_first())
    }
}

/// With nothing confirmed, there is no location.
pub proof fn lemma_first_available_none(locs: Seq<LocationView>, available: Seq<bool>)
    requires
        forall|i: int| 0 <= i < available.len() ==> !#[trigger] available[i],
    ensures
        first_available_spec(locs, available) is None,
    decreases available.len(),
{
    if available.len() > 0 && locs.len() > 0 {
        assert(!available[0]);
        let rest = available.drop_first();
        assert forall|i: int| 0 <= i < rest.len() implies !#[trigger] rest[i] by {
            assert(rest[i] == available[i + 1]);
        }
        lemma_first_available_none(locs.drop_first(), rest);
    }
}

/// Whether every location of a list is a bare name to look up in `PATH`.
pub open spec fn all_path_locations(locs: Seq<LocationView>) -> bool {
    forall|i: int| 0 <= i < locs.len() ==> #[trigger] locs[i] is Path
}

/// A confirmed location is one of the locations.
pub proof fn lemma_first_available_is_location(locs: Seq<LocationView>, available: Seq<bool>)
    ensures
        first_available_spec(locs, available) matches Some(n) ==> exists|i: int|
            0 <= i < locs.len() && location_text(#[trigger] locs[i]) == n,
    decreases available.len(),
{
    if available.len() > 0 && locs.len() > 0 && !available[0] {
        lemma_first_available_is_location(locs.drop_first(), available.drop_first());
        if first_available_spec(locs, available) is Some {
            let n = first_available_spec(locs, available)->0;
            let i = choose|i: int|
                0 <= i < locs.drop_first().len() && location_text(
                    #[trigger] locs.drop_first()[i],
                ) == n;
            assert(locs[i + 1] == locs.drop_first()[i]);
        }
    } else if available.len() > 0 && locs.len() > 0 {
        assert(location_text(locs[0]) == location_text(locs[0]));
    }
}

/// The text of the first location that `available` confirms.
pub fn first_available(locations: &[PlayerLocation], available: &[bool]) -> (r: Option<String>)
    ensures
        ({
            let locs = locations@.map_values(|l: PlayerLocation| l@);
            match r {
                Some(n) => first_available_spec(locs, available@) == Some(n@),
                None => first_available_spec(locs, available@) is None,
            }
        }),
{
    let ghost locs = locations@.map_values(|l: PlayerLocation| l@);
    assert(locs.skip(0) =~= locs);
    assert(available@.skip(0) =~= available@);
    let mut i: usize = 0;
    while i < available.len() && i < locations.len()
        invariant
            i <= available.len(),
            i <= locations.len(),
            locs == locations@.map_values(|l: PlayerLocation| l@),
            first_available_spec(locs, available@) == first_available_spec(
                locs.skip(i as int),
                available@.skip(i as int),
            ),
        decreases locations.len() - i,
    {
        let ghost rest_l = locs.skip(i as int);
        let ghost rest_a = available@.skip(i as int);
        assert(rest_a[0] == available@[i as int]);
        assert(rest_l[0] == locations@[i as int]@);
        if available[i] {
            let t = match &locations[i] {
                PlayerLocation::Path(n) => n.clone(),
                PlayerLocation::Absolute(p) => p.clone(),
            };
            return Some(t);
        }
        assert(rest_l.drop_first() =~= locs.skip(i + 1));
        assert(rest_a.drop_first() =~= available@.skip(i + 1));
        i = i + 1;
    }
    None
}

/// Whether location `l` is there, by `fs`'s spec: a bare name in one of
/// `dirs`, an exact path as a file.
pub open spec fn location_found<F: Fs>(fs: &F, os: TargetOs, dirs: Seq<String>, l: LocationView) -> bool {
    match l {
        LocationView::Path(n) => on_path_spec(fs, os, dirs, n),
        LocationView::Absolute(p) => fs.file_at(p),
    }
}

/// The text of the first of `locs` that is there, by `fs`'s spec.
pub open spec fn first_found<F: Fs>(
    fs: &F,
    os: TargetOs,
    dirs: Seq<String>,
    locs: Seq<LocationView>,
) -> Option<Seq<char>>
    decreases locs.len(),
{
    if locs.len() == 0 {
        None
    } else if location_found(fs, os, dirs, locs[0]) {
        Some(location_text(locs[0]))
    } else {
        first_found(fs, os, dirs, locs.drop_first())
    }
}

/// Answers that agree with the spec for every location asked, asked up to
/// the first found one or to the end, pick the first location found.
proof fn lemma_first_available_found<F: Fs>(
    fs: &F,
    os: TargetOs,
    dirs: Seq<String>,
    locs: Seq<LocationView>,
    avail: Seq<bool>,
)
    requires
        avail.len() <= locs.len(),
        forall|j: int| 0 <= j < avail.len() ==> #[trigger] avail[j] == location_found(fs, os, dirs, locs[j]),
        avail.len() == locs.len() || (avail.len() > 0 && avail.last()),
    ensures
        first_available_spec(locs, avail) == first_found(fs, os, dirs, locs),
    decreases avail.len(),
{
    if avail.len() > 0 && !avail[0] {
        let a = avail.drop_first();
        let l = locs.drop_first();
        assert forall|j: int| 0 <= j < a.len() implies #[trigger] a[j] == location_found(fs, os, dirs, l[j]) by {
            assert(a[j] == avail[j + 1]);
            assert(l[j] == locs[j + 1]);
        }
        if a.len() > 0 {
            assert(a.last() == avail.last());
        }
        lemma_first_available_found(fs, os, dirs, l, a);
    }
}

/// The name or path to launch `player` by: its locations are checked in
/// order, stopping at the first that the file system confirms (a bare name
/// when found in one of `path_dirs`, an exact path when it is a file).
/// Whatever the file system answers, the result is the text of one of
/// `player`'s locations.
pub fn resolve_program_name_with<F: Fs>(
    fs: &F,
    os: TargetOs,
    path_dirs: &[String],
    player: &str,
) -> (r: Option<String>)
    ensures
        r matches Some(n) ==> exists|i: int|
            0 <= i < player_locations_spec(os, player@).len() && location_text(
                #[trigger] player_locations_spec(os, player@)[i],
            ) == n@,
        path_dirs@.len() == 0 && all_path_locations(player_locations_spec(os, player@))
            ==> r is None,
        fs.obeys_fs_spec() ==> match r {
            Some(n) => first_found(fs, os, path_dirs@, player_locations_spec(os, player@))
                == Some(n@),
            None => first_found(fs, os, path_dirs@, player_locations_spec(os, player@)) is None,
        },
{
    let locations = player_locations(os, player);
    let ghost locs = player_locations_spec(os, player@);
    let mut available: Vec<bool> = Vec::new();
    let mut i: usize = 0;
    let mut done = false;
    while i < locations.len() && !done
        invariant
            i <= locations.len(),
            available@.len() == i,
            done ==> i > 0 && available@[i - 1],
            locs == player_locations_spec(os, player@),
            locations@.map_values(|l: PlayerLocation| l@) == locs,
            path_dirs@.len() == 0 && all_path_locations(locs) ==> forall|j: int|
                0 <= j < available@.len() ==> !#[trigger] available@[j],
            fs.obeys_fs_spec() ==> forall|j: int|
                0 <= j < available@.len() ==> #[trigger] available@[j] == location_found(
                    fs,
                    os,
                    path_dirs@,
                    locs[j],
                ),
        decreases locations.len() - i,
    {
        proof {
            assert(locations@.map_values(|l: PlayerLocation| l@)[i as int] == locations@[i as int]@);
        }
        let found = match &locations[i] {
            PlayerLocation::Path(name) => is_on_path_with(fs, os, path_dirs, name.as_str()),
            PlayerLocation::Absolute(path) => fs.is_file(path.as_str()),
        };
        let ghost before = available@;
        available.push(found);
        proof {
            assert forall|j: int| 0 <= j < available@.len() implies #[trigger] available@[j] == (if j < i {
                before[j]
            } else {
                found
            }) by {}
        }
        done = found;
        i = i + 1;
    }
    let r = first_available(locations.as_slice(), available.as_slice());
    proof {
        if fs.obeys_fs_spec() {
            lemma_first_available_found(fs, os, path_dirs@, locs, available@);
        }
        if path_dirs@.len() == 0 && all_path_locations(player_locations_spec(os, player@)) {
            lemma_first_available_none(
                locations@.map_values(|l: PlayerLocation| l@),
                available@,
            );
        }
        lemma_first_available_is_location(
            locations@.map_values(|l: PlayerLocation| l@),
            available@,
        );
    }
    r
}

/// Every player has at least one location, and the first is a `PATH` one.
pub proof fn lemma_locations_start_with_path(os: TargetOs, player: Seq<char>)
    ensures
        player_locations_spec(os, player).len() >= 1,
        player_locations_spec(os, player)[0] is Path,
{
}

/// The bare `PATH` name of `player` on `os`: the first location, which is
/// always a `PATH` one.
pub open spec fn path_program_name_spec(os: TargetOs, player: Seq<char>) -> Seq<char> {
    location_text(player_locations_spec(os, player)[0])
}

/// The bare name `player` is looked up by on `PATH` (such as `vlc.exe` on
/// Windows).
pub fn path_program_name(os: TargetOs, player: &str) -> (r: String)
    ensures
        r@ == path_program_name_spec(os, player@),
        player_locations_spec(os, player@)[0] is Path,
{
    let locations = player_locations(os, player);
    proof {
        lemma_locations_start_with_path(os, player@);
        assert(locations@.map_values(|l: PlayerLocation| l@)[0] == locations@[0]@);
    }
    match &locations[0] {
        PlayerLocation::Path(name) => name.clone(),
        PlayerLocation::Absolute(path) => path.clone(),
    }
}

} // verus!
