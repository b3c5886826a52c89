//! Scanning a season folder: which files are media, which episode each one
//! belongs to, and where the fonts are.

use std::collections::BTreeMap;

use vstd::prelude::*;

use crate::fs_access::{Fs, FsError};
use crate::number::{
    format_two_digit, is_digit, lemma_two_digit_digits, lemma_two_digit_injective,
    lemma_two_digit_reads_back, two_digit,
};
use crate::os::{
    script_ext, script_ext_spec, script_header, script_header_spec, set_script_permissions_with,
    TargetOs,
};
use crate::paths::{
    extension, extension_spec, file_name, file_name_spec, is_plain_name, is_separator, join,
    join_base, join_spec, lemma_join_plain_name,
};
use crate::pattern::{
    episode_number_spec, marker_pattern, regex_compiles, two_digits_pattern, EpisodePatterns,
    PatternError,
};
use crate::text::{ascii_lower_seq, chars_are, chars_contain, lower_chars, seq_contains, to_chars};

verus! {

broadcast use {vstd::std_specs::btree::group_btree_axioms, vstd::laws_cmp::group_laws_cmp};

/// The files that belong to one episode.
#[derive(Debug)]
pub struct EpisodeFiles {
    pub audio: Vec<String>,
    pub subtitles: Vec<String>,
    pub video: Option<String>,
}

/// What an episode's files are, as text.
pub ghost struct EpisodeView {
    pub audio: Seq<Seq<char>>,
    pub subtitles: Seq<Seq<char>>,
    pub video: Option<Seq<char>>,
}

/// The texts of a sequence of strings.
pub open spec fn strings_view(v: Seq<String>) -> Seq<Seq<char>> {
    v.map_values(|s: String| s@)
}

/// The text of an optional string.
pub open spec fn opt_view(o: Option<String>) -> Option<Seq<char>> {
    match o {
        Some(s) => Some(s@),
        None => None,
    }
}

impl View for EpisodeFiles {
    type V = EpisodeView;

    open spec fn view(&self) -> EpisodeView {
        EpisodeView {
            audio: strings_view(self.audio@),
            subtitles: strings_view(self.subtitles@),
            video: opt_view(self.video),
        }
    }
}

/// An episode with no files yet.
pub open spec fn empty_episode() -> EpisodeView {
    EpisodeView { audio: seq![], subtitles: seq![], video: None }
}

impl EpisodeFiles {
    pub fn new() -> (r: EpisodeFiles)
        ensures
            r@ == empty_episode(),
    {
        let r = EpisodeFiles { audio: Vec::new(), subtitles: Vec::new(), video: None };
        assert(r@.audio =~= seq![]);
        assert(r@.subtitles =~= seq![]);
        r
    }
}

impl Default for EpisodeFiles {
    fn default() -> (r: EpisodeFiles)
        ensures
            r@ == empty_episode(),
    {
        EpisodeFiles::new()
    }
}

/// The episode table as text, keyed by episode number.
pub open spec fn structure_view(m: Map<u32, EpisodeFiles>) -> Map<u32, EpisodeView> {
    m.map_values(|e: EpisodeFiles| e@)
}

/// The role a media file plays for its episode.
#[derive(Clone, Copy, Debug, PartialEq, Eq, Structural)]
pub enum MediaKind {
    Video,
    Subtitle,
    Audio,
    Font,
}

/// How a file found while scanning is treated.
#[derive(Clone, Copy, Debug, PartialEq, Eq, Structural)]
pub enum FileClass {
    /// A launch script written by an earlier run.
    Script,
    /// Neither a script nor a supported media file.
    Unsupported,
    Media(MediaKind),
}

/// The ASCII-lower-cased extension of `p`, empty when it has none.
pub open spec fn lowered_extension(os: TargetOs, p: Seq<char>) -> Seq<char> {
    match extension_spec(os, p) {
        Some(e) => ascii_lower_seq(e),
        None => seq![],
    }
}

/// Scripts end in `.cmd` or `.bash`; media in `.mkv`, `.ass`, `.mka` or
/// `.ttf`, in any letter case.
pub open spec fn classify_spec(os: TargetOs, p: Seq<char>) -> FileClass {
    let e = lowered_extension(os, p);
    if e == "cmd"@ || e == "bash"@ {
        FileClass::Script
    } else if e == "mkv"@ {
        FileClass::Media(MediaKind::Video)
    } else if e == "ass"@ {
        FileClass::Media(MediaKind::Subtitle)
    } else if e == "mka"@ {
        FileClass::Media(MediaKind::Audio)
    } else if e == "ttf"@ {
        FileClass::Media(MediaKind::Font)
    } else {
        FileClass::Unsupported
    }
}

/// The lower-cased extension of `path`.
pub fn lowered_ext(os: TargetOs, path: &str) -> (r: Vec<char>)
    ensures
        r@ == lowered_extension(os, path@),
{
    match extension(os, path) {
        Some(e) => {
            let v = to_chars(e.as_str());
            lower_chars(&v)
        },
        None => Vec::new(),
    }
}

/// Classifies `path` by its extension.
pub fn classify(os: TargetOs, path: &str) -> (r: FileClass)
    ensures
        r == classify_spec(os, path@),
{
    let e = lowered_ext(os, path);
    if chars_are(&e, "cmd") || chars_are(&e, "bash") {
        FileClass::Script
    } else if chars_are(&e, "mkv") {
        FileClass::Media(MediaKind::Video)
    } else if chars_are(&e, "ass") {
        FileClass::Media(MediaKind::Subtitle)
    } else if chars_are(&e, "mka") {
        FileClass::Media(MediaKind::Audio)
    } else if chars_are(&e, "ttf") {
        FileClass::Media(MediaKind::Font)
    } else {
        FileClass::Unsupported
    }
}

/// Whether `path` is a launch script (`.cmd` or `.bash`).
pub fn is_script_file(os: TargetOs, path: &str) -> (r: bool)
    ensures
        r == (classify_spec(os, path@) == FileClass::Script),
{
    classify(os, path) == FileClass::Script
}

/// Whether `path` is a media file the launcher uses.
pub fn is_supported_file(os: TargetOs, path: &str) -> (r: bool)
    ensures
        r == (classify_spec(os, path@) is Media),
{
    match classify(os, path) {
        FileClass::Media(_) => true,
        _ => false,
    }
}

/// An episode's files after adding `p` in role `kind`: a video replaces the
/// previous one, subtitles and audio tracks are appended, fonts are ignored.
pub open spec fn slot_with(slot: EpisodeView, kind: MediaKind, p: Seq<char>) -> EpisodeView {
    match kind {
        MediaKind::Video => EpisodeView {
            audio: slot.audio,
            subtitles: slot.subtitles,
            video: Some(p),
        },
        MediaKind::Subtitle => EpisodeView {
            audio: slot.audio,
            subtitles: slot.subtitles.push(p),
            video: slot.video,
        },
        MediaKind::Audio => EpisodeView {
            audio: slot.audio.push(p),
            subtitles: slot.subtitles,
            video: slot.video,
        },
        MediaKind::Font => slot,
    }
}

/// The files recorded for episode `ep`, empty if there are none yet.
pub open spec fn slot_of(m: Map<u32, EpisodeView>, ep: u32) -> EpisodeView {
    if m.contains_key(ep) {
        m[ep]
    } else {
        empty_episode()
    }
}

/// The file name of `p`, empty when it has none.
pub open spec fn media_name(os: TargetOs, p: Seq<char>) -> Seq<char> {
    match file_name_spec(os, p) {
        Some(n) => n,
        None => seq![],
    }
}

/// The episode table after meeting file `p`. A media file whose name holds
/// an episode number lands in that episode's entry, which is created if
/// needed (also for a font); every other file leaves the table unchanged.
pub open spec fn place_file(os: TargetOs, m: Map<u32, EpisodeView>, p: Seq<char>) -> Map<
    u32,
    EpisodeView,
> {
    match classify_spec(os, p) {
        FileClass::Media(kind) => match episode_number_spec(media_name(os, p)) {
            Some(ep) => m.insert(ep, slot_with(slot_of(m, ep), kind, p)),
            None => m,
        },
        _ => m,
    }
}

/// What happened to one file.
#[derive(Debug)]
pub enum MediaOutcome {
    /// A launch script; skipped.
    Script,
    /// Not a supported media file; its name (or `<unknown>`) is reported.
    Unknown(String),
    /// A media file without an episode number in its name.
    NoEpisode(String),
    /// Recorded for the episode, in the given role.
    Placed(u32, MediaKind),
}

/// The name reported for an unsupported file.
pub open spec fn unknown_name(os: TargetOs, p: Seq<char>) -> Seq<char> {
    match file_name_spec(os, p) {
        Some(n) => n,
        None => "<unknown>"@,
    }
}

/// `new` is `old` with file `p` recorded: a media file whose name gives
/// episode `ep` makes `ep` an episode of the table (with no files yet, if it
/// was not one); a video becomes the episode's video, an audio or subtitle
/// file is appended to the episode's audio or subtitle list, a font changes
/// no list; every other episode, and the table for any other file, stay as
/// they were.
pub open spec fn placed_exactly(
    os: TargetOs,
    old: Map<u32, EpisodeView>,
    new: Map<u32, EpisodeView>,
    p: Seq<char>,
) -> bool {
    match classify_spec(os, p) {
        FileClass::Media(kind) => match episode_number_spec(media_name(os, p)) {
            Some(ep) => {
                let had = old.contains_key(ep);
                let audio = if had {
                    old[ep].audio
                } else {
                    seq![]
                };
                let subtitles = if had {
                    old[ep].subtitles
                } else {
                    seq![]
                };
                let video = if had {
                    old[ep].video
                } else {
                    None
                };
                &&& new.dom() == old.dom().insert(ep)
                &&& forall|k: u32| #[trigger] old.contains_key(k) && k != ep ==> new[k] == old[k]
                &&& new[ep].audio == (if kind == MediaKind::Audio {
                    audio.push(p)
                } else {
                    audio
                })
                &&& new[ep].subtitles == (if kind == MediaKind::Subtitle {
                    subtitles.push(p)
                } else {
                    subtitles
                })
                &&& new[ep].video == (if kind == MediaKind::Video {
                    Some(p)
                } else {
                    video
                })
            },
            None => new == old,
        },
        _ => new == old,
    }
}

/// Placing a file records it exactly: see `placed_exactly`.
pub proof fn lemma_place_file_exact(os: TargetOs, m: Map<u32, EpisodeView>, p: Seq<char>)
    ensures
        placed_exactly(os, m, place_file(os, m, p), p),
{
    let m2 = place_file(os, m, p);
    if let FileClass::Media(kind) = classify_spec(os, p) {
        if let Some(ep) = episode_number_spec(media_name(os, p)) {
            assert(m2.dom() =~= m.dom().insert(ep));
        }
    }
}

/// What happens to file `p`, by its class and the episode number in its
/// name.
pub open spec fn media_outcome_spec(os: TargetOs, p: Seq<char>, r: MediaOutcome) -> bool {
    match classify_spec(os, p) {
        FileClass::Script => r is Script,
        FileClass::Unsupported => r matches MediaOutcome::Unknown(n) && n@ == unknown_name(os, p),
        FileClass::Media(kind) => match episode_number_spec(media_name(os, p)) {
            Some(ep) => r == MediaOutcome::Placed(ep, kind),
            None => r matches MediaOutcome::NoEpisode(n) && n@ == media_name(os, p),
        },
    }
}

/// Records `path` in the episode table when it is a media file with an
/// episode number, and says what happened to it.
pub fn handle_media_file(
    os: TargetOs,
    patterns: &EpisodePatterns,
    path: String,
    structure: &mut BTreeMap<u32, EpisodeFiles>,
) -> (r: MediaOutcome)
    ensures
        structure_view(final(structure)@) == place_file(
            os,
            structure_view(old(structure)@),
            path@,
        ),
        match classify_spec(os, path@) {
            FileClass::Script => r is Script,
            FileClass::Unsupported => r matches MediaOutcome::Unknown(n) && n@ == unknown_name(
                os,
                path@,
            ),
            FileClass::Media(kind) => match episode_number_spec(media_name(os, path@)) {
                Some(ep) => r == MediaOutcome::Placed(ep, kind),
                None => r matches MediaOutcome::NoEpisode(n) && n@ == media_name(os, path@),
            },
        },
        placed_exactly(os, structure_view(old(structure)@), structure_view(final(structure)@), path@),
{
    proof {
        lemma_place_file_exact(os, structure_view(structure@), path@);
    }
    match classify(os, path.as_str()) {
        FileClass::Script => MediaOutcome::Script,
        FileClass::Unsupported => {
            let name = match file_name(os, path.as_str()) {
                Some(n) => n,
                None => String::from_str("<unknown>"),
            };
            MediaOutcome::Unknown(name)
        },
        FileClass::Media(kind) => {
            let name = match file_name(os, path.as_str()) {
                Some(n) => n,
                None => {
                    proof {
                        // A media file has an extension, so it has a name.
                        reveal_strlit("mkv");
                        reveal_strlit("ass");
                        reveal_strlit("mka");
                        reveal_strlit("ttf");
                        assert(classify_spec(os, path@) is Media);
                        assert(file_name_spec(os, path@) is None);
                        assert(extension_spec(os, path@) is None);
                        assert(lowered_extension(os, path@) =~= seq![]);
                        assert(false);
                    }
                    return MediaOutcome::Script;
                },
            };
            match patterns.extract_episode_number(name.as_str()) {
                None => MediaOutcome::NoEpisode(name),
                Some(ep) => {
                    let ghost old_view = structure_view(structure@);
                    let mut slot = match structure.remove(&ep) {
                        Some(s) => s,
                        None => EpisodeFiles::new(),
                    };
                    assert(slot@ == slot_of(old_view, ep));
                    let ghost p = path@;
                    match kind {
                        MediaKind::Video => {
                            slot.video = Some(path);
                        },
                        MediaKind::Subtitle => {
                            slot.subtitles.push(path);
                            assert(strings_view(slot.subtitles@) =~= slot_of(
                                old_view,
                                ep,
                            ).subtitles.push(p));
                        },
                        MediaKind::Audio => {
                            slot.audio.push(path);
                            assert(strings_view(slot.audio@) =~= slot_of(old_view, ep).audio.push(
                                p,
                            ));
                        },
                        MediaKind::Font => {},
                    }
                    assert(slot@ == slot_with(slot_of(old_view, ep), kind, p));
                    structure.insert(ep, slot);
                    assert(structure_view(structure@) =~= old_view.insert(
                        ep,
                        slot_with(slot_of(old_view, ep), kind, p),
                    ));
                    MediaOutcome::Placed(ep, kind)
                },
            }
        },
    }
}

/// `p` is a media file of role `kind` whose name carries episode number `ep`.
pub open spec fn file_belongs(os: TargetOs, p: Seq<char>, ep: u32, kind: MediaKind) -> bool {
    &&& classify_spec(os, p) == FileClass::Media(kind)
    &&& episode_number_spec(media_name(os, p)) == Some(ep)
}

/// Every file in the table sits in the entry of its own episode and in the
/// list of its own role.
pub open spec fn structure_wf(os: TargetOs, m: Map<u32, EpisodeView>) -> bool {
    forall|ep: u32|
        #[trigger] m.contains_key(ep) ==> {
            &&& forall|i: int|
                0 <= i < m[ep].audio.len() ==> file_belongs(
                    os,
                    #[trigger] m[ep].audio[i],
                    ep,
                    MediaKind::Audio,
                )
            &&& forall|i: int|
                0 <= i < m[ep].subtitles.len() ==> file_belongs(
                    os,
                    #[trigger] m[ep].subtitles[i],
                    ep,
                    MediaKind::Subtitle,
                )
            &&& m[ep].video matches Some(v) ==> file_belongs(os, v, ep, MediaKind::Video)
        }
}

/// Placing a file keeps every file in its own episode and role.
pub proof fn lemma_place_file_keeps_wf(os: TargetOs, m: Map<u32, EpisodeView>, p: Seq<char>)
    requires
        structure_wf(os, m),
    ensures
        structure_wf(os, place_file(os, m, p)),
{
    let m2 = place_file(os, m, p);
    assert forall|ep: u32| #[trigger] m2.contains_key(ep) implies {
        &&& forall|i: int|
            0 <= i < m2[ep].audio.len() ==> file_belongs(
                os,
                #[trigger] m2[ep].audio[i],
                ep,
                MediaKind::Audio,
            )
        &&& forall|i: int|
            0 <= i < m2[ep].subtitles.len() ==> file_belongs(
                os,
                #[trigger] m2[ep].subtitles[i],
                ep,
                MediaKind::Subtitle,
            )
        &&& m2[ep].video matches Some(v) ==> file_belongs(os, v, ep, MediaKind::Video)
    } by {
        if m.contains_key(ep) {
            assert(m[ep].video matches Some(v) ==> file_belongs(os, v, ep, MediaKind::Video));
        }
        if m2[ep] != m[ep] || !m.contains_key(ep) {
            let e = m2[ep];
            assert forall|i: int| 0 <= i < e.audio.len() implies file_belongs(
                os,
                #[trigger] e.audio[i],
                ep,
                MediaKind::Audio,
            ) by {
                if m.contains_key(ep) && i < m[ep].audio.len() {
                    assert(e.audio[i] == m[ep].audio[i]);
                }
            }
            assert forall|i: int| 0 <= i < e.subtitles.len() implies file_belongs(
                os,
                #[trigger] e.subtitles[i],
                ep,
                MediaKind::Subtitle,
            ) by {
                if m.contains_key(ep) && i < m[ep].subtitles.len() {
                    assert(e.subtitles[i] == m[ep].subtitles[i]);
                }
            }
        }
    }
}

/// Whether a directory name marks the fonts folder: it holds `font` or
/// `шрифты` once ASCII letters are lower-cased.
pub open spec fn is_font_dir_name(name: Seq<char>) -> bool {
    let lowered = ascii_lower_seq(name);
    seq_contains(lowered, "font"@) || seq_contains(lowered, "шрифты"@)
}

/// The fonts folder, if one was chosen, has a fonts folder's name.
pub open spec fn font_dir_ok(os: TargetOs, font_dir: Option<String>) -> bool {
    font_dir matches Some(d) ==> is_font_dir_name(media_name(os, d@))
}

/// Whether the directory at `path` is a fonts folder.
pub fn is_font_dir(os: TargetOs, path: &str) -> (r: bool)
    ensures
        r == is_font_dir_name(media_name(os, path@)),
{
    let name = match file_name(os, path) {
        Some(n) => to_chars(n.as_str()),
        None => Vec::new(),
    };
    let lowered = lower_chars(&name);
    let font = to_chars("font");
    let fonts_ru = to_chars("шрифты");
    chars_contain(&lowered, &font) || chars_contain(&lowered, &fonts_ru)
}

/// Something the scan reports without stopping.
#[derive(Debug)]
pub enum ScanNotice {
    /// A file that is neither a script nor a supported media file.
    UnknownFile(String),
    /// A media file whose name holds no episode number.
    MissingEpisode(String),
}

/// What becomes of one directory entry.
#[derive(Debug)]
pub enum EntryStep {
    /// A subdirectory to scan in turn.
    Descend(String),
    /// A subdirectory taken as the fonts folder.
    FontDir,
    /// A file, handled as `handle_media_file` says.
    File(MediaOutcome),
    /// Neither a directory nor a file.
    Skip,
}

/// Handles one entry of a directory listing, given what the file system
/// said of it: a fonts folder is remembered (the last one wins), any other
/// directory is to be scanned, a file is placed in the episode table.
pub fn handle_entry(
    os: TargetOs,
    patterns: &EpisodePatterns,
    path: String,
    is_dir: bool,
    is_file: bool,
    structure: &mut BTreeMap<u32, EpisodeFiles>,
    font_dir: &mut Option<String>,
) -> (r: EntryStep)
    ensures
        is_dir && is_font_dir_name(media_name(os, path@)) ==> {
            &&& r is FontDir
            &&& *final(font_dir) == Some(path)
            &&& final(structure)@ == old(structure)@
        },
        is_dir && !is_font_dir_name(media_name(os, path@)) ==> {
            &&& r == EntryStep::Descend(path)
            &&& *final(font_dir) == *old(font_dir)
            &&& final(structure)@ == old(structure)@
        },
        !is_dir && is_file ==> {
            &&& r matches EntryStep::File(o) && media_outcome_spec(os, path@, o)
            &&& *final(font_dir) == *old(font_dir)
            &&& structure_view(final(structure)@) == place_file(
                os,
                structure_view(old(structure)@),
                path@,
            )
        },
        !is_dir && !is_file ==> {
            &&& r is Skip
            &&& *final(font_dir) == *old(font_dir)
            &&& final(structure)@ == old(structure)@
        },
{
    if is_dir {
        if is_font_dir(os, path.as_str()) {
            *font_dir = Some(path);
            EntryStep::FontDir
        } else {
            EntryStep::Descend(path)
        }
    } else if is_file {
        EntryStep::File(handle_media_file(os, patterns, path, structure))
    } else {
        EntryStep::Skip
    }
}

/// `new` keeps everything `old` recorded: every episode stays, with its
/// tracks as a prefix of its new ones, and with a video if it had one.
pub open spec fn table_grows(old: Map<u32, EpisodeView>, new: Map<u32, EpisodeView>) -> bool {
    forall|ep: u32|
        #[trigger] old.contains_key(ep) ==> {
            &&& new.contains_key(ep)
            &&& old[ep].audio.is_prefix_of(new[ep].audio)
            &&& old[ep].subtitles.is_prefix_of(new[ep].subtitles)
            &&& old[ep].video is Some ==> new[ep].video is Some
        }
}

/// Placing a file keeps everything the table recorded.
pub proof fn lemma_place_file_grows(os: TargetOs, m: Map<u32, EpisodeView>, p: Seq<char>)
    ensures
        table_grows(m, place_file(os, m, p)),
{
    let m2 = place_file(os, m, p);
    assert forall|ep: u32| #[trigger] m.contains_key(ep) implies {
        &&& m2.contains_key(ep)
        &&& m[ep].audio.is_prefix_of(m2[ep].audio)
        &&& m[ep].subtitles.is_prefix_of(m2[ep].subtitles)
        &&& m[ep].video is Some ==> m2[ep].video is Some
    } by {
        assert(m[ep].audio.is_prefix_of(m[ep].audio.push(p)));
        assert(m[ep].subtitles.is_prefix_of(m[ep].subtitles.push(p)));
        assert(m[ep].audio.is_prefix_of(m[ep].audio));
        assert(m[ep].subtitles.is_prefix_of(m[ep].subtitles));
    }
}

/// A table keeps everything it recorded.
pub proof fn lemma_table_grows_refl(m: Map<u32, EpisodeView>)
    ensures
        table_grows(m, m),
{
    assert forall|ep: u32| #[trigger] m.contains_key(ep) implies m[ep].audio.is_prefix_of(
        m[ep].audio,
    ) && m[ep].subtitles.is_prefix_of(m[ep].subtitles) by {
        assert(m[ep].audio.take(m[ep].audio.len() as int) =~= m[ep].audio);
        assert(m[ep].subtitles.take(m[ep].subtitles.len() as int) =~= m[ep].subtitles);
    }
}

/// Keeping what was recorded is transitive.
pub proof fn lemma_table_grows_trans(
    a: Map<u32, EpisodeView>,
    b: Map<u32, EpisodeView>,
    c: Map<u32, EpisodeView>,
)
    requires
        table_grows(a, b),
        table_grows(b, c),
    ensures
        table_grows(a, c),
{
    assert forall|ep: u32| #[trigger] a.contains_key(ep) implies {
        &&& c.contains_key(ep)
        &&& a[ep].audio.is_prefix_of(c[ep].audio)
        &&& a[ep].subtitles.is_prefix_of(c[ep].subtitles)
        &&& a[ep].video is Some ==> c[ep].video is Some
    } by {
        assert(b.contains_key(ep));
        assert(a[ep].audio =~= c[ep].audio.take(a[ep].audio.len() as int));
        assert(a[ep].subtitles =~= c[ep].subtitles.take(a[ep].subtitles.len() as int));
    }
}

/// A notice names a file the scan met: an unsupported file, or a media file
/// whose name holds no episode number.
pub open spec fn notice_explained(os: TargetOs, n: ScanNotice) -> bool {
    match n {
        ScanNotice::UnknownFile(name) => exists|p: Seq<char>|
            classify_spec(os, p) == FileClass::Unsupported && #[trigger] unknown_name(os, p)
                == name@,
        ScanNotice::MissingEpisode(name) => episode_number_spec(name@) is None && exists|
            p: Seq<char>,
        |
            classify_spec(os, p) is Media && #[trigger] media_name(os, p) == name@,
    }
}

/// File `p` is met through `dir`'s listing, by `fs`'s spec, at most
/// `depth` folders down: it is listed in `dir`, or in a subfolder that is
/// not a fonts folder, and so on.
pub open spec fn reaches<F: Fs>(fs: &F, os: TargetOs, dir: Seq<char>, p: Seq<char>, depth: nat) -> bool
    decreases depth,
{
    if depth == 0 {
        false
    } else {
        match fs.listing(dir) {
            Some(es) => exists|i: int|
                #![trigger es[i]]
                0 <= i < es.len() && ((es[i] == p && !fs.dir_at(p) && fs.file_at(p)) || (fs.dir_at(
                    es[i],
                ) && !is_font_dir_name(media_name(os, es[i])) && reaches(
                    fs,
                    os,
                    es[i],
                    p,
                    (depth - 1) as nat,
                ))),
            None => false,
        }
    }
}

/// Entry `e` of a listing leads to file `p`: it is that file, or it is a
/// folder other than a fonts folder through which `p` is reached.
pub open spec fn entry_leads<F: Fs>(fs: &F, os: TargetOs, e: Seq<char>, p: Seq<char>, depth: nat) -> bool {
    ||| (e == p && !fs.dir_at(p) && fs.file_at(p))
    ||| (depth > 0 && fs.dir_at(e) && !is_font_dir_name(media_name(os, e)) && reaches(
        fs,
        os,
        e,
        p,
        (depth - 1) as nat,
    ))
}

/// Reaching a file through a listed folder is reaching it through one of
/// the folder's entries.
pub proof fn lemma_reaches_unfold<F: Fs>(
    fs: &F,
    os: TargetOs,
    dir: Seq<char>,
    p: Seq<char>,
    depth: nat,
    es: Seq<Seq<char>>,
)
    requires
        depth > 0,
        fs.listing(dir) == Some(es),
        reaches(fs, os, dir, p, depth),
    ensures
        exists|i: int| 0 <= i < es.len() && #[trigger] entry_leads(fs, os, es[i], p, depth),
{
    let i = choose|i: int|
        #![trigger es[i]]
        0 <= i < es.len() && ((es[i] == p && !fs.dir_at(p) && fs.file_at(p)) || (fs.dir_at(es[i])
            && !is_font_dir_name(media_name(os, es[i])) && reaches(
            fs,
            os,
            es[i],
            p,
            (depth - 1) as nat,
        )));
    assert(entry_leads(fs, os, es[i], p, depth));
}

/// File `p` has its place in table `m`: a media file whose name gives
/// episode `ep` makes `ep` an episode; a video gives the episode a video;
/// an audio or subtitle file is in the episode's list.
pub open spec fn file_recorded(os: TargetOs, m: Map<u32, EpisodeView>, p: Seq<char>) -> bool {
    match classify_spec(os, p) {
        FileClass::Media(kind) => match episode_number_spec(media_name(os, p)) {
            Some(ep) => m.contains_key(ep) && match kind {
                MediaKind::Video => m[ep].video is Some,
                MediaKind::Audio => m[ep].audio.contains(p),
                MediaKind::Subtitle => m[ep].subtitles.contains(p),
                MediaKind::Font => true,
            },
            None => true,
        },
        _ => true,
    }
}

/// A placed file has its place.
pub proof fn lemma_placed_is_recorded(os: TargetOs, m: Map<u32, EpisodeView>, p: Seq<char>)
    ensures
        file_recorded(os, place_file(os, m, p), p),
{
    lemma_place_file_exact(os, m, p);
    let m2 = place_file(os, m, p);
    if let FileClass::Media(kind) = classify_spec(os, p) {
        if let Some(ep) = episode_number_spec(media_name(os, p)) {
            assert(m2.dom().contains(ep));
            if kind == MediaKind::Audio {
                assert(m2[ep].audio[m2[ep].audio.len() - 1] == p);
            }
            if kind == MediaKind::Subtitle {
                assert(m2[ep].subtitles[m2[ep].subtitles.len() - 1] == p);
            }
        }
    }
}

/// A table that keeps what it recorded keeps every file's place.
pub proof fn lemma_recorded_kept(
    os: TargetOs,
    a: Map<u32, EpisodeView>,
    b: Map<u32, EpisodeView>,
    p: Seq<char>,
)
    requires
        table_grows(a, b),
        file_recorded(os, a, p),
    ensures
        file_recorded(os, b, p),
{
    if let FileClass::Media(kind) = classify_spec(os, p) {
        if let Some(ep) = episode_number_spec(media_name(os, p)) {
            assert(a.contains_key(ep));
            if kind == MediaKind::Audio {
                let k = choose|k: int| 0 <= k < a[ep].audio.len() && a[ep].audio[k] == p;
                assert(b[ep].audio.subrange(0, a[ep].audio.len() as int)[k] == b[ep].audio[k]);
                assert(b[ep].audio[k] == p);
            }
            if kind == MediaKind::Subtitle {
                let k = choose|k: int| 0 <= k < a[ep].subtitles.len() && a[ep].subtitles[k] == p;
                assert(b[ep].subtitles.subrange(0, a[ep].subtitles.len() as int)[k]
                    == b[ep].subtitles[k]);
                assert(b[ep].subtitles[k] == p);
            }
        }
    }
}

/// One more entry of a listing handled: what the earlier entries led to
/// keeps its place, and what this entry leads to has its place.
proof fn lemma_scan_step<F: Fs>(
    fs: &F,
    os: TargetOs,
    es: Seq<Seq<char>>,
    i: int,
    depth: nat,
    before: Map<u32, EpisodeView>,
    now: Map<u32, EpisodeView>,
)
    requires
        table_grows(before, now),
        forall|q: Seq<char>, j: int|
            0 <= j < i && #[trigger] entry_leads(fs, os, es[j], q, depth) ==> file_recorded(
                os,
                before,
                q,
            ),
        forall|q: Seq<char>|
            #[trigger] entry_leads(fs, os, es[i], q, depth) ==> file_recorded(os, now, q),
    ensures
        forall|q: Seq<char>, j: int|
            0 <= j < i + 1 && #[trigger] entry_leads(fs, os, es[j], q, depth) ==> file_recorded(
                os,
                now,
                q,
            ),
{
    assert forall|q: Seq<char>, j: int|
        0 <= j < i + 1 && #[trigger] entry_leads(fs, os, es[j], q, depth) implies file_recorded(
        os,
        now,
        q,
    ) by {
        if j < i {
            lemma_recorded_kept(os, before, now, q);
        }
    }
}

/// Why a scan stopped.
#[derive(Debug)]
pub enum ScanError {
    /// One of the episode-number patterns did not compile.
    Pattern(PatternError),
    /// A directory could not be listed.
    ReadDir(String, FsError),
    /// Directories nested deeper than `MAX_SCAN_DEPTH`, which no real tree is.
    TooDeep,
}

/// How deep directories may nest before a scan gives up. Recursion this deep
/// exhausts any stack first; the bound only makes termination provable.
pub const MAX_SCAN_DEPTH: u64 = 0xFFFF_FFFF_FFFF_FFFF;

/// Scans directory `dir` and, depth first in listing order, its
/// subdirectories other than fonts folders, placing every file in the
/// episode table. Whatever the file system answers, a table whose files all
/// stand in their own episode and role stays so, a fonts folder with a fonts
/// folder's name is only replaced by another such one, episodes are never
/// dropped, and notices are only appended. With no depth left it changes
/// nothing and reports `TooDeep`; it never reports a pattern error.
pub fn read_dir_recursive<F: Fs>(
    fs: &F,
    os: TargetOs,
    patterns: &EpisodePatterns,
    dir: &str,
    structure: &mut BTreeMap<u32, EpisodeFiles>,
    font_dir: &mut Option<String>,
    notices: &mut Vec<ScanNotice>,
    depth_left: u64,
) -> (r: Result<(), ScanError>)
    ensures
        structure_wf(os, structure_view(old(structure)@)) ==> structure_wf(
            os,
            structure_view(final(structure)@),
        ),
        old(structure)@.dom().subset_of(final(structure)@.dom()),
        table_grows(structure_view(old(structure)@), structure_view(final(structure)@)),
        font_dir_ok(os, *old(font_dir)) ==> font_dir_ok(os, *final(font_dir)),
        old(notices)@.is_prefix_of(final(notices)@),
        forall|i: int|
            old(notices)@.len() <= i < final(notices)@.len() ==> notice_explained(
                os,
                #[trigger] final(notices)@[i],
            ),
        depth_left == 0 ==> {
            &&& r matches Err(ScanError::TooDeep)
            &&& final(structure)@ == old(structure)@
            &&& *final(font_dir) == *old(font_dir)
            &&& final(notices)@ == old(notices)@
        },
        !(r matches Err(ScanError::Pattern(_))),
        fs.obeys_fs_spec() && r is Ok ==> forall|p: Seq<char>|
            #[trigger] reaches(fs, os, dir@, p, depth_left as nat) ==> file_recorded(
                os,
                structure_view(final(structure)@),
                p,
            ),
    decreases depth_left,
{
    if depth_left == 0 {
        return Err(ScanError::TooDeep);
    }
    let entries = match fs.read_dir_paths(dir) {
        Ok(e) => e,
        Err(e) => {
            return Err(ScanError::ReadDir(String::from_str(dir), e));
        },
    };
    let ghost es = entries@.map_values(|s: String| s@);
    let ghost depth = depth_left as nat;
    let mut i: usize = 0;
    while i < entries.len()
        invariant
            i <= entries.len(),
            depth_left > 0,
            depth == depth_left as nat,
            es == entries@.map_values(|s: String| s@),
            fs.obeys_fs_spec() ==> fs.listing(dir@) == Some(es),
            fs.obeys_fs_spec() ==> forall|q: Seq<char>, j: int|
                0 <= j < i && #[trigger] entry_leads(fs, os, es[j], q, depth) ==> file_recorded(
                    os,
                    structure_view(structure@),
                    q,
                ),
            structure_wf(os, structure_view(old(structure)@)) ==> structure_wf(
                os,
                structure_view(structure@),
            ),
            old(structure)@.dom().subset_of(structure@.dom()),
            table_grows(structure_view(old(structure)@), structure_view(structure@)),
            font_dir_ok(os, *old(font_dir)) ==> font_dir_ok(os, *font_dir),
            old(notices)@.is_prefix_of(notices@),
            forall|j: int|
                old(notices)@.len() <= j < notices@.len() ==> notice_explained(
                    os,
                    #[trigger] notices@[j],
                ),
        decreases entries.len() - i,
    {
        let path = entries[i].clone();
        let is_dir = fs.is_dir(path.as_str());
        let is_file = if is_dir {
            false
        } else {
            fs.is_file(path.as_str())
        };
        let ghost before = structure_view(structure@);
        let ghost before_dom = structure@.dom();
        let ghost p = path@;
        let ghost before_notices = notices@;
        proof {
            assert(es[i as int] == p);
        }
        let step = handle_entry(os, patterns, path, is_dir, is_file, structure, font_dir);
        proof {
            lemma_table_grows_refl(before);
            if fs.obeys_fs_spec() && !(is_dir && !is_font_dir_name(media_name(os, p))) {
                if !is_dir && is_file {
                    lemma_placed_is_recorded(os, before, p);
                }
                assert forall|q: Seq<char>|
                    #[trigger] entry_leads(fs, os, es[i as int], q, depth) implies file_recorded(
                    os,
                    structure_view(structure@),
                    q,
                ) by {}
                if !is_dir && is_file {
                    lemma_place_file_grows(os, before, p);
                }
                lemma_scan_step(
                    fs,
                    os,
                    es,
                    i as int,
                    depth,
                    before,
                    structure_view(structure@),
                );
            }
            if !is_dir && is_file {
                lemma_place_file_grows(os, before, p);
                lemma_table_grows_trans(
                    structure_view(old(structure)@),
                    before,
                    structure_view(structure@),
                );
                if structure_wf(os, before) {
                    lemma_place_file_keeps_wf(os, before, p);
                }
                assert(before.dom() =~= before_dom);
                assert(structure_view(structure@).dom() =~= structure@.dom());
                assert(before_dom.subset_of(structure@.dom()));
            }
        }
        match step {
            EntryStep::Descend(sub) => {
                let res = read_dir_recursive(
                    fs,
                    os,
                    patterns,
                    sub.as_str(),
                    structure,
                    font_dir,
                    notices,
                    depth_left - 1,
                );
                proof {
                    assert forall|j: int|
                        old(notices)@.len() <= j < notices@.len() implies notice_explained(
                        os,
                        #[trigger] notices@[j],
                    ) by {
                        if j < before_notices.len() {
                            assert(notices@.subrange(0, before_notices.len() as int)[j]
                                == before_notices[j]);
                        }
                    }
                }
                if let Err(e) = res {
                    return Err(e);
                }
                proof {
                    if fs.obeys_fs_spec() {
                        assert(sub@ == p);
                        assert forall|q: Seq<char>|
                            #[trigger] entry_leads(fs, os, es[i as int], q, depth) implies file_recorded(
                            os,
                            structure_view(structure@),
                            q,
                        ) by {
                            assert(reaches(fs, os, p, q, (depth - 1) as nat));
                        }
                        lemma_scan_step(
                            fs,
                            os,
                            es,
                            i as int,
                            depth,
                            before,
                            structure_view(structure@),
                        );
                    }
                }
            },
            EntryStep::File(MediaOutcome::Unknown(name)) => {
                proof {
                    assert(unknown_name(os, p) == name@);
                }
                notices.push(ScanNotice::UnknownFile(name));
                proof {
                    assert forall|j: int|
                        old(notices)@.len() <= j < notices@.len() implies notice_explained(
                        os,
                        #[trigger] notices@[j],
                    ) by {
                        if j < before_notices.len() {
                            assert(notices@[j] == before_notices[j]);
                        }
                    }
                }
            },
            EntryStep::File(MediaOutcome::NoEpisode(name)) => {
                proof {
                    assert(media_name(os, p) == name@);
                }
                notices.push(ScanNotice::MissingEpisode(name));
                proof {
                    assert forall|j: int|
                        old(notices)@.len() <= j < notices@.len() implies notice_explained(
                        os,
                        #[trigger] notices@[j],
                    ) by {
                        if j < before_notices.len() {
                            assert(notices@[j] == before_notices[j]);
                        }
                    }
                }
            },
            _ => {},
        }
        i = i + 1;
    }
    proof {
        if fs.obeys_fs_spec() {
            assert forall|q: Seq<char>|
                #[trigger] reaches(fs, os, dir@, q, depth_left as nat) implies file_recorded(
                os,
                structure_view(structure@),
                q,
            ) by {
                assert(fs.listing(dir@) == Some(es));
                assert(depth == depth_left as nat && depth > 0);
                assert(reaches(fs, os, dir@, q, depth));
                lemma_reaches_unfold(fs, os, dir@, q, depth, es);
                assert(exists|j: int| 0 <= j < es.len() && #[trigger] entry_leads(fs, os, es[j], q, depth));
                let j = choose|j: int| 0 <= j < es.len() && #[trigger] entry_leads(fs, os, es[j], q, depth);
                assert(entry_leads(fs, os, es[j], q, depth));
            }
        }
    }
    Ok(())
}

/// The outcome of scanning a season folder.
#[derive(Debug)]
pub struct ScanResult {
    pub structure: BTreeMap<u32, EpisodeFiles>,
    pub font_dir: Option<String>,
    pub notices: Vec<ScanNotice>,
}

/// Scans `root` and everything below it, as `read_dir_recursive` does,
/// starting from an empty episode table and no fonts folder.
pub fn scan_dir_with<F: Fs>(fs: &F, os: TargetOs, root: &str) -> (r: Result<ScanResult, ScanError>)
    ensures
        (r matches Err(ScanError::Pattern(_))) <==> !(regex_compiles(marker_pattern())
            && regex_compiles(two_digits_pattern())),
        r matches Ok(s) ==> structure_wf(os, structure_view(s.structure@)) && font_dir_ok(
            os,
            s.font_dir,
        ),
        r matches Ok(s) ==> forall|i: int|
            0 <= i < s.notices@.len() ==> notice_explained(os, #[trigger] s.notices@[i]),
        fs.obeys_fs_spec() ==> (r matches Ok(s) ==> forall|p: Seq<char>|
            #[trigger] reaches(fs, os, root@, p, MAX_SCAN_DEPTH as nat) ==> file_recorded(
                os,
                structure_view(s.structure@),
                p,
            )),
{
    let patterns = match EpisodePatterns::new() {
        Ok(p) => p,
        Err(e) => {
            return Err(ScanError::Pattern(e));
        },
    };
    let mut structure: BTreeMap<u32, EpisodeFiles> = BTreeMap::new();
    let mut font_dir: Option<String> = None;
    let mut notices: Vec<ScanNotice> = Vec::new();
    assert(structure_view(structure@) =~= Map::empty());
    read_dir_recursive(
        fs,
        os,
        &patterns,
        root,
        &mut structure,
        &mut font_dir,
        &mut notices,
        MAX_SCAN_DEPTH,
    )?;
    Ok(ScanResult { structure, font_dir, notices })
}

/// A root-directory argument that passed validation.
#[derive(Debug, PartialEq, Eq)]
pub enum RootDirArg {
    /// `pick`: the folder is to be chosen in a dialog.
    Pick,
    /// An existing directory.
    Dir(String),
}

/// Checks a root-directory argument, given whether that path exists and
/// whether it is a directory: `pick` asks for a dialog; otherwise the path
/// must exist and be a directory, else the message says which check failed.
pub fn validate_root_dir(s: &str, exists: bool, is_dir: bool) -> (r: Result<RootDirArg, String>)
    ensures
        s@ == "pick"@ ==> r == Ok::<RootDirArg, String>(RootDirArg::Pick),
        s@ != "pick"@ && !exists ==> (r matches Err(m) && m@ == "Path does not exist: "@ + s@),
        s@ != "pick"@ && exists && !is_dir ==> (r matches Err(m) && m@ == "Not a directory: "@
            + s@),
        s@ != "pick"@ && exists && is_dir ==> (r matches Ok(RootDirArg::Dir(d)) && d@ == s@),
{
    if crate::text::str_equal(s, "pick") {
        return Ok(RootDirArg::Pick);
    }
    if !exists {
        let mut m = String::from_str("Path does not exist: ");
        m.append(s);
        return Err(m);
    }
    if !is_dir {
        let mut m = String::from_str("Not a directory: ");
        m.append(s);
        return Err(m);
    }
    Ok(RootDirArg::Dir(String::from_str(s)))
}

/// The file name of an episode's launch script: the episode number with at
/// least two digits, a dot, and the script extension.
pub open spec fn script_file_name(os: TargetOs, episode: u32) -> Seq<char> {
    two_digit(episode as nat) + "."@ + script_ext_spec(os)
}

/// Where an episode's launch script goes: directly in the season folder.
pub open spec fn script_path_spec(os: TargetOs, root: Seq<char>, episode: u32) -> Seq<char> {
    join_spec(os, root, script_file_name(os, episode))
}

/// What an episode's launch script holds: the platform header, then the
/// launch command.
pub open spec fn script_contents_spec(os: TargetOs, command: Seq<char>) -> Seq<char> {
    script_header_spec(os) + command
}

/// A script's name is a plain file name.
pub proof fn lemma_script_name_plain(os: TargetOs, episode: u32)
    ensures
        is_plain_name(os, script_file_name(os, episode)),
{
    let t = two_digit(episode as nat);
    lemma_two_digit_digits(episode);
    reveal_strlit(".");
    reveal_strlit("bash");
    reveal_strlit("cmd");
    let n = script_file_name(os, episode);
    let ext = script_ext_spec(os);
    assert(n =~= t + "."@ + ext);
    assert(is_digit(t[0]) && is_digit(t[1]));
    assert(n[0] == t[0] && n[1] == t[1]);
    assert forall|i: int| 0 <= i < n.len() implies !is_separator(os, #[trigger] n[i]) by {
        if i < t.len() {
            assert(n[i] == t[i]);
            assert(is_digit(t[i]));
        } else if i == t.len() {
            assert(n[i] == '.');
        } else {
            assert(n[i] == ext[i - t.len() - 1]);
        }
    }
}

/// One launcher per episode: different episodes get different script paths
/// under the same folder.
pub proof fn lemma_script_paths_distinct(os: TargetOs, root: Seq<char>, a: u32, b: u32)
    requires
        script_path_spec(os, root, a) == script_path_spec(os, root, b),
    ensures
        a == b,
{
    let na = script_file_name(os, a);
    let nb = script_file_name(os, b);
    let ta = two_digit(a as nat);
    let tb = two_digit(b as nat);
    let suffix = "."@ + script_ext_spec(os);
    lemma_two_digit_reads_back(a);
    lemma_two_digit_reads_back(b);
    assert(na =~= ta + suffix);
    assert(nb =~= tb + suffix);
    lemma_script_name_plain(os, a);
    lemma_script_name_plain(os, b);
    lemma_join_plain_name(os, root, na);
    lemma_join_plain_name(os, root, nb);
    let base = join_base(os, root);
    assert(na =~= (base + na).subrange(base.len() as int, (base + na).len() as int));
    assert(nb =~= (base + nb).subrange(base.len() as int, (base + nb).len() as int));
    assert(ta =~= na.subrange(0, na.len() - suffix.len()));
    assert(tb =~= nb.subrange(0, nb.len() - suffix.len()));
    lemma_two_digit_injective(a, b);
}

/// The script for episode `episode` is named by the number itself: its
/// name, up to the dot, reads back as `episode`.
pub proof fn lemma_script_name_reads_back(os: TargetOs, episode: u32)
    ensures
        crate::number::parse_u32_spec(
            script_file_name(os, episode).take(two_digit(episode as nat).len() as int),
        ) == Some(episode),
{
    lemma_two_digit_reads_back(episode);
    assert(script_file_name(os, episode).take(two_digit(episode as nat).len() as int)
        =~= two_digit(episode as nat));
}

/// The path of episode `episode`'s launch script under `root`.
pub fn episode_script_path(os: TargetOs, root: &str, episode: u32) -> (r: String)
    ensures
        r@ == script_path_spec(os, root@, episode),
{
    let mut name = format_two_digit(episode);
    name.append(".");
    name.append(script_ext(os));
    join(os, root, name.as_str())
}

/// The text of a launch script running `command`.
pub fn episode_script_contents(os: TargetOs, command: &str) -> (r: String)
    ensures
        r@ == script_contents_spec(os, command@),
{
    let mut c = String::from_str(script_header(os));
    c.append(command);
    c
}

/// Writes episode `episode`'s launch script for `command` into `root` and
/// makes it executable where that is needed. Whatever the file system
/// answers, a write error is returned as is.
pub fn write_episode_script_with<F: Fs>(
    fs: &F,
    os: TargetOs,
    root: &str,
    episode: u32,
    command: &str,
) -> (r: Result<(), FsError>) {
    let path = episode_script_path(os, root, episode);
    let contents = episode_script_contents(os, command);
    write_script_file_with(fs, os, path.as_str(), contents.as_str())
}

/// Writes `contents` to the launch script at `path` and makes it executable
/// where `os` needs that. Whatever the file system answers, a write error is
/// returned as is.
pub fn write_script_file_with<F: Fs>(fs: &F, os: TargetOs, path: &str, contents: &str) -> (r:
    Result<(), FsError>) {
    fs.write(path, contents.as_bytes())?;
    set_script_permissions_with(os, fs, path)
}

} // verus!
