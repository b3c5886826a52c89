//! Paths as strings: their components, the last component, the extension,
//! and joining, read as `std::path::Path` reads them on each platform.
//!
//! A path is a string of components separated by `/`, and on Windows also by
//! `\`. Empty and `.` components are ignored. A Windows path may begin with a
//! prefix: a drive (`C:`), a UNC share (`\\server\share`), a device
//! (`\\.\COM1`), or a verbatim prefix (`\\?\C:`, `\\?\UNC\server\share`,
//! `\\?\name`); after a verbatim prefix only `\` separates components and
//! `.` components are kept.

use vstd::prelude::*;

use crate::os::TargetOs;
use crate::text::{ascii_lower, lower_char, str_equal, to_chars};

verus! {

/// Whether `c` separates path components on `os`.
pub open spec fn is_separator(os: TargetOs, c: char) -> bool {
    c == '/' || (os == TargetOs::Windows && c == '\\')
}

/// Whether `c` separates components after the prefix: after a verbatim
/// prefix (`verbatim`) only `\` does.
pub open spec fn is_sep_mode(os: TargetOs, verbatim: bool, c: char) -> bool {
    if verbatim {
        c == '\\'
    } else {
        is_separator(os, c)
    }
}

/// The separator that `os` puts between joined components.
pub open spec fn main_separator(os: TargetOs) -> char {
    if os == TargetOs::Windows {
        '\\'
    } else {
        '/'
    }
}

/// The text of the root component on `os`.
pub open spec fn root_text(os: TargetOs) -> Seq<char> {
    seq![main_separator(os)]
}

/// Whether `c` is an ASCII letter.
pub open spec fn is_ascii_letter(c: char) -> bool {
    ('a' <= c && c <= 'z') || ('A' <= c && c <= 'Z')
}

/// Index of the first separator (in the given mode) at or after `i`, or the
/// length of `s` when there is none.
pub open spec fn sep_from(os: TargetOs, verbatim: bool, s: Seq<char>, i: int) -> int
    decreases s.len() - i,
{
    if i >= s.len() {
        s.len() as int
    } else if is_sep_mode(os, verbatim, s[i]) {
        i
    } else {
        sep_from(os, verbatim, s, i + 1)
    }
}

pub proof fn lemma_sep_from_bounds(os: TargetOs, verbatim: bool, s: Seq<char>, i: int)
    requires
        0 <= i,
    ensures
        i <= s.len() ==> i <= sep_from(os, verbatim, s, i) <= s.len(),
        i > s.len() ==> sep_from(os, verbatim, s, i) == s.len(),
        sep_from(os, verbatim, s, i) < s.len() ==> is_sep_mode(
            os,
            verbatim,
            s[sep_from(os, verbatim, s, i)],
        ),
        forall|k: int|
            i <= k < sep_from(os, verbatim, s, i) ==> !is_sep_mode(os, verbatim, #[trigger] s[k]),
    decreases s.len() - i,
{
    if i < s.len() && !is_sep_mode(os, verbatim, s[i]) {
        lemma_sep_from_bounds(os, verbatim, s, i + 1);
    }
}

/// The prefix a path begins with: its length in characters (0 when there is
/// none), whether it is verbatim, and whether it is a bare drive (`C:`).
pub ghost struct PrefixView {
    pub len: int,
    pub verbatim: bool,
    pub disk: bool,
}

pub open spec fn no_prefix() -> PrefixView {
    PrefixView { len: 0, verbatim: false, disk: false }
}

/// `p` begins with `\\?\`.
pub open spec fn starts_verbatim(p: Seq<char>) -> bool {
    p.len() >= 4 && p[0] == '\\' && p[1] == '\\' && p[2] == '?' && p[3] == '\\'
}

/// The prefix of `p`, as `std::path` parses it on `os`: only Windows has
/// prefixes. Its first two characters are looked at with `/` read as `\`.
pub open spec fn prefix_view(os: TargetOs, p: Seq<char>) -> PrefixView {
    if os != TargetOs::Windows {
        no_prefix()
    } else if starts_verbatim(p) {
        if p.len() >= 8 && p[4] == 'U' && p[5] == 'N' && p[6] == 'C' && is_separator(os, p[7]) {
            // `\\?\UNC\server\share`
            let se = sep_from(os, true, p, 8);
            let he = sep_from(os, true, p, se + 1);
            PrefixView {
                len: if se < p.len() && he > se + 1 {
                    he
                } else {
                    se
                },
                verbatim: true,
                disk: false,
            }
        } else if p.len() >= 6 && is_ascii_letter(p[4]) && p[5] == ':' && (p.len() == 6 || p[6]
            == '\\') {
            // `\\?\C:`
            PrefixView { len: 6, verbatim: true, disk: false }
        } else {
            // `\\?\name`
            PrefixView { len: sep_from(os, true, p, 4), verbatim: true, disk: false }
        }
    } else if p.len() >= 2 && is_separator(os, p[0]) && is_separator(os, p[1]) {
        if p.len() >= 4 && p[2] == '.' && is_separator(os, p[3]) {
            // `\\.\device`
            PrefixView { len: sep_from(os, false, p, 4), verbatim: false, disk: false }
        } else {
            // `\\server\share`, both names non-empty
            let se = sep_from(os, false, p, 2);
            let he = sep_from(os, false, p, se + 1);
            if se > 2 && se < p.len() && he > se + 1 {
                PrefixView { len: he, verbatim: false, disk: false }
            } else {
                no_prefix()
            }
        }
    } else if p.len() >= 2 && is_ascii_letter(p[0]) && p[1] == ':' {
        PrefixView { len: 2, verbatim: false, disk: true }
    } else {
        no_prefix()
    }
}

pub proof fn lemma_prefix_bounds(os: TargetOs, p: Seq<char>)
    ensures
        0 <= prefix_view(os, p).len <= p.len(),
        prefix_view(os, p).len == 0 ==> !prefix_view(os, p).verbatim && !prefix_view(
            os,
            p,
        ).disk,
        prefix_view(os, p).verbatim ==> prefix_view(os, p).len >= 4 && !prefix_view(os, p).disk,
        prefix_view(os, p).disk ==> prefix_view(os, p).len == 2,
        prefix_view(os, p).len > 0 ==> os == TargetOs::Windows,
{
    if os == TargetOs::Windows {
        lemma_sep_from_bounds(os, true, p, 8);
        lemma_sep_from_bounds(os, true, p, sep_from(os, true, p, 8) + 1);
        lemma_sep_from_bounds(os, true, p, 4);
        lemma_sep_from_bounds(os, false, p, 4);
        lemma_sep_from_bounds(os, false, p, 2);
        lemma_sep_from_bounds(os, false, p, sep_from(os, false, p, 2) + 1);
    }
}

/// What identifies a prefix when paths are compared, as `std::path` compares
/// parsed prefixes: its kind, a drive letter in either case, and the server,
/// share or name as written. Each kind's text starts with `\` and a letter
/// of its own, so it equals no other component's text.
pub open spec fn prefix_key(os: TargetOs, p: Seq<char>) -> Seq<char> {
    if starts_verbatim(p) {
        if p.len() >= 8 && p[4] == 'U' && p[5] == 'N' && p[6] == 'C' && is_separator(os, p[7]) {
            let se = sep_from(os, true, p, 8);
            let he = sep_from(os, true, p, se + 1);
            let share = if se < p.len() && he > se + 1 {
                p.subrange(se + 1, he)
            } else {
                seq![]
            };
            seq!['\\', 'u'] + p.subrange(8, se) + seq!['\\'] + share
        } else if p.len() >= 6 && is_ascii_letter(p[4]) && p[5] == ':' && (p.len() == 6 || p[6]
            == '\\') {
            seq!['\\', 'V', ascii_lower(p[4])]
        } else {
            seq!['\\', 'v'] + p.subrange(4, sep_from(os, true, p, 4))
        }
    } else if p.len() >= 2 && is_separator(os, p[0]) && is_separator(os, p[1]) {
        if p.len() >= 4 && p[2] == '.' && is_separator(os, p[3]) {
            seq!['\\', 'd'] + p.subrange(4, sep_from(os, false, p, 4))
        } else {
            let se = sep_from(os, false, p, 2);
            let he = sep_from(os, false, p, se + 1);
            seq!['\\', 'n'] + p.subrange(2, se) + seq!['\\'] + p.subrange(se + 1, he)
        }
    } else {
        seq!['\\', 'D', ascii_lower(p[0])]
    }
}

/// The components of `p` as they are compared: as their text, but the
/// prefix by its `prefix_key`.
pub open spec fn components_key(os: TargetOs, p: Seq<char>) -> Seq<Seq<char>> {
    if prefix_view(os, p).len > 0 {
        components_spec(os, p).update(0, prefix_key(os, p))
    } else {
        components_spec(os, p)
    }
}

/// Index where the component that ends at `end` begins: one past the last
/// separator before `end`, or 0.
pub open spec fn component_start(os: TargetOs, verbatim: bool, s: Seq<char>, end: int) -> int
    decreases end,
{
    if end <= 0 {
        0
    } else if is_sep_mode(os, verbatim, s[end - 1]) {
        end
    } else {
        component_start(os, verbatim, s, end - 1)
    }
}

pub proof fn lemma_component_start_bounds(os: TargetOs, verbatim: bool, s: Seq<char>, end: int)
    ensures
        end <= 0 ==> component_start(os, verbatim, s, end) == 0,
        end > 0 ==> 0 <= component_start(os, verbatim, s, end) <= end,
        end > 0 && !is_sep_mode(os, verbatim, s[end - 1]) ==> component_start(
            os,
            verbatim,
            s,
            end,
        ) < end,
        forall|k: int|
            component_start(os, verbatim, s, end) <= k < end ==> !is_sep_mode(
                os,
                verbatim,
                #[trigger] s[k],
            ),
        component_start(os, verbatim, s, end) > 0 ==> is_sep_mode(
            os,
            verbatim,
            s[component_start(os, verbatim, s, end) - 1],
        ),
    decreases end,
{
    if end > 0 && !is_sep_mode(os, verbatim, s[end - 1]) {
        lemma_component_start_bounds(os, verbatim, s, end - 1);
    }
}

/// The components among the first `end` characters of `s`, in order,
/// skipping empty ones and, unless `verbatim`, `.` ones; `..` is kept.
pub open spec fn components_upto(os: TargetOs, verbatim: bool, s: Seq<char>, end: int) -> Seq<
    Seq<char>,
>
    decreases end,
{
    if end <= 0 {
        seq![]
    } else if is_sep_mode(os, verbatim, s[end - 1]) {
        components_upto(os, verbatim, s, end - 1)
    } else {
        let st = component_start(os, verbatim, s, end);
        let c = s.subrange(st, end);
        proof {
            lemma_component_start_bounds(os, verbatim, s, end);
        }
        if c == seq!['.'] && !verbatim {
            components_upto(os, verbatim, s, st)
        } else {
            components_upto(os, verbatim, s, st).push(c)
        }
    }
}

/// `p` starts with a separator.
pub open spec fn starts_rooted(os: TargetOs, p: Seq<char>) -> bool {
    p.len() > 0 && is_separator(os, p[0])
}

/// `p` starts with a `.` component.
pub open spec fn starts_with_cur_dir(os: TargetOs, p: Seq<char>) -> bool {
    &&& !starts_rooted(os, p)
    &&& p.len() > 0 && p[0] == '.'
    &&& (p.len() == 1 || is_separator(os, p[1]))
}

/// The components that come before the named ones: the prefix as written;
/// the root, when the path has one after its prefix or its prefix implies
/// one (a UNC share or a device); or, with no prefix, a leading `.`.
pub open spec fn head_components(os: TargetOs, p: Seq<char>) -> Seq<Seq<char>> {
    let pv = prefix_view(os, p);
    let rest = p.skip(pv.len);
    let pre: Seq<Seq<char>> = if pv.len > 0 {
        seq![p.take(pv.len)]
    } else {
        seq![]
    };
    let root: Seq<Seq<char>> = if starts_rooted(os, rest) {
        seq![root_text(os)]
    } else if pv.len > 0 && !pv.disk && !pv.verbatim {
        seq![root_text(os)]
    } else if pv.len == 0 && starts_with_cur_dir(os, rest) {
        seq![seq!['.']]
    } else {
        seq![]
    };
    pre + root
}

/// The components of `p` as `Path::components` gives them, each as text.
pub open spec fn components_spec(os: TargetOs, p: Seq<char>) -> Seq<Seq<char>> {
    let pv = prefix_view(os, p);
    let rest = p.skip(pv.len);
    head_components(os, p) + components_upto(os, pv.verbatim, rest, rest.len() as int)
}

/// The final component of path `p`, as `Path::file_name` gives it: the last
/// component, when it is a named one and not `..`.
pub open spec fn file_name_spec(os: TargetOs, p: Seq<char>) -> Option<Seq<char>> {
    let c = components_spec(os, p);
    let h = head_components(os, p).len();
    if c.len() > h && c.last() != seq!['.'] && c.last() != seq!['.', '.'] {
        Some(c.last())
    } else {
        None
    }
}

/// Index of the last `c` among the first `end` characters of `s`, or -1.
pub open spec fn last_index_of(s: Seq<char>, c: char, end: int) -> int
    decreases end,
{
    if end <= 0 {
        -1
    } else if s[end - 1] == c {
        end - 1
    } else {
        last_index_of(s, c, end - 1)
    }
}

/// The extension of a file name: the text after its last `.`, unless that dot
/// is the first character (as in `.hidden`) or there is none.
pub open spec fn name_extension(name: Seq<char>) -> Option<Seq<char>> {
    let k = last_index_of(name, '.', name.len() as int);
    if k <= 0 {
        None
    } else {
        Some(name.subrange(k + 1, name.len() as int))
    }
}

/// The extension of path `p`, as `Path::extension` gives it.
pub open spec fn extension_spec(os: TargetOs, p: Seq<char>) -> Option<Seq<char>> {
    match file_name_spec(os, p) {
        Some(name) => name_extension(name),
        None => None,
    }
}

/// Whether component text `c` names a file or folder (it is not the root,
/// `.` or `..`).
pub open spec fn is_named(os: TargetOs, c: Seq<char>) -> bool {
    c != root_text(os) && c != seq!['.'] && c != seq!['.', '.']
}

/// One component of the joined path added to the components `buf` of a
/// verbatim path: the root keeps only the prefix, `.` is dropped, `..` drops
/// a last named component.
pub open spec fn push_component(os: TargetOs, buf: Seq<Seq<char>>, c: Seq<char>) -> Seq<
    Seq<char>,
> {
    if c == root_text(os) {
        (if buf.len() > 0 {
            buf.take(1)
        } else {
            buf
        }).push(c)
    } else if c == seq!['.'] {
        buf
    } else if c == seq!['.', '.'] {
        if buf.len() > 1 && is_named(os, buf.last()) {
            buf.drop_last()
        } else {
            buf
        }
    } else {
        buf.push(c)
    }
}

/// `buf` with every component of `cs` added in order.
pub open spec fn push_components(os: TargetOs, buf: Seq<Seq<char>>, cs: Seq<Seq<char>>) -> Seq<
    Seq<char>,
>
    decreases cs.len(),
{
    if cs.len() == 0 {
        buf
    } else {
        push_component(os, push_components(os, buf, cs.drop_last()), cs.last())
    }
}

/// The text of a verbatim path's components: a separator between two of
/// them unless one is the root.
pub open spec fn render_components(os: TargetOs, buf: Seq<Seq<char>>) -> Seq<char>
    decreases buf.len(),
{
    if buf.len() == 0 {
        seq![]
    } else if buf.len() == 1 {
        buf[0]
    } else {
        let prev = render_components(os, buf.drop_last());
        if buf[buf.len() - 2] != root_text(os) && buf.last() != root_text(os) {
            prev + root_text(os) + buf.last()
        } else {
            prev + buf.last()
        }
    }
}

/// `dir` joined with `name`, as `Path::join` does: a `name` that is
/// absolute or has a prefix replaces `dir`; after a verbatim `dir` the
/// components of `name` are added one by one; a rooted `name` keeps only
/// `dir`'s prefix; otherwise one separator is put between them unless `dir`
/// is empty, already ends in one, or is a bare drive.
pub open spec fn join_spec(os: TargetOs, dir: Seq<char>, name: Seq<char>) -> Seq<char> {
    let dv = prefix_view(os, dir);
    if prefix_view(os, name).len > 0 || (os != TargetOs::Windows && starts_rooted(os, name)) {
        name
    } else if dv.verbatim && name.len() > 0 {
        render_components(os, push_components(os, components_spec(os, dir), components_spec(os, name)))
    } else if starts_rooted(os, name) {
        dir.take(dv.len) + name
    } else if dir.len() > 0 && !is_separator(os, dir.last()) && !(dv.disk && dv.len == dir.len()) {
        dir.push(main_separator(os)) + name
    } else {
        dir + name
    }
}

pub fn is_separator_char(os: TargetOs, c: char) -> (r: bool)
    ensures
        r == is_separator(os, c),
{
    c == '/' || (os == TargetOs::Windows && c == '\\')
}

fn is_sep_mode_char(os: TargetOs, verbatim: bool, c: char) -> (r: bool)
    ensures
        r == is_sep_mode(os, verbatim, c),
{
    if verbatim {
        c == '\\'
    } else {
        is_separator_char(os, c)
    }
}

fn is_ascii_letter_char(c: char) -> (r: bool)
    ensures
        r == is_ascii_letter(c),
{
    ('a' <= c && c <= 'z') || ('A' <= c && c <= 'Z')
}

/// Index of the first separator at or after `i`.
fn sep_from_exec(os: TargetOs, verbatim: bool, v: &Vec<char>, i: usize) -> (r: usize)
    ensures
        r == sep_from(os, verbatim, v@, i as int),
{
    proof {
        lemma_sep_from_bounds(os, verbatim, v@, i as int);
    }
    if i >= v.len() {
        return v.len();
    }
    let mut k: usize = i;
    while k < v.len() && !is_sep_mode_char(os, verbatim, v[k])
        invariant
            i <= k <= v.len(),
            sep_from(os, verbatim, v@, k as int) == sep_from(os, verbatim, v@, i as int),
        decreases v.len() - k,
    {
        k = k + 1;
    }
    k
}

/// The prefix of the path with characters `v`: its length, whether it is
/// verbatim, and whether it is a bare drive.
fn prefix_of(os: TargetOs, v: &Vec<char>) -> (r: (usize, bool, bool))
    ensures
        r.0 == prefix_view(os, v@).len,
        r.1 == prefix_view(os, v@).verbatim,
        r.2 == prefix_view(os, v@).disk,
{
    proof {
        lemma_prefix_bounds(os, v@);
    }
    if os != TargetOs::Windows {
        return (0, false, false);
    }
    let n = v.len();
    if n >= 4 && v[0] == '\\' && v[1] == '\\' && v[2] == '?' && v[3] == '\\' {
        if n >= 8 && v[4] == 'U' && v[5] == 'N' && v[6] == 'C' && is_separator_char(os, v[7]) {
            let se = sep_from_exec(os, true, v, 8);
            proof {
                lemma_sep_from_bounds(os, true, v@, 8);
            }
            let he = if se < n {
                sep_from_exec(os, true, v, se + 1)
            } else {
                proof {
                    lemma_sep_from_bounds(os, true, v@, se + 1);
                }
                n
            };
            if se < n && he > se + 1 {
                (he, true, false)
            } else {
                (se, true, false)
            }
        } else if n >= 6 && is_ascii_letter_char(v[4]) && v[5] == ':' && (n == 6 || v[6] == '\\') {
            (6, true, false)
        } else {
            (sep_from_exec(os, true, v, 4), true, false)
        }
    } else if n >= 2 && is_separator_char(os, v[0]) && is_separator_char(os, v[1]) {
        if n >= 4 && v[2] == '.' && is_separator_char(os, v[3]) {
            (sep_from_exec(os, false, v, 4), false, false)
        } else {
            let se = sep_from_exec(os, false, v, 2);
            proof {
                lemma_sep_from_bounds(os, false, v@, 2);
            }
            let he = if se < n {
                sep_from_exec(os, false, v, se + 1)
            } else {
                proof {
                    lemma_sep_from_bounds(os, false, v@, se + 1);
                }
                n
            };
            if se > 2 && se < n && he > se + 1 {
                (he, false, false)
            } else {
                (0, false, false)
            }
        }
    } else if n >= 2 && is_ascii_letter_char(v[0]) && v[1] == ':' {
        (2, false, true)
    } else {
        (0, false, false)
    }
}

/// Index of the last `c` among the first `end` characters of `v`.
pub fn last_index(v: &Vec<char>, c: char, end: usize) -> (r: Option<usize>)
    requires
        end <= v.len(),
    ensures
        match r {
            Some(k) => k == last_index_of(v@, c, end as int),
            None => last_index_of(v@, c, end as int) == -1,
        },
{
    let mut i: usize = end;
    while i > 0
        invariant
            i <= end <= v.len(),
            last_index_of(v@, c, end as int) == last_index_of(v@, c, i as int),
        decreases i,
    {
        if v[i - 1] == c {
            return Some(i - 1);
        }
        i = i - 1;
    }
    None
}

proof fn lemma_last_index_bounds(s: Seq<char>, c: char, end: int)
    requires
        0 <= end <= s.len(),
    ensures
        -1 <= last_index_of(s, c, end) < end,
    decreases end,
{
    if end > 0 && s[end - 1] != c {
        lemma_last_index_bounds(s, c, end - 1);
    }
}

/// The separator that `os` puts between joined components, as a string.
pub fn separator_str(os: TargetOs) -> (r: &'static str)
    ensures
        r@ == root_text(os),
{
    if os == TargetOs::Windows {
        proof {
            reveal_strlit("\\");
        }
        "\\"
    } else {
        proof {
            reveal_strlit("/");
        }
        "/"
    }
}

/// The components of `p`, as `Path::components` gives them, and how many of
/// them come before the named ones.
fn components_with_head(os: TargetOs, p: &str) -> (r: (Vec<String>, usize))
    ensures
        r.0@.map_values(|c: String| c@) == components_spec(os, p@),
        r.1 == head_components(os, p@).len(),
{
    let v = to_chars(p);
    let (pl, verbatim, disk) = prefix_of(os, &v);
    proof {
        lemma_prefix_bounds(os, p@);
    }
    let n = v.len();
    let rest = p.substring_char(pl, n);
    let rv = to_chars(rest);
    proof {
        assert(p@.subrange(pl as int, n as int) =~= p@.skip(pl as int));
    }
    let ghost restv = p@.skip(pl as int);
    assert(rv@ == restv);
    let ghost pre: Seq<Seq<char>> = if pl > 0 {
        seq![p@.take(pl as int)]
    } else {
        seq![]
    };
    let ghost root: Seq<Seq<char>> = if starts_rooted(os, restv) {
        seq![root_text(os)]
    } else if pl > 0 && !disk && !verbatim {
        seq![root_text(os)]
    } else if pl == 0 && starts_with_cur_dir(os, restv) {
        seq![seq!['.']]
    } else {
        seq![]
    };
    assert(head_components(os, p@) == pre + root);
    let mut r: Vec<String> = Vec::new();
    if pl > 0 {
        let t = String::from_str(p.substring_char(0, pl));
        assert(p@.subrange(0, pl as int) =~= p@.take(pl as int));
        r.push(t);
    }
    assert(r@.map_values(|c: String| c@) =~= pre);
    let ghost before = r@.map_values(|c: String| c@);
    if rv.len() > 0 && is_separator_char(os, rv[0]) {
        r.push(String::from_str(separator_str(os)));
        assert(r@.map_values(|c: String| c@) =~= before.push(root_text(os)));
    } else if pl > 0 && !disk && !verbatim {
        r.push(String::from_str(separator_str(os)));
        assert(r@.map_values(|c: String| c@) =~= before.push(root_text(os)));
    } else if pl == 0 && rv.len() > 0 && rv[0] == '.' && (rv.len() == 1 || is_separator_char(
        os,
        rv[1],
    )) {
        proof {
            reveal_strlit(".");
        }
        r.push(String::from_str("."));
        assert("."@ =~= seq!['.']);
        assert(r@.map_values(|c: String| c@) =~= before.push(seq!['.']));
    }
    assert(r@.map_values(|c: String| c@) =~= head_components(os, p@));
    let h = r.len();
    let body = body_components(os, verbatim, rest);
    let ghost first = r@.map_values(|c: String| c@);
    let ghost second = body@.map_values(|c: String| c@);
    let mut body = body;
    r.append(&mut body);
    assert(r@.map_values(|c: String| c@) =~= first + second);
    (r, h)
}

/// `out` followed by the characters of `v` from `a` up to `b`.
fn push_range(out: &mut Vec<char>, v: &Vec<char>, a: usize, b: usize)
    requires
        a <= b <= v.len(),
    ensures
        final(out)@ == old(out)@ + v@.subrange(a as int, b as int),
{
    let ghost start = out@;
    let mut i: usize = a;
    while i < b
        invariant
            a <= i <= b <= v.len(),
            out@ == start + v@.subrange(a as int, i as int),
        decreases b - i,
    {
        out.push(v[i]);
        assert(v@.subrange(a as int, i + 1) =~= v@.subrange(a as int, i as int).push(v@[i as int]));
        i = i + 1;
    }
}

/// The key of the prefix that the path with characters `v` begins with.
fn prefix_key_chars(os: TargetOs, v: &Vec<char>) -> (r: Vec<char>)
    requires
        prefix_view(os, v@).len > 0,
    ensures
        r@ == prefix_key(os, v@),
{
    proof {
        lemma_prefix_bounds(os, v@);
    }
    let n = v.len();
    let mut r: Vec<char> = Vec::new();
    r.push('\\');
    if n >= 4 && v[0] == '\\' && v[1] == '\\' && v[2] == '?' && v[3] == '\\' {
        if n >= 8 && v[4] == 'U' && v[5] == 'N' && v[6] == 'C' && is_separator_char(os, v[7]) {
            let se = sep_from_exec(os, true, v, 8);
            proof {
                lemma_sep_from_bounds(os, true, v@, 8);
            }
            let he = if se < n {
                sep_from_exec(os, true, v, se + 1)
            } else {
                proof {
                    lemma_sep_from_bounds(os, true, v@, se + 1);
                }
                n
            };
            proof {
                if se < n {
                    lemma_sep_from_bounds(os, true, v@, se + 1);
                }
            }
            r.push('u');
            push_range(&mut r, v, 8, se);
            r.push('\\');
            if se < n && he > se + 1 {
                push_range(&mut r, v, se + 1, he);
            }
            assert(r@ =~= prefix_key(os, v@));
        } else if n >= 6 && is_ascii_letter_char(v[4]) && v[5] == ':' && (n == 6 || v[6] == '\\') {
            r.push('V');
            r.push(lower_char(v[4]));
            assert(r@ =~= prefix_key(os, v@));
        } else {
            let e = sep_from_exec(os, true, v, 4);
            proof {
                lemma_sep_from_bounds(os, true, v@, 4);
            }
            r.push('v');
            push_range(&mut r, v, 4, e);
            assert(r@ =~= prefix_key(os, v@));
        }
    } else if n >= 2 && is_separator_char(os, v[0]) && is_separator_char(os, v[1]) {
        if n >= 4 && v[2] == '.' && is_separator_char(os, v[3]) {
            let e = sep_from_exec(os, false, v, 4);
            proof {
                lemma_sep_from_bounds(os, false, v@, 4);
            }
            r.push('d');
            push_range(&mut r, v, 4, e);
            assert(r@ =~= prefix_key(os, v@));
        } else {
            let se = sep_from_exec(os, false, v, 2);
            proof {
                lemma_sep_from_bounds(os, false, v@, 2);
            }
            let he = if se < n {
                sep_from_exec(os, false, v, se + 1)
            } else {
                proof {
                    lemma_sep_from_bounds(os, false, v@, se + 1);
                }
                n
            };
            proof {
                if se < n {
                    lemma_sep_from_bounds(os, false, v@, se + 1);
                }
            }
            r.push('n');
            push_range(&mut r, v, 2, se);
            r.push('\\');
            if se < n {
                push_range(&mut r, v, se + 1, he);
            }
            assert(r@ =~= prefix_key(os, v@));
        }
    } else {
        r.push('D');
        r.push(lower_char(v[0]));
        assert(r@ =~= prefix_key(os, v@));
    }
    r
}

/// The components of `p` as they are compared, as `components_key` says,
/// each as its characters.
pub fn path_component_keys(os: TargetOs, p: &str) -> (r: Vec<Vec<char>>)
    ensures
        r@.map_values(|c: Vec<char>| c@) == components_key(os, p@),
{
    let comps = path_components(os, p);
    let ghost cv = comps@.map_values(|c: String| c@);
    let v = to_chars(p);
    let (pl, _, _) = prefix_of(os, &v);
    proof {
        lemma_prefix_bounds(os, p@);
        if pl > 0 {
            assert(head_components(os, p@).len() >= 1);
        }
    }
    let ghost target = components_key(os, p@);
    let mut r: Vec<Vec<char>> = Vec::new();
    let mut i: usize = 0;
    while i < comps.len()
        invariant
            i <= comps.len(),
            v@ == p@,
            cv == comps@.map_values(|c: String| c@),
            cv == components_spec(os, p@),
            pl == prefix_view(os, p@).len,
            pl > 0 ==> cv.len() >= 1,
            target == components_key(os, p@),
            target.len() == cv.len(),
            r@.map_values(|c: Vec<char>| c@) == target.take(i as int),
        decreases comps.len() - i,
    {
        let c = if i == 0 && pl > 0 {
            prefix_key_chars(os, &v)
        } else {
            to_chars(comps[i].as_str())
        };
        assert(c@ == target[i as int]);
        let ghost before = r@.map_values(|c: Vec<char>| c@);
        r.push(c);
        assert(r@.map_values(|c: Vec<char>| c@) =~= before.push(target[i as int]));
        assert(target.take(i + 1) =~= target.take(i as int).push(target[i as int]));
        i = i + 1;
    }
    assert(target.take(comps.len() as int) =~= target);
    r
}

/// The components of `p`, as `Path::components` gives them.
pub fn path_components(os: TargetOs, p: &str) -> (r: Vec<String>)
    ensures
        r@.map_values(|c: String| c@) == components_spec(os, p@),
{
    let (r, _) = components_with_head(os, p);
    r
}

/// The components of `p` after any prefix and root, separated in the given
/// mode.
fn body_components(os: TargetOs, verbatim: bool, p: &str) -> (r: Vec<String>)
    ensures
        r@.map_values(|c: String| c@) == components_upto(os, verbatim, p@, p@.len() as int),
{
    let v = to_chars(p);
    let ghost s = v@;
    // Component bounds, collected from the last component to the first.
    let mut rev: Vec<(usize, usize)> = Vec::new();
    let ghost mut tail: Seq<Seq<char>> = seq![];
    let mut end: usize = v.len();
    while end > 0
        invariant
            end <= v.len(),
            s == v@,
            components_upto(os, verbatim, s, s.len() as int) == components_upto(
                os,
                verbatim,
                s,
                end as int,
            ) + tail,
            tail.len() == rev@.len(),
            forall|j: int|
                0 <= j < rev@.len() ==> {
                    let (a, b) = #[trigger] rev@[j];
                    &&& a <= b <= v.len()
                    &&& tail[tail.len() - 1 - j] == s.subrange(a as int, b as int)
                },
        decreases end,
    {
        if is_sep_mode_char(os, verbatim, v[end - 1]) {
            end = end - 1;
        } else {
            let mut st: usize = end;
            while st > 0 && !is_sep_mode_char(os, verbatim, v[st - 1])
                invariant
                    st <= end <= v.len(),
                    end > 0,
                    !is_sep_mode(os, verbatim, v@[end - 1]),
                    component_start(os, verbatim, v@, end as int) == component_start(
                        os,
                        verbatim,
                        v@,
                        st as int,
                    ),
                decreases st,
            {
                st = st - 1;
            }
            assert(component_start(os, verbatim, v@, end as int) == st);
            proof {
                lemma_component_start_bounds(os, verbatim, v@, end as int);
            }
            let ghost c = s.subrange(st as int, end as int);
            if end - st == 1 && v[st] == '.' && !verbatim {
                assert(c =~= seq!['.']);
            } else {
                proof {
                    if c == seq!['.'] {
                        assert(c.len() == 1 && c[0] == '.');
                    }
                    let old_tail = tail;
                    tail = seq![c] + tail;
                    assert(components_upto(os, verbatim, s, end as int) =~= components_upto(
                        os,
                        verbatim,
                        s,
                        st as int,
                    ).push(c));
                    assert(components_upto(os, verbatim, s, st as int).push(c) + old_tail
                        =~= components_upto(os, verbatim, s, st as int) + tail);
                }
                rev.push((st, end));
            }
            end = st;
        }
    }
    let mut r: Vec<String> = Vec::new();
    assert(components_upto(os, verbatim, s, 0) =~= seq![]);
    assert(r@.map_values(|c: String| c@) =~= tail.take(0));
    let mut k: usize = rev.len();
    while k > 0
        invariant
            k <= rev@.len(),
            s == v@,
            s == p@,
            tail.len() == rev@.len(),
            forall|j: int|
                0 <= j < rev@.len() ==> {
                    let (a, b) = #[trigger] rev@[j];
                    &&& a <= b <= v.len()
                    &&& tail[tail.len() - 1 - j] == s.subrange(a as int, b as int)
                },
            r@.map_values(|c: String| c@) == tail.take(rev@.len() - k),
        decreases k,
    {
        let (a, b) = rev[k - 1];
        let c = String::from_str(p.substring_char(a, b));
        let ghost before = r@.map_values(|c: String| c@);
        r.push(c);
        proof {
            assert(tail.take(rev@.len() - k + 1) =~= tail.take(rev@.len() - k).push(
                tail[rev@.len() - k],
            ));
            assert(r@.map_values(|c: String| c@) =~= before.push(c@));
        }
        k = k - 1;
    }
    assert(tail.take(rev@.len() as int) =~= tail);
    r
}

/// The final component of `p`, or `None` when it is not a named one.
pub fn file_name(os: TargetOs, p: &str) -> (r: Option<String>)
    ensures
        match r {
            Some(n) => file_name_spec(os, p@) == Some(n@),
            None => file_name_spec(os, p@) is None,
        },
{
    let (c, h) = components_with_head(os, p);
    let ghost cv = c@.map_values(|x: String| x@);
    if c.len() > h {
        let last = &c[c.len() - 1];
        assert(cv.last() == last@);
        proof {
            reveal_strlit(".");
            reveal_strlit("..");
            assert("."@ =~= seq!['.']);
            assert(".."@ =~= seq!['.', '.']);
        }
        if str_equal(last.as_str(), ".") || str_equal(last.as_str(), "..") {
            None
        } else {
            let n = last.clone();
            assert(n@ == cv.last());
            Some(n)
        }
    } else {
        None
    }
}

/// The extension of `p`, or `None` when its file name has none.
pub fn extension(os: TargetOs, p: &str) -> (r: Option<String>)
    ensures
        match r {
            Some(e) => extension_spec(os, p@) == Some(e@),
            None => extension_spec(os, p@) is None,
        },
{
    match file_name(os, p) {
        None => None,
        Some(name) => {
            let v = to_chars(name.as_str());
            let k = last_index(&v, '.', v.len());
            proof {
                lemma_last_index_bounds(v@, '.', v@.len() as int);
            }
            match k {
                Some(k) => {
                    if k == 0 {
                        None
                    } else {
                        Some(String::from_str(name.as_str().substring_char(k + 1, v.len())))
                    }
                },
                None => None,
            }
        },
    }
}

/// The text of the components in `buf`, as `render_components` says.
fn render(os: TargetOs, buf: &Vec<String>) -> (r: String)
    ensures
        r@ == render_components(os, buf@.map_values(|c: String| c@)),
{
    let ghost b = buf@.map_values(|c: String| c@);
    let mut r = String::new();
    if buf.len() == 0 {
        return r;
    }
    r.append(buf[0].as_str());
    assert(b.take(1) =~= seq![b[0]]);
    let sep = separator_str(os);
    let mut i: usize = 1;
    while i < buf.len()
        invariant
            1 <= i <= buf.len(),
            b == buf@.map_values(|c: String| c@),
            sep@ == root_text(os),
            r@ == render_components(os, b.take(i as int)),
        decreases buf.len() - i,
    {
        let prev_root = str_equal(buf[i - 1].as_str(), sep);
        let cur_root = str_equal(buf[i].as_str(), sep);
        proof {
            let t = b.take(i + 1);
            assert(t.drop_last() =~= b.take(i as int));
            assert(t[t.len() - 2] == b[i - 1]);
            assert(t.last() == b[i as int]);
        }
        if !prev_root && !cur_root {
            r.append(sep);
        }
        r.append(buf[i].as_str());
        i = i + 1;
    }
    assert(b.take(buf.len() as int) =~= b);
    r
}

/// Adds `c` to the components of a verbatim path, as `push_component` says.
fn push_one(os: TargetOs, buf: &mut Vec<String>, c: String)
    ensures
        final(buf)@.map_values(|x: String| x@) == push_component(
            os,
            old(buf)@.map_values(|x: String| x@),
            c@,
        ),
{
    let ghost b = buf@.map_values(|x: String| x@);
    let sep = separator_str(os);
    proof {
        reveal_strlit(".");
        reveal_strlit("..");
    }
    if str_equal(c.as_str(), sep) {
        let ghost t = if b.len() > 0 {
            b.take(1)
        } else {
            b
        };
        buf.truncate(1);
        assert(buf@.map_values(|x: String| x@) =~= t);
        buf.push(c);
        assert(buf@.map_values(|x: String| x@) =~= t.push(c@));
    } else if str_equal(c.as_str(), ".") {
        assert("."@ =~= seq!['.']);
    } else if str_equal(c.as_str(), "..") {
        assert(".."@ =~= seq!['.', '.']);
        if buf.len() > 1 {
            let l = buf.len() - 1;
            let named = !str_equal(buf[l].as_str(), sep) && !str_equal(buf[l].as_str(), ".")
                && !str_equal(buf[l].as_str(), "..");
            assert("."@ =~= seq!['.']);
            assert(b.last() == buf@[l as int]@);
            if named {
                buf.pop();
                assert(buf@.map_values(|x: String| x@) =~= b.drop_last());
            }
        }
    } else {
        assert("."@ =~= seq!['.']);
        assert(".."@ =~= seq!['.', '.']);
        buf.push(c);
        assert(buf@.map_values(|x: String| x@) =~= b.push(c@));
    }
}

/// `dir` joined with `name`, as `Path::join` does.
pub fn join(os: TargetOs, dir: &str, name: &str) -> (r: String)
    ensures
        r@ == join_spec(os, dir@, name@),
{
    let dv = to_chars(dir);
    let nv = to_chars(name);
    let (dpl, dverbatim, ddisk) = prefix_of(os, &dv);
    let (npl, _, _) = prefix_of(os, &nv);
    proof {
        lemma_prefix_bounds(os, dir@);
    }
    let name_rooted = nv.len() > 0 && is_separator_char(os, nv[0]);
    if npl > 0 || (os != TargetOs::Windows && name_rooted) {
        return String::from_str(name);
    }
    if dverbatim && nv.len() > 0 {
        return join_verbatim(os, dir, name);
    }
    if name_rooted {
        let mut r = String::from_str(dir.substring_char(0, dpl));
        r.append(name);
        assert(dir@.subrange(0, dpl as int) =~= dir@.take(dpl as int));
        return r;
    }
    let mut r = String::from_str(dir);
    if dv.len() > 0 && !is_separator_char(os, dv[dv.len() - 1]) && !(ddisk && dpl == dv.len()) {
        r.append(separator_str(os));
    }
    r.append(name);
    r
}

/// `name`'s components added one by one to those of `dir`, as text.
fn join_verbatim(os: TargetOs, dir: &str, name: &str) -> (r: String)
    ensures
        r@ == render_components(
            os,
            push_components(os, components_spec(os, dir@), components_spec(os, name@)),
        ),
{
    {
        let mut buf = path_components(os, dir);
        let cs = path_components(os, name);
        let ghost start = buf@.map_values(|x: String| x@);
        let ghost csv = cs@.map_values(|x: String| x@);
        let mut i: usize = 0;
        assert(csv.take(0) =~= seq![]);
        while i < cs.len()
            invariant
                i <= cs.len(),
                csv == cs@.map_values(|x: String| x@),
                buf@.map_values(|x: String| x@) == push_components(os, start, csv.take(i as int)),
            decreases cs.len() - i,
        {
            proof {
                assert(csv.take(i + 1).drop_last() =~= csv.take(i as int));
                assert(csv.take(i + 1).last() == cs@[i as int]@);
            }
            push_one(os, &mut buf, cs[i].clone());
            i = i + 1;
        }
        assert(csv.take(cs.len() as int) =~= csv);
        render(os, &buf)
    }
}

/// A plain file name: not empty, without separators, not starting with `.`,
/// and with no `:` as its second character (so not a drive).
pub open spec fn is_plain_name(os: TargetOs, name: Seq<char>) -> bool {
    &&& name.len() > 0
    &&& name[0] != '.'
    &&& forall|i: int| 0 <= i < name.len() ==> !is_separator(os, #[trigger] name[i])
    &&& !(name.len() >= 2 && name[1] == ':')
}

/// What joining a plain file name onto `dir` puts before the name.
pub open spec fn join_base(os: TargetOs, dir: Seq<char>) -> Seq<char> {
    let dv = prefix_view(os, dir);
    if dv.verbatim {
        let b = components_spec(os, dir);
        if b.last() != root_text(os) {
            render_components(os, b) + root_text(os)
        } else {
            render_components(os, b)
        }
    } else if dir.len() > 0 && !is_separator(os, dir.last()) && !(dv.disk && dv.len == dir.len()) {
        dir.push(main_separator(os))
    } else {
        dir
    }
}

proof fn lemma_component_start_no_sep(os: TargetOs, verbatim: bool, s: Seq<char>, end: int)
    requires
        end <= s.len(),
        forall|k: int| 0 <= k < end ==> !is_sep_mode(os, verbatim, #[trigger] s[k]),
    ensures
        component_start(os, verbatim, s, end) == 0,
    decreases end,
{
    if end > 0 {
        lemma_component_start_no_sep(os, verbatim, s, end - 1);
    }
}

/// A plain file name is a single named component.
pub proof fn lemma_plain_name_components(os: TargetOs, name: Seq<char>)
    requires
        is_plain_name(os, name),
    ensures
        prefix_view(os, name).len == 0,
        !starts_rooted(os, name),
        components_spec(os, name) == seq![name],
{
    assert(name.skip(0) =~= name);
    assert(!is_separator(os, name[0]));
    assert(!is_separator(os, name[name.len() - 1]));
    lemma_component_start_no_sep(os, false, name, name.len() as int);
    assert(name.subrange(0, name.len() as int) =~= name);
    assert(name != seq!['.']) by {
        if name == seq!['.'] {
            assert(name[0] == '.');
        }
    }
    assert(components_upto(os, false, name, 0) =~= seq![]);
    assert(components_upto(os, false, name, name.len() as int) =~= seq![name]);
    assert(head_components(os, name) =~= seq![]);
}

/// Joining a plain file name onto `dir` puts the name after a text that
/// depends on `dir` alone.
pub proof fn lemma_join_plain_name(os: TargetOs, dir: Seq<char>, name: Seq<char>)
    requires
        is_plain_name(os, name),
    ensures
        join_spec(os, dir, name) == join_base(os, dir) + name,
{
    lemma_plain_name_components(os, name);
    lemma_prefix_bounds(os, dir);
    let dv = prefix_view(os, dir);
    if dv.verbatim {
        let b = components_spec(os, dir);
        assert(head_components(os, dir).len() >= 1);
        assert(b.len() >= 1);
        assert(name != root_text(os)) by {
            if name == root_text(os) {
                assert(name[0] == main_separator(os));
            }
        }
        assert(name != seq!['.', '.']) by {
            if name == seq!['.', '.'] {
                assert(name[0] == '.');
            }
        }
        assert(name != seq!['.']) by {
            if name == seq!['.'] {
                assert(name[0] == '.');
            }
        }
        let one: Seq<Seq<char>> = seq![name];
        let none: Seq<Seq<char>> = seq![];
        assert(one.drop_last() =~= none);
        assert(push_components(os, b, none) == b);
        assert(one.last() == name);
        assert(push_components(os, b, one) == push_component(os, b, name));
        assert(push_component(os, b, name) == b.push(name));
        let bb = b.push(name);
        assert(bb.drop_last() =~= b);
        assert(bb[bb.len() - 2] == b.last());
    }
}

proof fn lemma_component_start_prefix(
    os: TargetOs,
    verbatim: bool,
    s: Seq<char>,
    t: Seq<char>,
    end: int,
)
    requires
        0 <= end <= s.len(),
        end <= t.len(),
        s.take(end) == t.take(end),
    ensures
        component_start(os, verbatim, s, end) == component_start(os, verbatim, t, end),
    decreases end,
{
    if end > 0 {
        assert(s[end - 1] == s.take(end)[end - 1]);
        assert(t[end - 1] == t.take(end)[end - 1]);
        assert(s.take(end - 1) =~= s.take(end).take(end - 1));
        assert(t.take(end - 1) =~= t.take(end).take(end - 1));
        lemma_component_start_prefix(os, verbatim, s, t, end - 1);
    }
}

/// The components among the first `end` characters depend on those
/// characters alone.
proof fn lemma_components_upto_prefix(
    os: TargetOs,
    verbatim: bool,
    s: Seq<char>,
    t: Seq<char>,
    end: int,
)
    requires
        0 <= end <= s.len(),
        end <= t.len(),
        s.take(end) == t.take(end),
    ensures
        components_upto(os, verbatim, s, end) == components_upto(os, verbatim, t, end),
    decreases end,
{
    if end > 0 {
        assert(s[end - 1] == s.take(end)[end - 1]);
        assert(t[end - 1] == t.take(end)[end - 1]);
        if is_sep_mode(os, verbatim, s[end - 1]) {
            assert(s.take(end - 1) =~= s.take(end).take(end - 1));
            assert(t.take(end - 1) =~= t.take(end).take(end - 1));
            lemma_components_upto_prefix(os, verbatim, s, t, end - 1);
        } else {
            lemma_component_start_prefix(os, verbatim, s, t, end);
            lemma_component_start_bounds(os, verbatim, s, end);
            let st = component_start(os, verbatim, s, end);
            assert(s.subrange(st, end) =~= s.take(end).subrange(st, end));
            assert(t.subrange(st, end) =~= t.take(end).subrange(st, end));
            assert(s.take(st) =~= s.take(end).take(st));
            assert(t.take(st) =~= t.take(end).take(st));
            lemma_components_upto_prefix(os, verbatim, s, t, st);
        }
    }
}

proof fn lemma_component_start_after_sep(os: TargetOs, s: Seq<char>, st: int, end: int)
    requires
        0 < st <= end <= s.len(),
        is_sep_mode(os, false, s[st - 1]),
        forall|k: int| st <= k < end ==> !is_sep_mode(os, false, #[trigger] s[k]),
    ensures
        component_start(os, false, s, end) == st,
    decreases end - st,
{
    if end > st {
        lemma_component_start_after_sep(os, s, st, end - 1);
    }
}

/// A single component: not empty, without separators, and not `.`.
pub open spec fn is_single_component(os: TargetOs, c: Seq<char>) -> bool {
    &&& c.len() > 0
    &&& c != seq!['.']
    &&& forall|i: int| 0 <= i < c.len() ==> !is_separator(os, #[trigger] c[i])
}

/// Outside Windows, joining a single component onto `dir` adds it to
/// `dir`'s components.
pub proof fn lemma_join_component(os: TargetOs, dir: Seq<char>, c: Seq<char>)
    requires
        os != TargetOs::Windows,
        is_single_component(os, c),
    ensures
        components_spec(os, join_spec(os, dir, c)) == components_spec(os, dir).push(c),
{
    let j = join_spec(os, dir, c);
    assert(prefix_view(os, j).len == 0);
    assert(prefix_view(os, dir).len == 0);
    assert(prefix_view(os, c).len == 0);
    assert(!starts_rooted(os, c)) by {
        assert(!is_separator(os, c[0]));
    }
    assert(j.skip(0) =~= j);
    assert(dir.skip(0) =~= dir);
    let start: int = if dir.len() == 0 {
        0
    } else if is_separator(os, dir.last()) {
        dir.len() as int
    } else {
        dir.len() + 1int
    };
    assert(j.len() == start + c.len());
    assert(forall|k: int| 0 <= k < c.len() ==> j[start + k] == c[k]);
    assert(j.subrange(start, j.len() as int) =~= c);
    assert(forall|k: int| start <= k < j.len() ==> !is_sep_mode(os, false, #[trigger] j[k])) by {
        assert forall|k: int| start <= k < j.len() implies !is_sep_mode(os, false, #[trigger] j[k]) by {
            assert(j[k] == c[k - start]);
        }
    }
    if start == 0 {
        lemma_component_start_no_sep(os, false, j, j.len() as int);
        assert(j =~= c);
        assert(components_upto(os, false, j, 0) =~= seq![]);
    } else {
        assert(is_sep_mode(os, false, j[start - 1]));
        lemma_component_start_after_sep(os, j, start, j.len() as int);
        assert(j.take(dir.len() as int) =~= dir);
        assert(dir.take(dir.len() as int) =~= dir);
        lemma_components_upto_prefix(os, false, j, dir, dir.len() as int);
        if start == dir.len() + 1 {
            assert(components_upto(os, false, j, start) == components_upto(os, false, j, start - 1));
        }
    }
    assert(j[j.len() - 1] == c[c.len() - 1]);
    assert(!is_separator(os, j[j.len() - 1]));
    assert(components_upto(os, false, j, j.len() as int) == components_upto(
        os,
        false,
        j,
        start,
    ).push(c));
    assert(components_upto(os, false, j, start) == components_upto(
        os,
        false,
        dir,
        dir.len() as int,
    ));
    // The leading components are decided by the first two characters.
    if dir.len() > 0 {
        assert(j[0] == dir[0]);
        if dir.len() >= 2 {
            assert(j[1] == dir[1]);
        } else if !is_separator(os, dir[0]) {
            assert(j[1] == main_separator(os));
        }
    } else {
        assert(!starts_with_cur_dir(os, j)) by {
            if j.len() > 0 && j[0] == '.' {
                if j.len() == 1 {
                    assert(c =~= seq!['.']);
                } else {
                    assert(!is_separator(os, j[1]));
                }
            }
        }
    }
    assert(head_components(os, j) == head_components(os, dir));
    assert(components_spec(os, j) =~= components_spec(os, dir).push(c));
}

/// Components found after the root, outside a verbatim path, are single
/// components.
pub proof fn lemma_components_upto_single(os: TargetOs, s: Seq<char>, end: int)
    requires
        end <= s.len(),
    ensures
        forall|i: int|
            0 <= i < components_upto(os, false, s, end).len() ==> is_single_component(
                os,
                #[trigger] components_upto(os, false, s, end)[i],
            ),
    decreases end,
{
    if end > 0 {
        if is_sep_mode(os, false, s[end - 1]) {
            lemma_components_upto_single(os, s, end - 1);
            assert(components_upto(os, false, s, end) == components_upto(os, false, s, end - 1));
        } else {
            lemma_component_start_bounds(os, false, s, end);
            let st = component_start(os, false, s, end);
            lemma_components_upto_single(os, s, st);
            let c = s.subrange(st, end);
            if c == seq!['.'] {
                assert(components_upto(os, false, s, end) == components_upto(os, false, s, st));
            }
            assert forall|k: int| 0 <= k < c.len() implies !is_separator(os, #[trigger] c[k]) by {
                assert(c[k] == s[st + k]);
            }
            if c != seq!['.'] {
                let prev = components_upto(os, false, s, st);
                assert(components_upto(os, false, s, end) == prev.push(c));
                assert forall|i: int| 0 <= i < prev.push(c).len() implies is_single_component(
                    os,
                    #[trigger] prev.push(c)[i],
                ) by {
                    if i < prev.len() {
                        assert(prev.push(c)[i] == prev[i]);
                    }
                }
            }
        }
    }
}

/// With no components found up to `end`, the first character is a
/// separator or begins a `.` component.
proof fn lemma_no_components_upto(os: TargetOs, s: Seq<char>, end: int)
    requires
        0 < end <= s.len(),
        components_upto(os, false, s, end).len() == 0,
    ensures
        is_separator(os, s[0]) || (s[0] == '.' && (end == 1 || is_separator(os, s[1]))),
    decreases end,
{
    if is_sep_mode(os, false, s[end - 1]) {
        if end > 1 {
            lemma_no_components_upto(os, s, end - 1);
        }
    } else {
        lemma_component_start_bounds(os, false, s, end);
        let st = component_start(os, false, s, end);
        let c = s.subrange(st, end);
        if c != seq!['.'] {
            assert(components_upto(os, false, s, end).len() > 0);
        } else {
            assert(c.len() == 1);
            assert(st == end - 1);
            assert(s[st] == '.') by {
                assert(c[0] == s[st]);
            }
            if st > 0 {
                assert(is_separator(os, s[st - 1]));
                if st > 1 {
                    lemma_no_components_upto(os, s, st);
                }
            }
        }
    }
}

/// Outside Windows, only the empty path has no components.
pub proof fn lemma_no_components_empty(os: TargetOs, p: Seq<char>)
    requires
        os != TargetOs::Windows,
        components_spec(os, p).len() == 0,
    ensures
        p.len() == 0,
{
    assert(p.skip(0) =~= p);
    if p.len() > 0 {
        assert(head_components(os, p).len() == 0);
        lemma_no_components_upto(os, p, p.len() as int);
    }
}

/// No component is empty.
pub proof fn lemma_components_nonempty(os: TargetOs, p: Seq<char>)
    ensures
        forall|i: int|
            0 <= i < components_spec(os, p).len() ==> #[trigger] components_spec(os, p)[i].len()
                > 0,
{
    lemma_prefix_bounds(os, p);
    let pv = prefix_view(os, p);
    let rest = p.skip(pv.len);
    lemma_components_upto_nonempty(os, pv.verbatim, rest, rest.len() as int);
    let h = head_components(os, p);
    let b = components_upto(os, pv.verbatim, rest, rest.len() as int);
    assert forall|i: int| 0 <= i < h.len() implies #[trigger] h[i].len() > 0 by {}
    let all = h + b;
    assert forall|i: int| 0 <= i < all.len() implies #[trigger] all[i].len() > 0 by {
        if i >= h.len() {
            assert(all[i] == b[i - h.len()]);
        }
    }
}

proof fn lemma_components_upto_nonempty(os: TargetOs, verbatim: bool, s: Seq<char>, end: int)
    requires
        end <= s.len(),
    ensures
        forall|i: int|
            0 <= i < components_upto(os, verbatim, s, end).len() ==> #[trigger] components_upto(
                os,
                verbatim,
                s,
                end,
            )[i].len() > 0,
    decreases end,
{
    if end > 0 {
        if is_sep_mode(os, verbatim, s[end - 1]) {
            lemma_components_upto_nonempty(os, verbatim, s, end - 1);
            assert(components_upto(os, verbatim, s, end) == components_upto(
                os,
                verbatim,
                s,
                end - 1,
            ));
        } else {
            lemma_component_start_bounds(os, verbatim, s, end);
            let st = component_start(os, verbatim, s, end);
            lemma_components_upto_nonempty(os, verbatim, s, st);
            let c = s.subrange(st, end);
            assert(c.len() > 0);
            if c == seq!['.'] && !verbatim {
                assert(components_upto(os, verbatim, s, end) == components_upto(
                    os,
                    verbatim,
                    s,
                    st,
                ));
            } else {
                let prev = components_upto(os, verbatim, s, st);
                assert(components_upto(os, verbatim, s, end) == prev.push(c));
                assert forall|i: int| 0 <= i < prev.push(c).len() implies #[trigger] prev.push(
                    c,
                )[i].len() > 0 by {
                    if i < prev.len() {
                        assert(prev.push(c)[i] == prev[i]);
                    }
                }
            }
        }
    }
}

} // verus!
