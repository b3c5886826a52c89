//! Building test fixtures from a season folder: the folder's file tree as a
//! nested JSON-like object, and the keys under which scripts are recorded.

use vstd::prelude::*;

use crate::media_scan::{lowered_extension, strings_view};
use crate::os::TargetOs;
use crate::paths::{
    components_key, components_spec, components_upto, head_components, join_spec,
    lemma_component_start_bounds, lemma_components_nonempty, lemma_components_upto_single,
    lemma_join_component, lemma_no_components_empty, path_component_keys, path_components,
    prefix_view, root_text, starts_rooted, starts_with_cur_dir, component_start,
};
use crate::text::{chars_equal, join_with};

verus! {

/// A node of a fixture tree: a file (with its text) or a folder (named
/// children, looked up by their first occurrence).
#[derive(Debug)]
pub enum JsonNode {
    Text(String),
    Object(Vec<(String, JsonNode)>),
}

/// Index of the first entry named `key`, or -1.
pub open spec fn find_key(entries: Seq<(String, JsonNode)>, key: Seq<char>) -> int
    decreases entries.len(),
{
    if entries.len() == 0 {
        -1
    } else if find_key(entries.drop_last(), key) >= 0 {
        find_key(entries.drop_last(), key)
    } else if entries.last().0@ == key {
        entries.len() - 1
    } else {
        -1
    }
}

/// The node reached from a folder's entries by following the names `parts`.
pub open spec fn lookup_path(entries: Seq<(String, JsonNode)>, parts: Seq<Seq<char>>) -> Option<
    JsonNode,
>
    decreases parts.len(),
{
    if parts.len() == 0 {
        None
    } else {
        let k = find_key(entries, parts[0]);
        if k < 0 {
            None
        } else if parts.len() == 1 {
            Some(entries[k].1)
        } else {
            match entries[k].1 {
                JsonNode::Object(sub) => lookup_path(sub@, parts.drop_first()),
                JsonNode::Text(_) => None,
            }
        }
    }
}

proof fn lemma_find_key_bounds(entries: Seq<(String, JsonNode)>, key: Seq<char>)
    ensures
        -1 <= find_key(entries, key) < entries.len(),
        find_key(entries, key) >= 0 ==> entries[find_key(entries, key)].0@ == key,
        find_key(entries, key) == -1 ==> forall|i: int|
            0 <= i < entries.len() ==> #[trigger] entries[i].0@ != key,
        forall|i: int|
            0 <= i < find_key(entries, key) ==> #[trigger] entries[i].0@ != key,
    decreases entries.len(),
{
    if entries.len() > 0 {
        lemma_find_key_bounds(entries.drop_last(), key);
        let d = entries.drop_last();
        assert forall|i: int| 0 <= i < d.len() implies #[trigger] entries[i] == d[i] by {}
    }
}

/// `find_key` is the first index whose name is `key`.
proof fn lemma_find_key_first(entries: Seq<(String, JsonNode)>, key: Seq<char>, k: int)
    requires
        0 <= k < entries.len(),
        entries[k].0@ == key,
        forall|i: int| 0 <= i < k ==> #[trigger] entries[i].0@ != key,
    ensures
        find_key(entries, key) == k,
    decreases entries.len(),
{
    lemma_find_key_bounds(entries, key);
    if k < entries.len() - 1 {
        let d = entries.drop_last();
        assert(d[k] == entries[k]);
        assert forall|i: int| 0 <= i < k implies #[trigger] d[i].0@ != key by {
            assert(d[i] == entries[i]);
        }
        lemma_find_key_first(d, key, k);
    }
}

/// Entries named `key` that are the same in both folders, and no new ones,
/// leave the lookup of `key` unchanged.
proof fn lemma_find_key_frame(
    old_entries: Seq<(String, JsonNode)>,
    new_entries: Seq<(String, JsonNode)>,
    key: Seq<char>,
)
    requires
        old_entries.len() <= new_entries.len(),
        forall|i: int|
            0 <= i < old_entries.len() ==> (#[trigger] old_entries[i].0@ == key) == (
            new_entries[i].0@ == key),
        forall|i: int|
            0 <= i < old_entries.len() && #[trigger] old_entries[i].0@ == key ==> new_entries[i]
                == old_entries[i],
        forall|i: int|
            old_entries.len() <= i < new_entries.len() ==> #[trigger] new_entries[i].0@ != key,
    ensures
        find_key(new_entries, key) == find_key(old_entries, key),
        find_key(old_entries, key) >= 0 ==> new_entries[find_key(old_entries, key)]
            == old_entries[find_key(old_entries, key)],
{
    lemma_find_key_bounds(old_entries, key);
    lemma_find_key_bounds(new_entries, key);
    let m = find_key(old_entries, key);
    if m >= 0 {
        assert forall|i: int| 0 <= i < m implies #[trigger] new_entries[i].0@ != key by {
            assert(old_entries[i].0@ != key);
        }
        lemma_find_key_first(new_entries, key, m);
    } else {
        let n = find_key(new_entries, key);
        if n >= 0 {
            if n < old_entries.len() {
                assert(old_entries[n].0@ != key);
            }
        }
    }
}

/// A lookup depends only on the entry its first name finds.
proof fn lemma_lookup_frame(
    old_entries: Seq<(String, JsonNode)>,
    new_entries: Seq<(String, JsonNode)>,
    q: Seq<Seq<char>>,
)
    requires
        q.len() > 0,
        find_key(new_entries, q[0]) == find_key(old_entries, q[0]),
        find_key(old_entries, q[0]) >= 0 ==> new_entries[find_key(old_entries, q[0])]
            == old_entries[find_key(old_entries, q[0])],
    ensures
        lookup_path(new_entries, q) == lookup_path(old_entries, q),
{
}

/// The entries of a folder that a path continues into: the folder's own, or
/// none when it is a file (which gives way to a folder).
pub open spec fn entries_below(n: JsonNode) -> Seq<(String, JsonNode)> {
    match n {
        JsonNode::Object(v) => v@,
        JsonNode::Text(_) => Seq::empty(),
    }
}

/// `new` is the folder `old` with `value` put at the path `parts`: the first
/// entry named `parts[0]` (or a new last entry of that name, when there is
/// none) is replaced, by `value` at the end of the path and otherwise by a
/// folder holding the rest of the path put into what that entry held; every
/// other entry stays as it was. With no parts nothing changes.
pub open spec fn inserted(
    old: Seq<(String, JsonNode)>,
    new: Seq<(String, JsonNode)>,
    parts: Seq<Seq<char>>,
    value: JsonNode,
) -> bool
    decreases parts.len(),
{
    if parts.len() == 0 {
        new == old
    } else {
        let k = find_key(old, parts[0]);
        let at = if k >= 0 {
            k
        } else {
            old.len() as int
        };
        let below = if k >= 0 {
            entries_below(old[k].1)
        } else {
            Seq::empty()
        };
        &&& new.len() == (if k >= 0 {
            old.len() as int
        } else {
            old.len() + 1int
        })
        &&& forall|i: int| 0 <= i < old.len() && i != at ==> #[trigger] new[i] == old[i]
        &&& new[at].0@ == parts[0]
        &&& if parts.len() == 1 {
            new[at].1 == value
        } else {
            new[at].1 matches JsonNode::Object(sub) && inserted(
                below,
                sub@,
                parts.drop_first(),
                value,
            )
        }
    }
}

/// Index of the first entry named `key`.
fn find_entry(entries: &Vec<(String, JsonNode)>, key: &String) -> (r: Option<usize>)
    ensures
        match r {
            Some(k) => k == find_key(entries@, key@),
            None => find_key(entries@, key@) == -1,
        },
{
    let mut i: usize = 0;
    while i < entries.len()
        invariant
            i <= entries.len(),
            forall|j: int| 0 <= j < i ==> #[trigger] entries@[j].0@ != key@,
        decreases entries.len() - i,
    {
        if crate::text::str_equal(entries[i].0.as_str(), key.as_str()) {
            proof {
                lemma_find_key_first(entries@, key@, i as int);
            }
            return Some(i);
        }
        i = i + 1;
    }
    proof {
        lemma_find_key_bounds(entries@, key@);
        if find_key(entries@, key@) >= 0 {
            assert(entries@[find_key(entries@, key@)].0@ == key@);
        }
    }
    None
}

/// Puts `value` at the path named by `parts` from index `from` on.
fn insert_path_from(
    tree: &mut Vec<(String, JsonNode)>,
    parts: &[String],
    from: usize,
    value: JsonNode,
)
    requires
        from <= parts@.len(),
    ensures
        inserted(old(tree)@, final(tree)@, strings_view(parts@).skip(from as int), value),
        from == parts@.len() ==> final(tree)@ == old(tree)@,
        from < parts@.len() ==> lookup_path(final(tree)@, strings_view(parts@).skip(from as int))
            == Some(value),
        forall|q: Seq<Seq<char>>|
            q.len() > 0 && (from == parts@.len() || q[0] != parts@[from as int]@)
                ==> #[trigger] lookup_path(final(tree)@, q) == lookup_path(old(tree)@, q),
    decreases parts@.len() - from,
{
    if from >= parts.len() {
        assert(strings_view(parts@).skip(from as int).len() == 0);
        return;
    }
    let ghost old_tree = tree@;
    let ghost key = parts@[from as int]@;
    let ghost rest = strings_view(parts@).skip(from as int);
    let head = parts[from].clone();
    proof {
        lemma_find_key_bounds(old_tree, key);
    }
    let (k, node) = match find_entry(tree, &head) {
        Some(k) => {
            let (_, n) = tree.remove(k);
            (k, n)
        },
        None => {
            let n = tree.len();
            (n, JsonNode::Object(Vec::new()))
        },
    };
    let ghost below = entries_below(node);
    proof {
        assert(below == (if find_key(old_tree, key) >= 0 {
            entries_below(old_tree[find_key(old_tree, key)].1)
        } else {
            Seq::empty()
        }));
    }
    let new_node = if from + 1 == parts.len() {
        value
    } else {
        let mut sub = match node {
            JsonNode::Object(m) => m,
            JsonNode::Text(_) => Vec::new(),
        };
        assert(sub@ == below);
        insert_path_from(&mut sub, parts, from + 1, value);
        assert(rest.drop_first() =~= strings_view(parts@).skip(from + 1));
        assert(inserted(below, sub@, rest.drop_first(), value));
        assert(rest.drop_first() =~= strings_view(parts@).skip(from + 1));
        assert(lookup_path(sub@, rest.drop_first()) == Some(value));
        JsonNode::Object(sub)
    };
    let ghost nn = new_node;
    let ghost hv = head@;
    tree.insert(k, (head, new_node));
    proof {
        assert(hv == key);
        assert forall|i: int| 0 <= i < old_tree.len() && i != k implies #[trigger] tree@[i]
            == old_tree[i] by {}
        assert(tree@[k as int].1 == nn);
        assert(rest.len() > 0 && rest[0] == key);
        if rest.len() > 1 {
            assert(rest.drop_first() =~= strings_view(parts@).skip(from + 1));
        }
        assert(inserted(old_tree, tree@, rest, value));
        lemma_find_key_bounds(old_tree, key);
        assert(tree@[k as int].0@ == key);
        assert forall|i: int| 0 <= i < k implies #[trigger] tree@[i].0@ != key by {
            assert(tree@[i] == old_tree[i]);
        }
        lemma_find_key_first(tree@, key, k as int);
        assert(rest[0] == key);
        assert(lookup_path(tree@, rest) == Some(value));
        assert forall|q: Seq<Seq<char>>|
            q.len() > 0 && q[0] != key implies #[trigger] lookup_path(tree@, q) == lookup_path(
            old_tree,
            q,
        ) by {
            assert forall|i: int|
                0 <= i < old_tree.len() && #[trigger] old_tree[i].0@ == q[0] implies tree@[i]
                == old_tree[i] by {
                assert(i != k);
            }
            assert forall|i: int|
                0 <= i < old_tree.len() implies (#[trigger] old_tree[i].0@ == q[0]) == (
                tree@[i].0@ == q[0]) by {
                if i != k {
                    assert(tree@[i] == old_tree[i]);
                }
            }
            assert forall|i: int| old_tree.len() <= i < tree@.len() implies #[trigger] tree@[i].0@
                != q[0] by {
                assert(i == k);
            }
            lemma_find_key_frame(old_tree, tree@, q[0]);
            lemma_lookup_frame(old_tree, tree@, q);
        }
    }
}

/// Puts `value` in the tree at the path named by `parts`, creating folders
/// on the way and turning a file that stands where a folder is needed into
/// an empty folder. The new tree is exactly the old one with `value` put at
/// the path (see `inserted`): the path leads to `value`, and a path that
/// starts with another name leads where it led before. No parts: nothing
/// changes.
pub fn insert_path_with_value(tree: &mut Vec<(String, JsonNode)>, parts: &[String], value: JsonNode)
    ensures
        inserted(old(tree)@, final(tree)@, strings_view(parts@), value),
        parts@.len() == 0 ==> final(tree)@ == old(tree)@,
        parts@.len() > 0 ==> lookup_path(final(tree)@, strings_view(parts@)) == Some(value),
        forall|q: Seq<Seq<char>>|
            q.len() > 0 && (parts@.len() == 0 || q[0] != parts@[0]@) ==> #[trigger] lookup_path(
                final(tree)@,
                q,
            ) == lookup_path(old(tree)@, q),
{
    insert_path_from(tree, parts, 0, value);
    assert(strings_view(parts@).skip(0) =~= strings_view(parts@));
}

/// Why a path could not be made relative to the root.
#[derive(Debug, Clone, Copy, PartialEq, Eq, Structural)]
pub enum RelPathError {
    /// The root's components do not begin the path's.
    NotUnderRoot,
}

/// The components of `full` after those of `root`, when `root`'s components
/// begin `full`'s (as `Path::strip_prefix` requires; prefixes are compared
/// by `prefix_key`).
pub open spec fn rel_parts_spec(os: TargetOs, root: Seq<char>, full: Seq<char>) -> Option<
    Seq<Seq<char>>,
> {
    let rk = components_key(os, root);
    let fk = components_key(os, full);
    if rk.len() <= fk.len() && fk.take(rk.len() as int) == rk {
        Some(components_spec(os, full).skip(rk.len() as int))
    } else {
        None
    }
}

/// The components of `full` below `root`, as text: none of them is empty;
/// `root`'s components are the first of `full`'s (prefixes compared by
/// `prefix_key`) and these parts are the rest. A path relative to itself has
/// no parts.
pub fn rel_parts(os: TargetOs, root: &str, full: &str) -> (r: Result<Vec<String>, RelPathError>)
    ensures
        match r {
            Ok(parts) => rel_parts_spec(os, root@, full@) == Some(strings_view(parts@)),
            Err(e) => rel_parts_spec(os, root@, full@) is None && e == RelPathError::NotUnderRoot,
        },
        r matches Ok(parts) ==> {
            let n = components_spec(os, root@).len() as int;
            &&& components_key(os, full@).take(n) == components_key(os, root@)
            &&& components_spec(os, full@).skip(n) == strings_view(parts@)
            &&& forall|i: int| 0 <= i < parts@.len() ==> #[trigger] parts@[i]@.len() > 0
        },
        root@ == full@ ==> (r matches Ok(parts) && parts@.len() == 0),
{
    let rk = path_component_keys(os, root);
    let fk = path_component_keys(os, full);
    let fc = path_components(os, full);
    let ghost rkv = components_key(os, root@);
    let ghost fkv = components_key(os, full@);
    let ghost fcv = components_spec(os, full@);
    assert(rk@.map_values(|c: Vec<char>| c@) == rkv);
    assert(fk@.map_values(|c: Vec<char>| c@) == fkv);
    assert(strings_view(fc@) == fcv);
    assert(rkv.len() == components_spec(os, root@).len());
    assert(fkv.len() == fcv.len());
    if rk.len() > fk.len() {
        return Err(RelPathError::NotUnderRoot);
    }
    let mut i: usize = 0;
    while i < rk.len()
        invariant
            i <= rk.len() <= fk.len(),
            rk@.map_values(|c: Vec<char>| c@) == rkv,
            fk@.map_values(|c: Vec<char>| c@) == fkv,
            rkv == components_key(os, root@),
            fkv == components_key(os, full@),
            forall|j: int| 0 <= j < i ==> #[trigger] fkv[j] == rkv[j],
        decreases rk.len() - i,
    {
        assert(rkv[i as int] == rk@[i as int]@);
        assert(fkv[i as int] == fk@[i as int]@);
        if !chars_equal(&fk[i], &rk[i]) {
            proof {
                assert(fkv.take(rkv.len() as int)[i as int] != rkv[i as int]);
            }
            return Err(RelPathError::NotUnderRoot);
        }
        i = i + 1;
    }
    assert(fkv.take(rkv.len() as int) =~= rkv);
    let mut parts: Vec<String> = Vec::new();
    let mut k: usize = rk.len();
    proof {
        lemma_components_nonempty(os, full@);
    }
    while k < fc.len()
        invariant
            rk.len() <= k <= fc.len(),
            strings_view(fc@) == fcv,
            forall|j: int| 0 <= j < fcv.len() ==> #[trigger] fcv[j].len() > 0,
            strings_view(parts@) == fcv.subrange(rk.len() as int, k as int),
        decreases fc.len() - k,
    {
        let part = fc[k].clone();
        parts.push(part);
        proof {
            assert(fcv.subrange(rk.len() as int, k + 1) =~= fcv.subrange(
                rk.len() as int,
                k as int,
            ).push(fcv[k as int]));
        }
        k = k + 1;
    }
    assert(fcv.subrange(rk.len() as int, fc.len() as int) =~= fcv.skip(rkv.len() as int));
    assert forall|i: int| 0 <= i < parts@.len() implies #[trigger] parts@[i]@.len() > 0 by {
        assert(strings_view(parts@)[i] == fcv[rkv.len() + i]);
    }
    Ok(parts)
}

/// `dir` joined with each of `parts` in turn.
pub open spec fn join_all(os: TargetOs, dir: Seq<char>, parts: Seq<Seq<char>>) -> Seq<char>
    decreases parts.len(),
{
    if parts.len() == 0 {
        dir
    } else {
        join_spec(os, join_all(os, dir, parts.drop_last()), parts.last())
    }
}

proof fn lemma_join_first_parts(os: TargetOs, root: Seq<char>, full: Seq<char>, i: int)
    requires
        os != TargetOs::Windows,
        rel_parts_spec(os, root, full) is Some,
        0 <= i <= rel_parts_spec(os, root, full)->0.len(),
    ensures
        ({
            let parts = rel_parts_spec(os, root, full)->0;
            components_spec(os, join_all(os, root, parts.take(i))) == components_spec(os, root)
                + parts.take(i)
        }),
    decreases i,
{
    let parts = rel_parts_spec(os, root, full)->0;
    let rc = components_spec(os, root);
    let fc = components_spec(os, full);
    let n = rc.len() as int;
    assert(components_key(os, root) == rc);
    assert(components_key(os, full) == fc);
    assert(parts == fc.skip(n));
    if i == 0 {
        assert(parts.take(0) =~= seq![]);
        assert(rc + parts.take(0) =~= rc);
    } else {
        lemma_join_first_parts(os, root, full, i - 1);
        let d = join_all(os, root, parts.take(i - 1));
        assert(parts.take(i).drop_last() =~= parts.take(i - 1));
        assert(join_all(os, root, parts.take(i)) == join_spec(os, d, parts[i - 1]));
        let c = parts[i - 1];
        assert(c == fc[n + i - 1]);
        assert(full.skip(0) =~= full);
        let h = head_components(os, full);
        let body = components_upto(os, false, full, full.len() as int);
        assert(fc == h + body);
        if n + i - 1 >= h.len() {
            lemma_components_upto_single(os, full, full.len() as int);
            assert(c == body[n + i - 1 - h.len()]);
            lemma_join_component(os, d, c);
        } else {
            // The first part is the root or a leading `.` of `full`, and
            // `root` has no components, so it is empty.
            assert(n == 0 && i == 1);
            assert(rc.len() == 0);
            lemma_no_components_empty(os, root);
            assert(parts.take(0) =~= seq![]);
            assert(d == root);
            let j = join_spec(os, d, c);
            assert(j.skip(0) =~= j);
            assert(prefix_view(os, j).len == 0);
            if c == root_text(os) {
                assert(starts_rooted(os, c));
                assert(j == c);
                assert(components_upto(os, false, j, 0) =~= seq![]);
                assert(components_upto(os, false, j, 1) == components_upto(os, false, j, 0));
                assert(head_components(os, j) =~= seq![root_text(os)]);
            } else {
                assert(c == seq!['.']);
                assert(j =~= c);
                assert(starts_with_cur_dir(os, j));
                lemma_component_start_bounds(os, false, j, 1);
                assert(component_start(os, false, j, 1) == 0);
                assert(j.subrange(0, 1) =~= seq!['.']);
                assert(components_upto(os, false, j, 1) == components_upto(os, false, j, 0));
                assert(components_upto(os, false, j, 0) =~= seq![]);
                assert(head_components(os, j) =~= seq![seq!['.']]);
            }
            assert(parts.take(1) =~= seq![c]);
            assert(components_spec(os, j) =~= rc + parts.take(1));
        }
        assert(parts.take(i) =~= parts.take(i - 1).push(c));
        assert(rc + parts.take(i) =~= (rc + parts.take(i - 1)).push(c));
    }
}

/// Outside Windows, joining the parts that `rel_parts` finds back onto the
/// root, one by one, gives a path with the components of the full path, so
/// a path equal to it as `std::path::Path` compares paths.
pub proof fn lemma_rel_parts_join_back(os: TargetOs, root: Seq<char>, full: Seq<char>)
    requires
        os != TargetOs::Windows,
        rel_parts_spec(os, root, full) is Some,
    ensures
        components_spec(os, join_all(os, root, rel_parts_spec(os, root, full)->0))
            == components_spec(os, full),
{
    let parts = rel_parts_spec(os, root, full)->0;
    lemma_join_first_parts(os, root, full, parts.len() as int);
    assert(parts.take(parts.len() as int) =~= parts);
    let rc = components_spec(os, root);
    let fc = components_spec(os, full);
    assert(components_key(os, root) == rc);
    assert(components_key(os, full) == fc);
    assert(fc.take(rc.len() as int) == rc);
    assert(rc + fc.skip(rc.len() as int) =~= fc);
}

/// Joins `items` with `sep`.
pub fn join_strings(items: &Vec<String>, sep: &str) -> (r: String)
    ensures
        r@ == join_with(strings_view(items@), sep@),
{
    let ghost all = strings_view(items@);
    let mut r = String::new();
    if items.len() == 0 {
        return r;
    }
    r.append(items[0].as_str());
    assert(all.take(1) =~= seq![all[0]]);
    let mut i: usize = 1;
    while i < items.len()
        invariant
            1 <= i <= items.len(),
            all == strings_view(items@),
            r@ == join_with(all.take(i as int), sep@),
        decreases items.len() - i,
    {
        r.append(sep);
        r.append(items[i].as_str());
        proof {
            assert(all.take(i + 1).drop_last() =~= all.take(i as int));
        }
        i = i + 1;
    }
    assert(all.take(items.len() as int) =~= all);
    r
}

/// The key a script found at `full` is recorded under: `prefix`, a slash,
/// and the components below `root` joined by slashes.
pub fn rel_key_for_expected(os: TargetOs, root: &str, full: &str, prefix: &str) -> (r: Result<
    String,
    RelPathError,
>)
    ensures
        match r {
            Ok(key) => rel_parts_spec(os, root@, full@) matches Some(parts) && key@ == prefix@
                + "/"@ + join_with(parts, "/"@),
            Err(e) => rel_parts_spec(os, root@, full@) is None,
        },
{
    let parts = rel_parts(os, root, full)?;
    let mut key = String::from_str(prefix);
    key.append("/");
    let joined = join_strings(&parts, "/");
    key.append(joined.as_str());
    Ok(key)
}

/// Whether `s` starts with `prefix`.
pub open spec fn has_prefix(s: Seq<char>, prefix: Seq<char>) -> bool {
    prefix.len() <= s.len() && s.take(prefix.len() as int) == prefix
}

/// A canonical root as fixtures record it: on Windows the verbatim forms
/// `\\?\UNC\server\share` and `\\?\C:\…` become `\\server\share` and `C:\…`;
/// elsewhere, and for other forms, the text is kept.
pub open spec fn normalize_root_spec(os: TargetOs, s: Seq<char>) -> Seq<char> {
    if os == TargetOs::Windows && has_prefix(s, "\\\\?\\UNC\\"@) {
        "\\\\"@ + s.skip(8)
    } else if os == TargetOs::Windows && has_prefix(s, "\\\\?\\"@) {
        s.skip(4)
    } else {
        s
    }
}

/// Whether the characters `v` start with those of `prefix`.
fn chars_start_with(v: &Vec<char>, prefix: &str) -> (r: bool)
    ensures
        r == has_prefix(v@, prefix@),
{
    let pv = crate::text::to_chars(prefix);
    if pv.len() > v.len() {
        return false;
    }
    let mut i: usize = 0;
    while i < pv.len()
        invariant
            i <= pv.len() <= v.len(),
            pv@ == prefix@,
            forall|j: int| 0 <= j < i ==> v@[j] == pv@[j],
        decreases pv.len() - i,
    {
        if v[i] != pv[i] {
            assert(v@.take(pv.len() as int)[i as int] != pv@[i as int]);
            return false;
        }
        i = i + 1;
    }
    assert(v@.take(pv.len() as int) =~= pv@);
    true
}

/// The root of a fixture as text (see `normalize_root_spec`).
pub fn normalize_root_string(os: TargetOs, s: &str) -> (r: String)
    ensures
        r@ == normalize_root_spec(os, s@),
{
    let v = crate::text::to_chars(s);
    proof {
        reveal_strlit("\\\\?\\UNC\\");
        reveal_strlit("\\\\?\\");
    }
    if os == TargetOs::Windows && chars_start_with(&v, "\\\\?\\UNC\\") {
        let mut r = String::from_str("\\\\");
        r.append(s.substring_char(8, v.len()));
        assert(s@.subrange(8, s@.len() as int) =~= s@.skip(8));
        r
    } else if os == TargetOs::Windows && chars_start_with(&v, "\\\\?\\") {
        assert(s@.subrange(4, s@.len() as int) =~= s@.skip(4));
        String::from_str(s.substring_char(4, v.len()))
    } else {
        String::from_str(s)
    }
}

/// How a file found while recording a fixture is kept.
#[derive(Debug, Clone, Copy, PartialEq, Eq, Structural)]
pub enum FixtureFile {
    /// A `.cmd` script: an expected Windows write.
    WindowsScript,
    /// A `.bash` script: an expected Unix write.
    UnixScript,
    /// Any other file: part of the input tree.
    Input,
}

/// `.cmd` files are Windows scripts, `.bash` files Unix ones (in any letter
/// case); everything else is input.
pub open spec fn fixture_file_spec(os: TargetOs, p: Seq<char>) -> FixtureFile {
    let e = lowered_extension(os, p);
    if e == "cmd"@ {
        FixtureFile::WindowsScript
    } else if e == "bash"@ {
        FixtureFile::UnixScript
    } else {
        FixtureFile::Input
    }
}

/// Classifies a file found while recording a fixture.
pub fn classify_fixture_file(os: TargetOs, path: &str) -> (r: FixtureFile)
    ensures
        r == fixture_file_spec(os, path@),
{
    let e = crate::media_scan::lowered_ext(os, path);
    if crate::text::chars_are(&e, "cmd") {
        FixtureFile::WindowsScript
    } else if crate::text::chars_are(&e, "bash") {
        FixtureFile::UnixScript
    } else {
        FixtureFile::Input
    }
}

} // verus!
