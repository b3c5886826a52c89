use media_launcher::fixture::{
    classify_fixture_file, insert_path_with_value, normalize_root_string, rel_key_for_expected,
    rel_parts, FixtureFile, JsonNode, RelPathError,
};
use media_launcher::os::TargetOs;
use media_launcher::paths::{join, path_components};

fn strs(v: &[&str]) -> Vec<String> {
    v.iter().map(|s| s.to_string()).collect()
}

fn lookup<'a>(tree: &'a [(String, JsonNode)], parts: &[&str]) -> Option<&'a JsonNode> {
    let (first, rest) = parts.split_first()?;
    let node = &tree.iter().find(|(k, _)| k == first)?.1;
    if rest.is_empty() {
        Some(node)
    } else {
        match node {
            JsonNode::Object(sub) => lookup(sub, rest),
            JsonNode::Text(_) => None,
        }
    }
}

#[test]
fn inserted_path_reads_back() {
    let mut tree = Vec::new();
    insert_path_with_value(&mut tree, &strs(&["SUB", "ep 01.ass"]), JsonNode::Text("a".into()));
    insert_path_with_value(&mut tree, &strs(&["ep 01.mkv"]), JsonNode::Text("b".into()));
    insert_path_with_value(&mut tree, &strs(&["SUB", "ep 02.ass"]), JsonNode::Text("c".into()));
    assert!(matches!(lookup(&tree, &["SUB", "ep 01.ass"]), Some(JsonNode::Text(t)) if t == "a"));
    assert!(matches!(lookup(&tree, &["ep 01.mkv"]), Some(JsonNode::Text(t)) if t == "b"));
    assert!(matches!(lookup(&tree, &["SUB", "ep 02.ass"]), Some(JsonNode::Text(t)) if t == "c"));
    assert_eq!(tree.len(), 2);
}

#[test]
fn file_in_the_way_becomes_a_folder() {
    let mut tree = Vec::new();
    insert_path_with_value(&mut tree, &strs(&["x"]), JsonNode::Text("file".into()));
    insert_path_with_value(&mut tree, &strs(&["x", "y"]), JsonNode::Text("inner".into()));
    assert!(matches!(lookup(&tree, &["x", "y"]), Some(JsonNode::Text(t)) if t == "inner"));
    assert_eq!(tree.len(), 1);
}

#[test]
fn empty_path_changes_nothing() {
    let mut tree = Vec::new();
    insert_path_with_value(&mut tree, &[], JsonNode::Text("v".into()));
    assert!(tree.is_empty());
}

#[test]
fn rel_parts_below_root() {
    assert_eq!(
        rel_parts(TargetOs::Linux, "/data/show", "/data/show/SUB/ep 01.ass"),
        Ok(strs(&["SUB", "ep 01.ass"]))
    );
    assert_eq!(
        rel_parts(TargetOs::Linux, "/data/show", "/data/other/ep 01.ass"),
        Err(RelPathError::NotUnderRoot)
    );
    assert_eq!(
        rel_parts(TargetOs::Linux, "/data/show/", "/data/show//x"),
        Ok(strs(&["x"]))
    );
}

#[test]
fn rel_key_joins_with_slashes() {
    assert_eq!(
        rel_key_for_expected(TargetOs::Linux, "/data/show", "/data/show/01.bash", "root"),
        Ok("root/01.bash".to_string())
    );
    assert_eq!(
        rel_key_for_expected(TargetOs::Windows, "C:\\show", "C:\\show\\sub\\01.cmd", "root"),
        Ok("root/sub/01.cmd".to_string())
    );
    assert_eq!(
        rel_key_for_expected(TargetOs::Linux, "/a", "/b/01.bash", "root"),
        Err(RelPathError::NotUnderRoot)
    );
}

#[test]
fn verbatim_windows_roots_are_normalized() {
    assert_eq!(
        normalize_root_string(TargetOs::Windows, "\\\\?\\UNC\\server\\share\\show"),
        "\\\\server\\share\\show"
    );
    assert_eq!(normalize_root_string(TargetOs::Windows, "\\\\?\\D:\\movies"), "D:\\movies");
    assert_eq!(normalize_root_string(TargetOs::Windows, "D:\\movies"), "D:\\movies");
    assert_eq!(
        normalize_root_string(TargetOs::Linux, "\\\\?\\D:\\movies"),
        "\\\\?\\D:\\movies"
    );
}

#[test]
fn fixture_files_by_extension() {
    assert_eq!(classify_fixture_file(TargetOs::Linux, "r/01.CMD"), FixtureFile::WindowsScript);
    assert_eq!(classify_fixture_file(TargetOs::Linux, "r/01.bash"), FixtureFile::UnixScript);
    assert_eq!(classify_fixture_file(TargetOs::Linux, "r/01.mkv"), FixtureFile::Input);
}

#[test]
fn insert_builds_exactly_the_nested_tree() {
    let mut tree = Vec::new();
    insert_path_with_value(&mut tree, &strs(&["a", "b", "c.mkv"]), JsonNode::Text(String::new()));
    assert_eq!(
        format!("{tree:?}"),
        r#"[("a", Object([("b", Object([("c.mkv", Text(""))]))]))]"#
    );
    let mut tree = vec![("a".to_string(), JsonNode::Text("x".into()))];
    insert_path_with_value(&mut tree, &strs(&["a", "b"]), JsonNode::Text(String::new()));
    assert_eq!(format!("{tree:?}"), r#"[("a", Object([("b", Text(""))]))]"#);
}

#[test]
fn insert_keeps_siblings_deeper_on_the_path() {
    let mut tree = Vec::new();
    insert_path_with_value(&mut tree, &strs(&["d", "x"]), JsonNode::Text("1".into()));
    insert_path_with_value(&mut tree, &strs(&["e"]), JsonNode::Text("2".into()));
    insert_path_with_value(&mut tree, &strs(&["d", "y"]), JsonNode::Text("3".into()));
    insert_path_with_value(&mut tree, &strs(&["d", "x"]), JsonNode::Text("4".into()));
    assert_eq!(
        format!("{tree:?}"),
        r#"[("d", Object([("x", Text("4")), ("y", Text("3"))])), ("e", Text("2"))]"#
    );
}

#[test]
fn rel_parts_of_the_root_itself_is_empty() {
    assert_eq!(rel_parts(TargetOs::Linux, "/data/show", "/data/show"), Ok(vec![]));
    assert_eq!(rel_parts(TargetOs::Windows, "C:\\show", "C:\\show\\a\\b"), Ok(strs(&["a", "b"])));
}

#[test]
fn windows_drive_prefix_is_its_own_component() {
    assert_eq!(rel_parts(TargetOs::Windows, "C:", "C:\\x"), Ok(strs(&["\\", "x"])));
    assert_eq!(rel_parts(TargetOs::Windows, "C:", "C:x"), Ok(strs(&["x"])));
    assert_eq!(rel_parts(TargetOs::Windows, "C:\\show", "D:\\show\\x"), Err(RelPathError::NotUnderRoot));
}

#[test]
fn prefixes_are_compared_as_std_compares_them() {
    assert_eq!(rel_parts(TargetOs::Windows, "c:\\show", "C:\\show\\x"), Ok(strs(&["x"])));
    assert_eq!(rel_parts(TargetOs::Windows, "//srv/sh", "\\\\srv\\sh\\x"), Ok(strs(&["x"])));
    assert_eq!(
        rel_parts(TargetOs::Windows, "\\\\?\\c:\\show", "\\\\?\\C:\\show\\a\\b"),
        Ok(strs(&["a", "b"]))
    );
    assert_eq!(
        rel_parts(TargetOs::Windows, "C:\\show", "\\\\?\\C:\\show\\a"),
        Err(RelPathError::NotUnderRoot)
    );
    assert_eq!(rel_parts(TargetOs::Windows, "", "C:\\x"), Ok(strs(&["C:", "\\", "x"])));
}

#[test]
fn rel_parts_join_back_onto_root() {
    let root = "/data/show";
    let full = "/data/show//SUB/./ep 01.ass";
    let parts = rel_parts(TargetOs::Linux, root, full).unwrap();
    assert_eq!(parts, strs(&["SUB", "ep 01.ass"]));
    let mut p = root.to_string();
    for part in &parts {
        p = join(TargetOs::Linux, &p, part);
    }
    assert_eq!(p, "/data/show/SUB/ep 01.ass");
    assert_eq!(path_components(TargetOs::Linux, &p), path_components(TargetOs::Linux, full));
    let parts = rel_parts(TargetOs::Linux, "", "./a/b").unwrap();
    let mut p = String::new();
    for part in &parts {
        p = join(TargetOs::Linux, &p, part);
    }
    assert_eq!(path_components(TargetOs::Linux, &p), path_components(TargetOs::Linux, "./a/b"));
}
