use guiguitsu::invocation::Tool;
use guiguitsu::jujutsu::{
    abandon_commit, bookmarks_by_commit, create_bookmark, create_merge_commit, descendants_of,
    ensure_user_config, identify_new_commit, is_change_id, list_bookmarks, new_after, new_at,
    parse_bookmarks, parse_bookmarks_by_commit, parse_commit_ids, parse_descendants, parse_is_empty,
    parse_op_id, rebase_merge_commit, rebase_source_ignore_immutable, to_change_id, to_sha1,
    BookmarkMap, RevLookup,
};

fn strings(v: &[&str]) -> Vec<String> {
    v.iter().map(|s| s.to_string()).collect()
}

#[test]
fn change_ids_are_told_from_commit_ids() {
    assert!(is_change_id("zzkomqmq"));
    assert!(!is_change_id("abcdef"));
    assert!(!is_change_id("4f4658ab"));
    assert!(!is_change_id(""));
    assert!(!is_change_id("Zzkomqmq"));
}

#[test]
fn to_sha1_and_to_change_id_keep_what_they_already_have() {
    match to_sha1("/r", "4f4658") {
        RevLookup::Known(s) => assert_eq!(s, "4f4658"),
        RevLookup::Run(_) => panic!("a commit id needs no lookup"),
    }
    match to_sha1("/r", "zzkomqmq") {
        RevLookup::Run(inv) => assert_eq!(inv.args, strings(&["show", "-T", "commit_id", "--no-patch", "zzkomqmq"])),
        RevLookup::Known(_) => panic!("a change id needs a lookup"),
    }
    match to_change_id("/r", "zzkomqmq") {
        RevLookup::Known(s) => assert_eq!(s, "zzkomqmq"),
        RevLookup::Run(_) => panic!("a change id needs no lookup"),
    }
    match to_change_id("/r", "4f4658") {
        RevLookup::Run(inv) => assert_eq!(inv.args[2], "change_id"),
        RevLookup::Known(_) => panic!("a commit id needs a lookup"),
    }
}

#[test]
fn abandon_commit_reparents_child_to_grandparent() {
    let inv = abandon_commit("/r", "sha2");
    assert_eq!(inv.tool, Tool::Jj);
    assert_eq!(inv.args, strings(&["abandon", "sha2", "--ignore-immutable"]));
}

#[test]
fn new_at_returns_sha_of_new_commit() {
    let invs = new_at("/r", "main");
    assert_eq!(invs[0].args, strings(&["new", "main"]));
    assert_eq!(invs[1].args, strings(&["log", "-r", "@", "--no-graph", "-T", "commit_id"]));
}

#[test]
fn create_bookmark_creates_local_branch() {
    let inv = create_bookmark("/r", "my-feature", "abc");
    assert_eq!(inv.args, strings(&["bookmark", "create", "my-feature", "-r", "abc"]));
}

#[test]
fn list_local_bookmarks_returns_created_bookmarks() {
    let inv = list_bookmarks("/r", false);
    assert_eq!(inv.args[5], "local_bookmarks ++ \"\\n\"");
    let names = parse_bookmarks("feature-a\nfeature-b main\n\nfeature-c\n");
    assert_eq!(names, strings(&["feature-a", "feature-b", "main", "feature-c"]));
}

#[test]
fn list_remote_bookmarks_excludes_git_tracking_bookmarks() {
    let inv = list_bookmarks("/r", true);
    assert_eq!(inv.args[5], "remote_bookmarks ++ \"\\n\"");
    let names = parse_bookmarks("main@git\n  \nmain@origin\nfeat@git feat@origin  x@upstream\n");
    assert_eq!(names, strings(&["main@origin", "feat@origin", "x@upstream"]));
    assert!(names.iter().all(|b| !b.ends_with("@git")));
}

#[test]
fn bookmarks_by_commit_maps_shas_to_names() {
    let inv = bookmarks_by_commit("/r");
    assert_eq!(inv.args[2], "bookmarks()");
    let out = "aaa\tfeature-a feature-a@git\nbbb\tmain main@origin\naaa\tfeature-b\nccc\t main@git\n";
    let map = parse_bookmarks_by_commit(out);
    assert_eq!(map.get("aaa"), Some(&strings(&["feature-a", "feature-b"])));
    assert_eq!(map.get("bbb"), Some(&strings(&["main", "main@origin"])));
    assert_eq!(map.get("ccc"), None);
    assert!(map.has_bookmark("bbb", "main"));
    assert!(!map.has_bookmark("aaa", "main"));
    assert!(map.any_has_bookmark("main@origin"));
    assert!(!map.any_has_bookmark("nope"));
}

#[test]
fn bookmark_map_extends_names() {
    let mut m = BookmarkMap::new();
    m.extend("s", strings(&["a"]));
    m.extend("t", strings(&["b"]));
    m.extend("s", strings(&["c"]));
    assert_eq!(m.get("s"), Some(&strings(&["a", "c"])));
    assert_eq!(m.entries.len(), 2);
}

#[test]
fn bookmark_to_change_id_resolves_bookmark() {
    let inv = guiguitsu::jujutsu::bookmark_to_change_id("/r", "feature-a");
    assert_eq!(inv.args, strings(&["log", "-r", "feature-a", "--no-graph", "-T", "change_id"]));
}

#[test]
fn descendants_of_returns_children_and_grandchildren() {
    let inv = descendants_of("/r", "merge");
    assert_eq!(inv.args[2], "merge::");
    let out = "m1\u{1f}mmm\u{1f}Special workspace merge commit\nc1\u{1f}ccc\u{1f}unstacked child commit\ng1\u{1f}ggg\u{1f}unstacked grandchild commit\n";
    let d = parse_descendants(out, "m1");
    assert_eq!(d.len(), 2);
    assert!(d.iter().any(|c| c.description == "unstacked child commit"));
    assert!(d.iter().any(|c| c.description == "unstacked grandchild commit"));
    assert_eq!(d[0].change_id, "ccc");
}

#[test]
fn descendants_of_returns_empty_at_tip() {
    let d = parse_descendants("g1\u{1f}ggg\u{1f}unstacked grandchild commit\n", "g1");
    assert!(d.is_empty());
}

#[test]
fn descendants_of_excludes_merge_commit_itself() {
    let out = "m1\u{1f}mmm\u{1f}Special workspace merge commit\nc1\u{1f}ccc\u{1f}child";
    let d = parse_descendants(out, "m1");
    assert!(!d.iter().any(|c| c.description == "Special workspace merge commit"));
}

#[test]
fn is_empty_commit_returns_true_for_empty() {
    assert!(parse_is_empty("empty\n"));
}

#[test]
fn is_empty_commit_returns_false_for_non_empty() {
    assert!(!parse_is_empty("not empty"));
}

#[test]
fn op_id_must_not_be_empty() {
    assert_eq!(parse_op_id(" abc \n"), Ok("abc".to_string()));
    assert_eq!(parse_op_id("  "), Err("jj op log returned empty output".to_string()));
}

#[test]
fn rebase_commands_list_destinations_in_order() {
    let inv = rebase_merge_commit("/r", "m", &strings(&["p1", "p2"]), true);
    assert_eq!(inv.args, strings(&["rebase", "-s", "m", "-d", "p1", "-d", "p2"]));
    let inv = rebase_merge_commit("/r", "m", &strings(&["p1"]), false);
    assert_eq!(inv.args, strings(&["rebase", "-r", "m", "-d", "p1"]));
    let inv = rebase_source_ignore_immutable("/r", "root", &strings(&["main@origin"]));
    assert_eq!(inv.args, strings(&["rebase", "--ignore-immutable", "-s", "root", "-d", "main@origin"]));
}

#[test]
fn new_commit_identified_by_children_before_and_after() {
    let before = strings(&["a", "b"]);
    let after = strings(&["a", "c", "b"]);
    assert_eq!(identify_new_commit(&before, &after, "r"), Ok("c".to_string()));
    assert_eq!(
        identify_new_commit(&before, &before, "r"),
        Err("failed to identify newly created commit on r".to_string())
    );
    assert_eq!(parse_commit_ids(" a \n\n b\n"), strings(&["a", "b"]));
}

#[test]
fn user_config_is_completed_from_environment() {
    assert_eq!(ensure_user_config("/r", "n", "e", "", "").unwrap().len(), 0);
    let v = ensure_user_config("/r", "", "e", "Env Name", "env@x").unwrap();
    assert_eq!(v.len(), 1);
    assert_eq!(v[0].args, strings(&["config", "set", "--user", "user.name", "Env Name"]));
    let v = ensure_user_config("/r", "", "", "N", "E").unwrap();
    assert_eq!(v.len(), 2);
    assert_eq!(v[1].args[3], "user.email");
    assert!(ensure_user_config("/r", "", "e", "", "E").unwrap_err().starts_with("jj user identity is not configured."));
}

#[test]
fn merge_commit_and_new_after_commands() {
    let v = create_merge_commit("/r", "msg", &strings(&["a", "b"]), true);
    assert_eq!(v[0].args, strings(&["new", "-m", "msg", "a", "b"]));
    assert_eq!(v[1].args, strings(&["new"]));
    let inv = new_after("/r", "p", Some("m"));
    assert_eq!(inv.args, strings(&["new", "-A", "p", "--no-edit", "-m", "m"]));
    let inv = new_after("/r", "p", None);
    assert_eq!(inv.args, strings(&["new", "-A", "p", "--no-edit"]));
}

#[test]
fn resolve_list_reports_nothing_when_jj_fails() {
    assert_eq!(guiguitsu::jujutsu::resolve_list_answer(Ok("a.txt 2-sided conflict".to_string())), "a.txt 2-sided conflict");
    assert_eq!(guiguitsu::jujutsu::resolve_list_answer(Err("Error: No conflicts found".to_string())), "");
}
