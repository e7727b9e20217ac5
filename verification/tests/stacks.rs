use guiguitsu::config::StackEntry;
use guiguitsu::git_utils::CommitInfo;
use guiguitsu::stacks::{match_parent, GitStackProvider, StackInfo, StacksWalk};

fn commit(id: &str) -> CommitInfo {
    CommitInfo {
        change_id: id.to_string(),
        commit_id: id.to_string(),
        description: format!("commit {id}"),
        author: "a".to_string(),
        timestamp: "t".to_string(),
        changed_files: vec![],
    }
}

fn make_stack_entries(names: &[&str]) -> Vec<StackEntry> {
    names
        .iter()
        .map(|n| StackEntry {
            name: n.to_string(),
            local_branch: if *n == "main" { None } else { Some(n.to_string()) },
            remote_branch: Some(format!("{n}@origin")),
        })
        .collect()
}

fn provider(names: &[&str]) -> GitStackProvider {
    GitStackProvider::new("/r".to_string(), "main".to_string(), "origin".to_string(), make_stack_entries(names), None)
}

#[test]
fn head_commit_id_returns_none_for_empty_commits() {
    let stack = StackInfo { name: "empty".to_string(), commits: vec![], base_commit_id: "abc123".to_string() };
    assert!(stack.head_commit_id().is_none());
}

#[test]
fn root_commit_id_returns_none_for_empty_commits() {
    let stack = StackInfo { name: "empty".to_string(), commits: vec![], base_commit_id: "abc123".to_string() };
    assert!(stack.root_commit_id().is_none());
}

#[test]
fn head_and_root_are_first_and_last_commit() {
    let stack = StackInfo { name: "s".to_string(), commits: vec![commit("c3"), commit("c2"), commit("c1")], base_commit_id: "b".to_string() };
    assert_eq!(stack.head_commit_id(), Some("c3"));
    assert_eq!(stack.root_commit_id(), Some("c1"));
}

#[test]
fn get_stacks_errors_on_stack_count_mismatch() {
    let p = provider(&["workspace", "main", "extra"]);
    let err = p.check_parent_count(2).unwrap_err();
    assert!(err.contains("does not match"), "unexpected error: {err}");
    assert_eq!(err, "config stacks count (3) does not match git merge parents count (2)");
    assert!(provider(&["workspace", "main"]).check_parent_count(2).is_ok());
}

#[test]
fn branch_refs_and_matching_parents() {
    let p = provider(&["workspace", "main", "nolocal"]);
    assert_eq!(p.branch_ref(0), Some("refs/heads/workspace".to_string()));
    assert_eq!(p.branch_ref(1), Some("refs/remotes/origin/main".to_string()));
    let mut q = provider(&["x"]);
    q.config_stacks[0].local_branch = None;
    assert_eq!(q.branch_ref(0), None);
    let parents = vec!["p0".to_string(), "p1".to_string(), "p2".to_string()];
    assert_eq!(match_parent(&parents, "p1", &vec![false, false, false]), Some(1));
    assert_eq!(match_parent(&parents, "zz", &vec![false, false, true]), Some(2));
    assert_eq!(match_parent(&parents, "zz", &vec![false, false, false]), None);
}

#[test]
fn get_stacks_returns_correct_stack_names_from_layout() {
    let p = provider(&["workspace", "main"]);
    // The workspace branch matched the second parent, trunk the first.
    let layout = p.layout(&vec![Some(1), Some(0)]).unwrap();
    assert_eq!(layout.parent_index_for, vec![1, 0]);
    assert_eq!(layout.trunk_index, 1);
    let layout = p.layout(&vec![None, None]).unwrap();
    assert_eq!(layout.parent_index_for, vec![0, 1]);
    let err = provider(&["a", "b"]).layout(&vec![None, None]).err().unwrap();
    assert_eq!(err, "trunk 'main' not found in config stacks");

    let stacks = p.assemble(&vec!["base".to_string(), String::new()], vec![vec![commit("w2"), commit("w1")], vec![]], "trunksha");
    let names: Vec<&str> = stacks.iter().map(|s| s.name.as_str()).collect();
    assert_eq!(names, vec!["workspace", "main"]);
    assert_eq!(stacks[0].base_commit_id, "base");
    assert_eq!(stacks[0].commits.len(), 2);
    assert_eq!(stacks[1].base_commit_id, "trunksha");
    assert!(stacks[1].commits.is_empty());
}

#[test]
fn get_stacks_returns_workspace_and_trunk_from_repo1() {
    // repo1 has 2 merge parents (workspace + main), so 0 extra stack entries.
    let p = provider(&["workspace", "main"]);
    assert!(p.check_parent_count(2).is_ok());
    let stacks = p.assemble(&vec!["fork".to_string(), String::new()], vec![vec![commit("w1")], vec![]], "mainsha");
    assert_eq!(stacks.len(), 2);
}

#[test]
fn get_stacks_returns_correct_stack_names_from_repo1() {
    let p = provider(&["workspace", "main"]);
    let stacks = p.assemble(&vec!["fork".to_string(), String::new()], vec![vec![commit("w1")], vec![]], "mainsha");
    let names: Vec<&str> = stacks.iter().map(|s| s.name.as_str()).collect();
    assert_eq!(names, vec!["workspace", "main"]);
}

#[test]
fn base_commit_id_is_fork_point() {
    // The base of a stack is what `git merge-base <trunk> <stack>` printed.
    let p = provider(&["workspace", "main"]);
    let expected = "f0f0f0".to_string();
    let stacks = p.assemble(&vec![expected.clone(), String::new()], vec![vec![commit("w1")], vec![]], "mainsha");
    assert_eq!(stacks[0].base_commit_id, expected);
}

#[test]
fn head_commit_id_is_first_commit_in_stack() {
    let p = provider(&["workspace", "main"]);
    let stacks = p.assemble(&vec!["b".to_string(), String::new()], vec![vec![commit("w3"), commit("w2"), commit("w1")], vec![]], "m");
    let stack = &stacks[0];
    let head = stack.head_commit_id().expect("stack should not be empty");
    assert_eq!(head, stack.commits.first().unwrap().commit_id);
}

#[test]
fn root_commit_id_is_last_commit_in_stack() {
    let p = provider(&["workspace", "main"]);
    let stacks = p.assemble(&vec!["b".to_string(), String::new()], vec![vec![commit("w3"), commit("w2"), commit("w1")], vec![]], "m");
    let stack = &stacks[0];
    let root = stack.root_commit_id().expect("stack should not be empty");
    assert_eq!(root, stack.commits.last().unwrap().commit_id);
}

#[test]
fn trunk_sha_is_the_parent_the_layout_gives_trunk() {
    let p = provider(&["workspace", "main"]);
    let parents = vec!["wsha".to_string(), "tsha".to_string()];
    let layout = p.layout(&vec![Some(1), Some(0)]).unwrap();
    assert_eq!(p.trunk_sha(&parents, &layout), Some("wsha".to_string()));
    let layout = p.layout(&vec![None, None]).unwrap();
    assert_eq!(p.trunk_sha(&parents, &layout), Some("tsha".to_string()));
    assert_eq!(p.trunk_sha(&vec!["only".to_string()], &layout), None);
}

#[test]
fn walk_from_head_without_merge_gives_no_stacks() {
    let p = provider(&["workspace", "main"]);
    match p.walk_step("root", vec![]) {
        StacksWalk::Done(stacks) => assert!(stacks.is_empty()),
        _ => panic!("expected no stacks"),
    }
    match p.walk_step("c", vec!["p".to_string()]) {
        StacksWalk::Next(n) => assert_eq!(n, "p"),
        _ => panic!("expected to go on"),
    }
    match p.walk_step("m", vec!["a".to_string(), "b".to_string()]) {
        StacksWalk::Parents(ps) => assert_eq!(ps, vec!["a".to_string(), "b".to_string()]),
        _ => panic!("expected the merge parents"),
    }
}
