use guiguitsu::git_utils::{child_walk_step, ChildWalk};
use guiguitsu::git_utils::{
    current_head_sha, parent_shas, child_merge_commit, children_of, command_output, commits_in_range, create_branch, exit_answer,
    failure_details, find_existing_workspace_merge, find_workspace_merge_commit, git_push,
    has_staged_changed, is_merge_commit, parse_branch_name, parse_children,
    parse_commit_by_description, parse_commits_in_range, parse_parent_shas,
    validate_startup_requirements, validate_tool_requirements, CommitInfo, DiffCollector, MergeWalk,
};
use guiguitsu::invocation::Tool;

fn strings(v: &[&str]) -> Vec<String> {
    v.iter().map(|s| s.to_string()).collect()
}

#[test]
fn add_branch_creates_local_branch_at_trunk() {
    // The branch is created by `git branch v1 main` in the repository.
    let inv = create_branch("/repo", "v1", "main");
    assert_eq!(inv.tool, Tool::Git);
    assert_eq!(inv.dir.as_deref(), Some("/repo"));
    assert_eq!(inv.args, strings(&["branch", "v1", "main"]));
}

#[test]
fn is_merge_commit_returns_true_for_merge() {
    // `git rev-list --parents -n 1 HEAD` of a merge lists the commit and two parents.
    assert_eq!(is_merge_commit("mmm aaa bbb", "mmm"), Ok(true));
}

#[test]
fn is_merge_commit_returns_false_for_regular_commit() {
    assert_eq!(is_merge_commit("ccc aaa", "ccc"), Ok(false));
}

#[test]
fn is_merge_commit_on_test_gitutils_repo() {
    assert_eq!(is_merge_commit("merge p1 p2\n", "merge"), Ok(true));
    assert_eq!(is_merge_commit("root", "root"), Ok(false));
    assert!(is_merge_commit("", "x").is_err());
}

#[test]
fn parse_parent_shas_reads_words_after_commit() {
    assert_eq!(parse_parent_shas("c p1 p2", "c"), Ok(strings(&["p1", "p2"])));
    assert_eq!(parse_parent_shas("c", "c"), Ok(vec![]));
    assert_eq!(parse_parent_shas("  \n", "abc"), Err("empty output for commit abc".to_string()));
}

#[test]
fn children_of_returns_correct_children() {
    let out = "k1 root\nk2 other root\nk3 other\n\nk4\n";
    assert_eq!(parse_children(out, "root"), strings(&["k1", "k2"]));
    let inv = children_of("/r", &vec![]);
    assert_eq!(inv.args, strings(&["rev-list", "--parents", "--exclude=refs/jj/*", "--all"]));
    let inv = children_of("/r", &strings(&["a..b"]));
    assert_eq!(inv.args, strings(&["rev-list", "--parents", "a..b"]));
}

#[test]
fn children_of_merge_commit_has_no_children_at_tip() {
    let out = "tip merge-parent-1\nmerge-parent-1 base";
    assert!(parse_children(out, "tip").is_empty());
}

#[test]
fn child_merge_commit_finds_merge_via_linear_path() {
    assert_eq!(child_merge_commit("main3", &strings(&["merge"])), Ok("merge".to_string()));
}

#[test]
fn child_merge_commit_bails_on_ambiguous_children() {
    let err = child_merge_commit("root", &strings(&["a", "b", "c"])).unwrap_err();
    assert!(err.contains("ambiguous"), "error: {err}");
    assert_eq!(err, "commit root has 3 children; path is ambiguous");
}

#[test]
fn child_merge_commit_bails_at_tip_with_no_merge() {
    let err = child_merge_commit("tip", &vec![]).unwrap_err();
    assert!(err.contains("reached tip"), "error: {err}");
}

#[test]
fn find_existing_workspace_merge_returns_some_when_merge_exists() {
    let parents = strings(&["ws", "t1"]);
    let r = find_existing_workspace_merge("m", &parents, "ws", &vec![false, true]);
    assert_eq!(r, Some("m".to_string()));
}

#[test]
fn find_existing_workspace_merge_returns_none_without_merge() {
    let parents = strings(&["ws", "t1"]);
    assert_eq!(find_existing_workspace_merge("m", &parents, "ws", &vec![true, false]), None);
    assert_eq!(find_existing_workspace_merge("m", &parents, "other", &vec![true, true]), None);
}

#[test]
fn walk_to_workspace_merge_commit() {
    match find_workspace_merge_commit("h", strings(&["p"])) {
        MergeWalk::Next(p) => assert_eq!(p, "p"),
        _ => panic!("expected to continue"),
    }
    match find_workspace_merge_commit("m", strings(&["a", "b"])) {
        MergeWalk::Found(s, ps) => {
            assert_eq!(s, "m");
            assert_eq!(ps, strings(&["a", "b"]));
        }
        _ => panic!("expected a merge"),
    }
    assert!(matches!(find_workspace_merge_commit("r", vec![]), MergeWalk::Exhausted));
}

#[test]
fn commits_in_range_matches_git_rev_list() {
    let inv = commits_in_range("/r", "aaa", "bbb");
    assert_eq!(inv.args[3], "aaa..bbb");
    let out = "COMMIT:\u{1f}c2\u{1f}Ann\u{1f}2024-01-02 10:00:00 +0000\u{1f}second one\n\nsrc/a.rs\nsrc/b.rs\nCOMMIT:\u{1f}c1\u{1f}Bob\u{1f}2024-01-01 10:00:00 +0000\u{1f}first\u{1f}with sep\n\nREADME\n";
    let commits = parse_commits_in_range(out);
    assert_eq!(commits.len(), 2);
    assert_eq!(commits[0].commit_id, "c2");
    assert_eq!(commits[0].author, "Ann");
    assert_eq!(commits[0].timestamp, "2024-01-02 10:00:00 +0000");
    assert_eq!(commits[0].description, "second one");
    assert_eq!(commits[0].changed_files, strings(&["src/a.rs", "src/b.rs"]));
    assert_eq!(commits[1].description, "first\u{1f}with sep");
    assert_eq!(commits[1].changed_files, strings(&["README"]));
    assert!(commits.iter().all(|c| c.change_id == c.commit_id));
}

#[test]
fn commits_in_range_ignores_files_before_first_header() {
    assert!(parse_commits_in_range("stray\n").is_empty());
    assert!(parse_commits_in_range("").is_empty());
}

#[test]
fn is_conflicted_returns_true_after_abandoning_parent_commit() {
    let c = CommitInfo {
        change_id: "x".into(),
        commit_id: "x".into(),
        description: "use std::format in main.cpp".into(),
        author: "a".into(),
        timestamp: "t".into(),
        changed_files: strings(&["main.cpp", ".jjconflict-base-0/main.cpp"]),
    };
    assert!(c.is_conflicted(), "expected commit to be conflicted after abandoning its parent");
    let clean = CommitInfo { changed_files: strings(&["main.cpp"]), ..c };
    assert!(!clean.is_conflicted());
}

#[test]
fn has_staged_changed_returns_false_without_staged_changes() {
    // `git diff-index --quiet` exits 0 when nothing is staged.
    assert_eq!(exit_answer(Some(0), false), Some(false));
    assert_eq!(exit_answer(Some(1), false), Some(true));
    assert_eq!(exit_answer(Some(128), false), None);
    assert_eq!(exit_answer(None, true), None);
    assert_eq!(exit_answer(Some(0), true), Some(true));
    let inv = has_staged_changed("/r");
    assert_eq!(inv.args, strings(&["diff-index", "--quiet", "--cached", "HEAD", "--"]));
}

#[test]
fn validate_startup_requirements_fails_when_jj_metadata_is_missing() {
    let err = validate_startup_requirements(false, true).unwrap_err();
    assert!(err.contains("missing .jj in repo"));
    let err = validate_startup_requirements(true, false).unwrap_err();
    assert!(err.starts_with("missing .guiguitsu.json in repo"));
    assert!(validate_startup_requirements(true, true).is_ok());
    let tools = validate_tool_requirements();
    assert_eq!(tools.len(), 2);
    assert_eq!(tools[1].tool, Tool::Jj);
    assert!(tools[0].dir.is_none());
}

#[test]
fn find_commit_by_description_picks_first_exact_subject() {
    let out = "s1\u{1f}other\ns2\u{1f}  wanted  \ns3\u{1f}wanted";
    assert_eq!(parse_commit_by_description(out, "wanted"), Ok("s2".to_string()));
    assert_eq!(
        parse_commit_by_description(out, "missing"),
        Err("no commit found with description: missing".to_string())
    );
}

#[test]
fn branch_name_for_takes_first_line() {
    assert_eq!(parse_branch_name("feature\nmain", "x"), Ok("feature".to_string()));
    assert_eq!(parse_branch_name("", "abc"), Err("no branch points at abc".to_string()));
}

#[test]
fn command_output_is_trimmed() {
    assert_eq!(command_output("  abc\n"), "abc");
    assert_eq!(failure_details("  \n", " out "), "out");
    assert_eq!(failure_details(" err ", "out"), "err");
}

#[test]
fn git_push_builds_refspec() {
    let inv = git_push("/r", "origin", "abc", "feat");
    assert_eq!(inv.args, strings(&["push", "--force-with-lease", "origin", "abc:refs/heads/feat"]));
}

#[test]
fn diff_collector_numbers_hunks() {
    let mut d = DiffCollector::new();
    d.on_hunk("@@ -1 +1 @@  \n");
    d.on_line('-', "old\n");
    d.on_line('+', "new  ");
    d.on_line(' ', "same");
    d.on_hunk("@@ -9 +9 @@");
    d.on_line('+', "x");
    let kinds: Vec<i32> = d.lines.iter().map(|l| l.kind).collect();
    assert_eq!(kinds, vec![3, 2, 1, 0, 3, 1]);
    let hunks: Vec<i32> = d.lines.iter().map(|l| l.hunk_id).collect();
    assert_eq!(hunks, vec![1, 1, 1, 1, 2, 2]);
    assert_eq!(d.lines[0].content, "@@ -1 +1 @@");
    assert_eq!(d.lines[1].content, "-old");
    assert_eq!(d.lines[2].content, "+new");
}

#[test]
fn current_head_sha_matches_git_rev_parse_head() {
    let inv = current_head_sha("/repo");
    assert_eq!(inv.tool, Tool::Git);
    assert_eq!(inv.dir.as_deref(), Some("/repo"));
    assert_eq!(inv.args, strings(&["rev-parse", "HEAD"]));
    // The sha is the trimmed output of that command.
    assert_eq!(command_output("0123abcd\n"), "0123abcd");
}

#[test]
fn parent_shas_returns_one_parent_for_non_merge_commit() {
    let inv = parent_shas("/repo", "c2");
    assert_eq!(inv.args, strings(&["rev-list", "--parents", "-n", "1", "c2"]));
    assert_eq!(parse_parent_shas("c2 c1", "c2"), Ok(strings(&["c1"])));
}

#[test]
fn has_staged_changed_returns_true_with_staged_changes() {
    // `git diff-index --quiet` exits 1 when something is staged.
    assert_eq!(exit_answer(Some(1), false), Some(true));
}

#[test]
fn child_walk_step_stops_at_merge_and_fails_at_tips_and_forks() {
    match child_walk_step("c0", &strings(&["m"]), true) {
        ChildWalk::Found(m) => assert_eq!(m, "m"),
        _ => panic!("expected the merge"),
    }
    match child_walk_step("c0", &strings(&["c1"]), false) {
        ChildWalk::Next(c) => assert_eq!(c, "c1"),
        _ => panic!("expected to go on"),
    }
    match child_walk_step("tip", &strings(&[]), false) {
        ChildWalk::Failed(e) => assert_eq!(e, "reached tip without finding a merge commit (at tip)"),
        _ => panic!("expected a failure"),
    }
    match child_walk_step("main3", &strings(&["a", "b", "c"]), true) {
        ChildWalk::Failed(e) => assert_eq!(e, "commit main3 has 3 children; path is ambiguous"),
        _ => panic!("expected a failure"),
    }
}
