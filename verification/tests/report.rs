use guiguitsu::report::closing_lines;
use guiguitsu::cli::{stacks_to_rebase, AdvanceAction};
use guiguitsu::git_utils::CommitInfo;
use guiguitsu::jujutsu::parse_bookmarks_by_commit;
use guiguitsu::report::{
    action_lines, commit_line, file_lines, move_hint, stack_commit_lines, stack_line, trunk_line,
    unstacked_header, Label, REBASE_HINT,
};
use guiguitsu::stacks::StackInfo;

const RESET: &str = "\x1b[0m";
const RED: &str = "\x1b[31m";
const CYAN: &str = "\x1b[36m";
const GREEN: &str = "\x1b[32m";
const YELLOW: &str = "\x1b[33m";
const MAGENTA: &str = "\x1b[35m";
const DIM: &str = "\x1b[2m";

fn commit(change_id: &str, commit_id: &str, description: &str) -> CommitInfo {
    CommitInfo {
        change_id: change_id.to_string(),
        commit_id: commit_id.to_string(),
        description: description.to_string(),
        author: "a".to_string(),
        timestamp: "t".to_string(),
        changed_files: vec![],
    }
}

fn label(change_id: &str, subject: &str) -> Label {
    Label { change_id: change_id.to_string(), subject: subject.to_string() }
}

#[test]
fn trunk_line_shows_head_and_behind_notice() {
    let up_to_date = trunk_line("main", "kxqpyzwrmnop", "Release 1.2", None);
    assert_eq!(up_to_date, format!("{CYAN}main{RESET} ({GREEN}head: kxqpyzwr - Release 1.2{RESET})"));
    let behind = trunk_line("main", "abc", "Fix", Some("origin/main"));
    assert_eq!(
        behind,
        format!("{CYAN}main{RESET} ({GREEN}head: abc - Fix{RESET}) {RED}(trunk is behind origin/main){RESET}")
    );
}

#[test]
fn stack_line_shows_head_base_and_optional_root() {
    let plain = stack_line("feat", &label("aaaaaaaaaa", "top"), &label("bbbbbbbbbb", "fork"), None, false);
    assert_eq!(
        plain,
        format!("{CYAN}feat{RESET} ({GREEN}head: aaaaaaaa - top{RESET}, {YELLOW}base: bbbbbbbb - fork{RESET})")
    );
    let root = label("cccccccccc", "first");
    let full = stack_line("feat", &label("aaaa", "top"), &label("bbbb", "fork"), Some(&root), true);
    assert_eq!(
        full,
        format!(
            "{CYAN}feat{RESET} ({GREEN}head: aaaa - top{RESET}, {YELLOW}base: bbbb - fork{RESET}, {MAGENTA}root: cccccccc - first{RESET}) {RED}(needs rebase){RESET}"
        )
    );
}

#[test]
fn commit_line_tints_bookmarks_off_the_head() {
    let names = vec!["feat".to_string(), "wip".to_string()];
    let on_head = commit_line("zzzzzzzzzz", "0123456789ab", "Add it", Some(&names), true, false);
    assert_eq!(on_head, format!("  {DIM}zzzzzzzz / 01234567{RESET} Add it {DIM}[feat, wip]{RESET}"));
    let behind = commit_line("yy", "45", "Old", Some(&names), false, true);
    assert_eq!(
        behind,
        format!(
            "  {DIM}yy / 45{RESET} Old {DIM}[{RESET}{RED}feat{RESET}{DIM}, {RESET}{RED}wip{RESET}{DIM}]{RESET} {RED}(empty){RESET}"
        )
    );
    let bare = commit_line("yy", "45", "Old", None, false, false);
    assert_eq!(bare, format!("  {DIM}yy / 45{RESET} Old"));
}

#[test]
fn stack_commit_lines_use_bookmarks_of_each_commit() {
    let stack = StackInfo {
        name: "feat".to_string(),
        commits: vec![commit("c2c2c2c2c2", "s2s2s2s2s2", "second"), commit("c1", "s1", "first")],
        base_commit_id: "b".to_string(),
    };
    let map = parse_bookmarks_by_commit("s1\tfeat feat@origin\n");
    let lines = stack_commit_lines(&stack, &map, &vec![false, true]);
    assert_eq!(
        lines,
        vec![
            format!("  {DIM}c2c2c2c2 / s2s2s2s2{RESET} second"),
            format!(
                "  {DIM}c1 / s1{RESET} first {DIM}[{RESET}{RED}feat{RESET}{DIM}, {RESET}{RED}feat@origin{RESET}{DIM}]{RESET} {RED}(empty){RESET}"
            ),
        ]
    );
}

#[test]
fn file_lines_skip_blank_lines() {
    assert_eq!(
        file_lines("src/a.rs\n   \n  docs/b.md  \n"),
        vec![format!("    {GREEN}src/a.rs{RESET}"), format!("    {GREEN}docs/b.md{RESET}")]
    );
    assert!(file_lines("").is_empty());
}

#[test]
fn move_hint_names_the_only_unstacked_commit() {
    let one = vec![commit("qwertyuiopas", "s", "d")];
    assert_eq!(move_hint(&one), "Move commits with: gg move -r qwertyui <stack_commit>");
    let two = vec![commit("a", "s", "d"), commit("b", "t", "e")];
    assert_eq!(move_hint(&two), "Move commits with: gg move -r <sha1> <stack_commit>");
    assert_eq!(unstacked_header(), format!("{CYAN}Unstacked{RESET}"));
    assert_eq!(REBASE_HINT, "Rebase your stacks with \"gg rebase\"");
}

#[test]
fn advance_lines_for_dry_and_real_runs() {
    let set = AdvanceAction::SetBookmark { stack: 0, name: "feat".to_string(), commit_id: "abc123".to_string() };
    assert_eq!(action_lines(&set, "kkkkkkkkkkkk", false), vec!["Advanced bookmark 'feat' to kkkkkkkk".to_string()]);
    assert_eq!(
        action_lines(&set, "kkkk", true),
        vec!["[dry-run] jj bookmark set feat -r abc123".to_string(), "[dry-run] Advanced bookmark 'feat' to kkkk".to_string()]
    );
    let push = AdvanceAction::Push {
        stack: 1,
        remote: "origin".to_string(),
        sha: "abc123".to_string(),
        branch: "feat".to_string(),
    };
    assert_eq!(action_lines(&push, "k", false), vec!["Pushed 'feat' to origin".to_string()]);
    assert_eq!(
        action_lines(&push, "k", true),
        vec![
            "[dry-run] git push --force-with-lease origin abc123:refs/heads/feat".to_string(),
            "[dry-run] Pushed 'feat' to origin".to_string()
        ]
    );
}

#[test]
fn rebase_moves_roots_of_non_trunk_stacks() {
    let stacks = vec![
        StackInfo { name: "workspace".to_string(), commits: vec![commit("c", "w2", "d"), commit("c", "w1", "d")], base_commit_id: "b".to_string() },
        StackInfo { name: "main".to_string(), commits: vec![], base_commit_id: "t".to_string() },
        StackInfo { name: "empty".to_string(), commits: vec![], base_commit_id: "b".to_string() },
        StackInfo { name: "feat".to_string(), commits: vec![commit("c", "f1", "d")], base_commit_id: "b".to_string() },
    ];
    assert_eq!(
        stacks_to_rebase(&stacks, "main"),
        vec![("workspace".to_string(), "w1".to_string()), ("feat".to_string(), "f1".to_string())]
    );
}

#[test]
fn closing_lines_ask_for_a_rebase_when_anything_is_behind() {
    assert_eq!(closing_lines(&vec![false, true, false]), vec![String::new(), REBASE_HINT.to_string()]);
    assert!(closing_lines(&vec![false, false]).is_empty());
    assert!(closing_lines(&vec![]).is_empty());
}
