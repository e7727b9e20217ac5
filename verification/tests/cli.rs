use guiguitsu::cli::{action_command, parse_create_config_command};
use guiguitsu::invocation::Tool;
use guiguitsu::cli::{new_stack_head, StackHead};
use guiguitsu::cli::{
    advance_bookmarks, apply_branch, change_dir_prefix, create_config, help_text,
    list_removable_stacks, merge_command, move_commit, new_commit, parse_command, rebase_stacks,
    remove_stack, reread_stacks, short_id, is_behind, stack_to_remove, AdvanceAction, CliCommand,
};
use guiguitsu::config::{Config, StackEntry};
use guiguitsu::git_utils::CommitInfo;
use guiguitsu::jujutsu::parse_bookmarks_by_commit;
use guiguitsu::stacks::{GitStackProvider, StackInfo};

fn strings(v: &[&str]) -> Vec<String> {
    v.iter().map(|s| s.to_string()).collect()
}

fn parse(args: &[&str]) -> Result<CliCommand, String> {
    parse_command(&strings(args), "/cwd")
}

fn entry(name: &str, local: Option<&str>) -> StackEntry {
    StackEntry { name: name.to_string(), local_branch: local.map(|s| s.to_string()), remote_branch: Some(format!("{name}@origin")) }
}

fn config() -> Config {
    Config {
        workspace_branch: "workspace".to_string(),
        workspace_remote: "origin".to_string(),
        trunk: "main".to_string(),
        stacks: vec![entry("workspace", Some("workspace")), entry("main", None)],
        merge_commit: Some("zzkomqmq".to_string()),
    }
}

fn names(c: &Config) -> Vec<String> {
    c.stacks.iter().map(|s| s.name.clone()).collect()
}

#[test]
fn help_is_asked_anywhere() {
    assert!(matches!(parse(&[]), Ok(CliCommand::Help)));
    assert!(matches!(parse(&["stacks", "--help"]), Ok(CliCommand::Help)));
    assert!(matches!(parse(&["move", "-h"]), Ok(CliCommand::Help)));
    let text = help_text("gg");
    assert!(text.starts_with("Usage: gg [-C <path>] [OPTIONS] [<repo-path>]\n       gg [-C <path>] create-config"));
    assert!(text.contains("rm-stack [<branch>]"));
}

#[test]
fn change_dir_prefix_reads_path() {
    assert_eq!(change_dir_prefix(&strings(&["-C", "/x", "stacks"])), Ok(Some("/x".to_string())));
    assert_eq!(change_dir_prefix(&strings(&["-C"])), Err("-C requires a path argument".to_string()));
    assert_eq!(change_dir_prefix(&strings(&["stacks"])), Ok(None));
}

#[test]
fn run_command_options() {
    match parse(&["--print-merge-command", "-v", "repo"]) {
        Ok(CliCommand::Run { repo_path, print_merge_command, verbose }) => {
            assert_eq!(repo_path, "repo");
            assert!(print_merge_command && verbose);
        }
        _ => panic!("expected run"),
    }
    match parse(&["--reread-stacks"]) {
        Ok(CliCommand::RereadStacks { repo_path }) => assert_eq!(repo_path, "/cwd"),
        _ => panic!("expected reread"),
    }
    match parse(&["--reread-stacks", "--remove-stack", "foo"]) {
        Ok(CliCommand::RemoveStack { stack_name, .. }) => assert_eq!(stack_name, "foo"),
        _ => panic!("expected remove"),
    }
    match parse(&["--remove-stack=bar"]) {
        Ok(CliCommand::RemoveStack { stack_name, .. }) => assert_eq!(stack_name, "bar"),
        _ => panic!("expected remove"),
    }
    assert_eq!(parse(&["--remove-stack="]).err(), Some("--remove-stack cannot be empty".to_string()));
    assert_eq!(parse(&["--remove-stack"]).err(), Some("--remove-stack requires a stack name".to_string()));
    assert_eq!(parse(&["--bogus"]).err(), Some("unknown argument: --bogus".to_string()));
    assert_eq!(parse(&["a", "b"]).err(), Some("unexpected argument: b".to_string()));
}

#[test]
fn create_config_options() {
    match parse(&["create-config", "--workspace-branch=ws", "-A", "abc", "--merge-commit=mc", "dir"]) {
        Ok(CliCommand::CreateConfig { repo_path, config, after_sha, merge_commit }) => {
            assert_eq!(repo_path, "dir");
            assert_eq!(config.workspace_branch, "ws");
            assert_eq!(config.trunk, "main");
            assert_eq!(config.workspace_remote, "origin");
            assert_eq!(names(&config), strings(&["workspace", "main"]));
            assert_eq!(config.stacks[0].remote_branch.as_deref(), Some("workspace@origin"));
            assert_eq!(config.stacks[1].local_branch, None);
            assert_eq!(config.merge_commit.as_deref(), Some("mc"));
            assert_eq!(after_sha.as_deref(), Some("abc"));
            assert_eq!(merge_commit.as_deref(), Some("mc"));
        }
        _ => panic!("expected create-config"),
    }
    assert_eq!(
        parse(&["create-config", "--workspace-branch=ws", "-A", "abc"]).err(),
        Some("-A requires --merge-commit to be specified".to_string())
    );
    assert_eq!(
        parse(&["create-config"]).err(),
        Some("missing required argument: --workspace-branch=<branch>".to_string())
    );
    assert_eq!(parse(&["create-config", "--trunk="]).err(), Some("--trunk cannot be empty".to_string()));
    match parse(&["create-config", "--workspace-branch=ws", "--trunk=dev", "--workspace-remote=up"]) {
        Ok(CliCommand::CreateConfig { config, .. }) => {
            assert_eq!(config.stacks[1].remote_branch.as_deref(), Some("dev@up"));
        }
        _ => panic!("expected create-config"),
    }
}

#[test]
fn subcommands_parse() {
    match parse(&["stacks", "-v", "r1", "r2"]) {
        Ok(CliCommand::Stacks { repo_path, verbose }) => {
            assert_eq!(repo_path, "r2");
            assert!(verbose);
        }
        _ => panic!("expected stacks"),
    }
    match parse(&["advance", "--push", "--dry", "--other"]) {
        Ok(CliCommand::Advance { repo_path, push, dry }) => {
            assert_eq!(repo_path, "/cwd");
            assert!(push && dry);
        }
        _ => panic!("expected advance"),
    }
    match parse(&["rebase"]) {
        Ok(CliCommand::Rebase { repo_path }) => assert_eq!(repo_path, "/cwd"),
        _ => panic!("expected rebase"),
    }
    assert!(matches!(parse(&["rm-stack"]), Ok(CliCommand::ListStacks { .. })));
    assert!(matches!(parse(&["rm-stack", "foo"]), Ok(CliCommand::RemoveStack { .. })));
    match parse(&["new-stack", "feat"]) {
        Ok(CliCommand::ApplyBranch { repo_path, branch_name }) => {
            assert_eq!(repo_path, "/cwd");
            assert_eq!(branch_name, "feat");
        }
        _ => panic!("expected new-stack"),
    }
    assert_eq!(parse(&["new-stack"]).err(), Some("new-stack requires a <branch> argument".to_string()));
    match parse(&["move", "-s", "abc", "after", "repo"]) {
        Ok(CliCommand::Move { repo_path, sha, after_commit }) => {
            assert_eq!((repo_path.as_str(), sha.as_str(), after_commit.as_str()), ("repo", "abc", "after"));
        }
        _ => panic!("expected move"),
    }
    assert_eq!(parse(&["move", "after"]).err(), Some("move requires -r <sha> or -s <sha>".to_string()));
    assert_eq!(parse(&["move", "-r"]).err(), Some("-r requires a SHA argument".to_string()));
    match parse(&["new", "parent", "-mhello"]) {
        Ok(CliCommand::New { parent, message, .. }) => {
            assert_eq!(parent, "parent");
            assert_eq!(message.as_deref(), Some("hello"));
        }
        _ => panic!("expected new"),
    }
    match parse(&["new", "--message=m", "p"]) {
        Ok(CliCommand::New { message, .. }) => assert_eq!(message.as_deref(), Some("m")),
        _ => panic!("expected new"),
    }
    assert_eq!(parse(&["new"]).err(), Some("new requires a <parent> argument".to_string()));
    assert_eq!(parse(&["new", "-x"]).err(), Some("unknown argument: -x".to_string()));
}

#[test]
fn cli_apply_branch_updates_config_stacks() {
    let mut c = config();
    let mut parents = strings(&["ws", "tr"]);
    apply_branch(&mut c, "bar", &mut parents, "newsha".to_string());
    assert_eq!(c.stacks.last().map(|s| s.name.as_str()), Some("bar"));
    assert_eq!(c.stacks.last().unwrap().remote_branch.as_deref(), Some("bar@origin"));
    assert_eq!(parents, strings(&["ws", "tr", "newsha"]));
}

#[test]
fn remove_stack_drops_branch_from_config_and_merge_parents() {
    let mut c = config();
    let mut parents = strings(&["ws", "tr"]);
    apply_branch(&mut c, "foo", &mut parents, "foosha".to_string());
    assert_eq!(parents.len(), 3);
    remove_stack(&mut c, "foo", &mut parents).unwrap();
    assert!(c.stacks.iter().all(|s| s.name != "foo"));
    assert_eq!(parents, strings(&["ws", "tr"]));
    assert_eq!(remove_stack(&mut c, "main", &mut parents), Err("cannot remove the 'main' stack".to_string()));
    assert_eq!(remove_stack(&mut c, "nope", &mut parents), Err("stack 'nope' not found in config".to_string()));
    c.stacks.push(entry("far", Some("far")));
    assert_eq!(
        remove_stack(&mut c, "far", &mut parents),
        Err("stack index 2 is out of range (merge commit has 2 parents)".to_string())
    );
}

#[test]
fn reread_and_create_number_extra_stacks() {
    let mut c = config();
    c.stacks.push(entry("custom", Some("custom")));
    reread_stacks(&mut c, 4);
    assert_eq!(names(&c), strings(&["workspace", "main", "stack1", "stack2"]));
    assert_eq!(c.stacks[3].remote_branch.as_deref(), Some("stack2@origin"));
    let mut c = config();
    create_config(&mut c, 3);
    assert_eq!(names(&c), strings(&["workspace", "main", "stack1"]));
    let mut c = config();
    create_config(&mut c, 1);
    assert_eq!(names(&c), strings(&["workspace", "main"]));
}

#[test]
fn removable_stacks_skip_workspace_and_trunk() {
    let mut c = config();
    c.stacks.push(entry("a", Some("a")));
    assert_eq!(list_removable_stacks(&c), strings(&["a"]));
}

#[test]
fn rebase_replaces_trunk_parent() {
    let c = config();
    let mut parents = strings(&["ws", "oldtrunk", "s1"]);
    rebase_stacks(&c, &mut parents).unwrap();
    assert_eq!(parents, strings(&["ws", "main@origin", "s1"]));
    let mut short = strings(&["ws"]);
    assert_eq!(
        rebase_stacks(&c, &mut short),
        Err("trunk index 1 is out of range (merge commit has 1 parents)".to_string())
    );
}

fn commit(id: &str) -> CommitInfo {
    CommitInfo {
        change_id: format!("ch{id}"),
        commit_id: id.to_string(),
        description: String::new(),
        author: String::new(),
        timestamp: String::new(),
        changed_files: vec![],
    }
}

#[test]
fn advance_moves_outdated_bookmarks_and_pushes() {
    let stacks = vec![
        StackInfo { name: "workspace".into(), commits: vec![commit("h"), commit("o")], base_commit_id: "b".into() },
        StackInfo { name: "main".into(), commits: vec![], base_commit_id: "t".into() },
    ];
    let entries = vec![entry("workspace", Some("workspace")), entry("main", None)];
    let map = parse_bookmarks_by_commit("o\tworkspace\n");
    let plan = advance_bookmarks(&stacks, &entries, &map, true);
    assert_eq!(plan.len(), 2);
    match &plan[0] {
        AdvanceAction::SetBookmark { stack, name, commit_id } => {
            assert_eq!((*stack, name.as_str(), commit_id.as_str()), (0, "workspace", "h"));
        }
        _ => panic!("expected set"),
    }
    match &plan[1] {
        AdvanceAction::Push { remote, sha, branch, .. } => {
            assert_eq!((remote.as_str(), sha.as_str(), branch.as_str()), ("origin", "h", "workspace"));
        }
        _ => panic!("expected push"),
    }
    let map = parse_bookmarks_by_commit("h\tworkspace workspace@origin\n");
    assert!(advance_bookmarks(&stacks, &entries, &map, true).is_empty());
}

#[test]
fn new_commit_creates_child_after_parent_with_message() {
    let inv = new_commit("/r", "parentsha", Some("my new commit"));
    assert_eq!(inv.args, strings(&["new", "-A", "parentsha", "--no-edit", "-m", "my new commit"]));
}

#[test]
fn move_commit_then_returns_to_merge() {
    let c = config();
    let invs = move_commit("/r", &c, "abc", "def");
    assert_eq!(invs.len(), 2);
    assert_eq!(invs[0].args, strings(&["rebase", "-r", "abc", "-A", "def"]));
    assert_eq!(invs[1].args, strings(&["new", "zzkomqmq"]));
}

#[test]
fn listing_helpers() {
    assert_eq!(short_id("0123456789ab"), "01234567");
    assert_eq!(short_id("abc"), "abc");
    assert!(is_behind(Some(true), Some(false)));
    assert!(!is_behind(None, Some(false)));
    assert!(!is_behind(Some(true), None));
    let cmd = merge_command("mmm", 1, "main@origin", &strings(&["c0", "ignored", "c2"]));
    assert_eq!(cmd, "jj rebase -s mmm -d c0 -d main@origin -d c2");
}

#[test]
fn stack_to_remove_checks_the_configuration_first() {
    let mut c = config();
    c.stacks.push(entry("feat", Some("feat")));
    assert_eq!(stack_to_remove(&c, "feat"), Ok(2));
    assert_eq!(stack_to_remove(&c, "workspace"), Err("cannot remove the 'workspace' stack".to_string()));
    assert_eq!(stack_to_remove(&c, "ghost"), Err("stack 'ghost' not found in config".to_string()));
}

#[test]
fn rebase_needs_a_merge_commit() {
    let mut c = config();
    c.merge_commit = None;
    let mut parents = strings(&["ws", "tr"]);
    assert_eq!(
        rebase_stacks(&c, &mut parents),
        Err("no merge_commit in config; run with --print-stacks first or set it manually".to_string())
    );
    assert_eq!(parents, strings(&["ws", "tr"]));
}

#[test]
fn created_config_rereads_alike() {
    let created = match parse(&["create-config", "--workspace-branch=ws", "--trunk=trunk", "--workspace-remote=up"]) {
        Ok(CliCommand::CreateConfig { config, .. }) => config,
        _ => panic!("expected create-config"),
    };
    let mut a = created.clone();
    create_config(&mut a, 5);
    let mut b = created.clone();
    reread_stacks(&mut b, 5);
    assert_eq!(names(&a), names(&b));
    assert_eq!(names(&a), strings(&["workspace", "trunk", "stack1", "stack2", "stack3"]));
    let remotes = |c: &Config| c.stacks.iter().map(|s| s.remote_branch.clone()).collect::<Vec<_>>();
    assert_eq!(remotes(&a), remotes(&b));
}

#[test]
fn cli_apply_branch_new_branch_appears_in_stacks() {
    // repo1's merge commit has the workspace and trunk as parents; new-stack adds a third.
    let mut c = config();
    let mut parents = strings(&["ws", "tr"]);
    apply_branch(&mut c, "foo", &mut parents, "foosha".to_string());
    let provider = GitStackProvider::new("/repo".to_string(), c.trunk.clone(), c.workspace_remote.clone(), c.stacks.clone(), None);
    assert!(provider.check_parent_count(parents.len()).is_ok());
    let layout = provider.layout(&vec![None, None, None]).unwrap();
    assert_eq!(layout.parent_index_for, vec![0, 1, 2]);
    let stacks = provider.assemble(&strings(&["b0", "", "b2"]), vec![vec![], vec![], vec![]], "tr");
    let names: Vec<&str> = stacks.iter().map(|s| s.name.as_str()).collect();
    assert_eq!(names.len(), 3, "expected 3 stacks, got: {names:?}");
    assert!(names.contains(&"foo"), "expected 'foo' in stacks, got: {names:?}");
}

#[test]
fn new_stack_uses_existing_branch_or_creates_it_off_trunk() {
    match new_stack_head(&config(), Some("abc".to_string())) {
        StackHead::Existing(h) => assert_eq!(h, "abc"),
        _ => panic!("expected the existing head"),
    }
    match new_stack_head(&config(), None) {
        StackHead::OffTrunk(t) => assert_eq!(t, "main@origin"),
        _ => panic!("expected a new commit off trunk"),
    }
}

#[test]
fn short_id_keeps_eight_bytes() {
    assert_eq!(short_id("\u{e9}\u{e9}\u{e9}\u{e9}\u{e9}\u{e9}\u{e9}\u{e9}\u{e9}"), "\u{e9}\u{e9}\u{e9}\u{e9}");
    let s = "ab\u{e9}cdefgh";
    assert_eq!(short_id(s), &s[..8]);
}

#[test]
fn dry_runs_run_no_command() {
    let set = AdvanceAction::SetBookmark { stack: 0, name: "feat".to_string(), commit_id: "c1".to_string() };
    assert!(action_command("/r", &set, true).is_none());
    let inv = action_command("/r", &set, false).unwrap();
    assert_eq!(inv.tool, Tool::Jj);
    assert_eq!(inv.args, strings(&["bookmark", "set", "feat", "-r", "c1"]));
    let push = AdvanceAction::Push { stack: 0, remote: "origin".to_string(), sha: "c1".to_string(), branch: "feat".to_string() };
    assert!(action_command("/r", &push, true).is_none());
    let inv = action_command("/r", &push, false).unwrap();
    assert_eq!(inv.tool, Tool::Git);
    assert_eq!(inv.args, strings(&["push", "--force-with-lease", "origin", "c1:refs/heads/feat"]));
}

#[test]
fn create_config_defaults_and_the_a_flag() {
    match parse_create_config_command(&strings(&["--workspace-branch=ws"]), 0, "/cwd") {
        Ok(CliCommand::CreateConfig { config, .. }) => {
            assert_eq!(config.trunk, "main");
            assert_eq!(config.workspace_remote, "origin");
            assert_eq!(names(&config), strings(&["workspace", "main"]));
        }
        _ => panic!("expected create-config"),
    }
    assert_eq!(
        parse_create_config_command(&strings(&["--workspace-branch=ws", "-A", "abc"]), 0, "/cwd").err(),
        Some("-A requires --merge-commit to be specified".to_string())
    );
}
