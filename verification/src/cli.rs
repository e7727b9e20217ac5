//! The command line of the workspace tool, and the changes to the
//! configuration and the merge commit that its subcommands make.
use vstd::prelude::*;
use crate::config::{
    Config, ConfigModel, StackEntry, EntryModel, entries_view, branch_entry, trunk_entry,
    default_stacks, push_numbered_entries, numbered_entries, reread_entries, removable,
    position_of, opt_view,
};
use crate::invocation::{Invocation, Tool, strs_view};
use crate::jujutsu::BookmarkMap;
use crate::stacks::StackInfo;
use crate::text::{
    owned, join2, join3, decimal, decimal_string, str_eq, has_prefix, starts_with, strip_prefix,
    chars_of, string_of_range, chars_within, prefix_within,
};

verus! {

/// The configuration with its stack list rebuilt from the workspace merge
/// commit's parent count (`--reread-stacks`).
pub fn reread_stacks(config: &mut Config, n_parents: usize)
    ensures
        entries_view(final(config).stacks@) == reread_entries(
            old(config).trunk@,
            old(config).workspace_remote@,
            n_parents as nat,
        ),
        final(config).trunk == old(config).trunk,
        final(config).workspace_remote == old(config).workspace_remote,
        final(config).workspace_branch == old(config).workspace_branch,
        final(config).merge_commit == old(config).merge_commit,
{
    let mut stacks = default_stacks(config.trunk.as_str(), config.workspace_remote.as_str());
    push_numbered_entries(&mut stacks, n_parents, config.workspace_remote.as_str());
    config.stacks = stacks;
}

/// The configuration that `create-config` writes, given how many parents the
/// configured merge commit has (when it names one): the given configuration
/// with `stack1`, `stack2`, ... appended for the parents beyond the first two.
pub fn create_config(config: &mut Config, n_parents: usize)
    ensures
        entries_view(final(config).stacks@) == entries_view(old(config).stacks@) + numbered_entries(
            n_parents as nat,
            old(config).workspace_remote@,
        ),
        final(config).trunk == old(config).trunk,
        final(config).workspace_remote == old(config).workspace_remote,
        final(config).workspace_branch == old(config).workspace_branch,
        final(config).merge_commit == old(config).merge_commit,
{
    let remote = config.workspace_remote.clone();
    push_numbered_entries(&mut config.stacks, n_parents, remote.as_str());
}

/// The names of the stacks that may be removed, in order.
pub fn list_removable_stacks(config: &Config) -> (r: Vec<String>)
    ensures
        strs_view(r@) == entries_view(config.stacks@).map_values(|e: EntryModel| e.name).filter(
            |n: Seq<char>| removable(n, config.trunk@),
        ),
{
    let ghost nv = entries_view(config.stacks@).map_values(|e: EntryModel| e.name);
    let mut r: Vec<String> = Vec::new();
    let mut i: usize = 0;
    while i < config.stacks.len()
        invariant
            i <= config.stacks@.len(),
            nv == entries_view(config.stacks@).map_values(|e: EntryModel| e.name),
            strs_view(r@) == nv.take(i as int).filter(|n: Seq<char>| removable(n, config.trunk@)),
        decreases config.stacks.len() - i,
    {
        proof {
            reveal_with_fuel(Seq::<_>::filter, 1);
        }
        assert(nv.take(i + 1).drop_last() =~= nv.take(i as int));
        let name = &config.stacks[i].name;
        assert(nv[i as int] == name@);
        let ghost before = strs_view(r@);
        if !str_eq(name.as_str(), "workspace") && !str_eq(name.as_str(), config.trunk.as_str()) {
            r.push(name.clone());
            assert(strs_view(r@) =~= before.push(name@));
        }
        i = i + 1;
    }
    assert(nv.take(nv.len() as int) =~= nv);
    r
}

/// The change `new-stack <branch>` makes: the new parent list of the
/// workspace merge commit (the old one with the new stack commit last), and
/// the configuration with the branch's entry last.
pub fn apply_branch(config: &mut Config, branch_name: &str, parents: &mut Vec<String>, new_commit_sha: String)
    ensures
        entries_view(final(config).stacks@) == entries_view(old(config).stacks@).push(
            branch_entry(branch_name@, old(config).workspace_remote@),
        ),
        strs_view(final(parents)@) == strs_view(old(parents)@).push(new_commit_sha@),
        final(config).trunk == old(config).trunk,
        final(config).workspace_remote == old(config).workspace_remote,
        final(config).workspace_branch == old(config).workspace_branch,
        final(config).merge_commit == old(config).merge_commit,
{
    let ghost p0 = parents@;
    parents.push(new_commit_sha);
    assert(strs_view(parents@) =~= strs_view(p0).push(parents@.last()@));
    let ghost s0 = config.stacks@;
    let e = StackEntry::for_branch(branch_name, config.workspace_remote.as_str());
    config.stacks.push(e);
    assert(entries_view(config.stacks@) =~= entries_view(s0).push(e.model()));
}

/// Where the branch of a new stack comes from.
pub enum StackHead {
    /// The local branch exists: its head commit.
    Existing(String),
    /// It does not: a new commit off the remote trunk (this ref), on which the
    /// branch is then created.
    OffTrunk(String),
}

/// `new-stack <branch>` adds the branch's head as a merge parent, creating the
/// branch off trunk if it does not exist: `resolved` is the commit that
/// `refs/heads/<branch>` resolves to, if it does.
pub fn new_stack_head(config: &Config, resolved: Option<String>) -> (r: StackHead)
    ensures
        resolved matches Some(s) ==> (r matches StackHead::Existing(h) && h@ == s@),
        resolved is None ==> (r matches StackHead::OffTrunk(t) && t@ == config.trunk@ + "@"@
            + config.workspace_remote@),
{
    match resolved {
        Some(s) => StackHead::Existing(s),
        None => StackHead::OffTrunk(config.trunk_remote_ref()),
    }
}

/// Why the configuration does not let the stack `stack_name` be removed:
/// there is no such stack, or it is `workspace` or trunk.
pub open spec fn removal_error(config: Config, stack_name: Seq<char>) -> Option<Seq<char>> {
    let names = entries_view(config.stacks@).map_values(|e: EntryModel| e.name);
    if !names.contains(stack_name) {
        Some("stack '"@ + stack_name + "' not found in config"@)
    } else if !removable(stack_name, config.trunk@) {
        Some("cannot remove the '"@ + stack_name + "' stack"@)
    } else {
        None
    }
}

/// Why a stack cannot be removed from a workspace whose merge commit has
/// `n_parents` parents: the configuration's reason, else an index past the parents.
pub open spec fn remove_error(config: Config, stack_name: Seq<char>, n_parents: nat) -> Option<Seq<char>> {
    match removal_error(config, stack_name) {
        Some(e) => Some(e),
        None => {
            let i = crate::graph::first_index(
                entries_view(config.stacks@).map_values(|e: EntryModel| e.name),
                stack_name,
            );
            if i >= n_parents {
                Some("stack index "@ + decimal(i) + " is out of range (merge commit has "@ + decimal(
                    n_parents,
                ) + " parents)"@)
            } else {
                None
            }
        },
    }
}

/// The index of the entry that `rm-stack <name>` removes (the first one so
/// named), checked against the configuration alone.
pub fn stack_to_remove(config: &Config, stack_name: &str) -> (r: Result<usize, String>)
    ensures
        r matches Err(e) ==> removal_error(*config, stack_name@) == Some(e@),
        r matches Ok(i) ==> removal_error(*config, stack_name@) is None && i as nat == crate::graph::first_index(
            entries_view(config.stacks@).map_values(|e: EntryModel| e.name),
            stack_name@,
        ) && i < config.stacks@.len(),
{
    let ghost names = entries_view(config.stacks@).map_values(|e: EntryModel| e.name);
    let idx = position_of(&config.stacks, stack_name);
    let stack_index = match idx {
        None => {
            assert(!names.contains(stack_name@)) by {
                if names.contains(stack_name@) {
                    let k = choose|k: int| 0 <= k < names.len() && names[k] == stack_name@;
                    assert(config.stacks@[k].name@ == stack_name@);
                }
            }
            return Err(join3("stack '", stack_name, "' not found in config"));
        },
        Some(i) => i,
    };
    proof {
        assert(names[stack_index as int] == stack_name@);
        assert forall|k: int| 0 <= k < stack_index implies #[trigger] names[k] != stack_name@ by {
            assert(names[k] == config.stacks@[k].name@);
        }
        crate::graph::lemma_first_index(names, stack_name@, stack_index as int);
    }
    if str_eq(stack_name, "workspace") || str_eq(stack_name, config.trunk.as_str()) {
        return Err(join3("cannot remove the '", stack_name, "' stack"));
    }
    Ok(stack_index)
}

/// The change `rm-stack <name>` makes: the first entry named `stack_name`
/// leaves the configuration, and the merge parent at its index leaves the
/// parent list. Errors, in this order: no such stack; it is `workspace` or
/// trunk; its index is past the parents.
pub fn remove_stack(config: &mut Config, stack_name: &str, parents: &mut Vec<String>) -> (r: Result<(), String>)
    ensures
        r is Err ==> *final(config) == *old(config) && final(parents)@ == old(parents)@,
        r matches Err(e) ==> remove_error(*old(config), stack_name@, old(parents)@.len()) == Some(e@),
        r is Ok ==> remove_error(*old(config), stack_name@, old(parents)@.len()) is None,
        r is Ok ==> ({
            let i = crate::graph::first_index(
                entries_view(old(config).stacks@).map_values(|e: EntryModel| e.name),
                stack_name@,
            ) as int;
            &&& final(config).stacks@ == old(config).stacks@.remove(i)
            &&& final(parents)@ == old(parents)@.remove(i)
            &&& final(config).trunk == old(config).trunk
            &&& final(config).workspace_remote == old(config).workspace_remote
            &&& final(config).workspace_branch == old(config).workspace_branch
            &&& final(config).merge_commit == old(config).merge_commit
        }),
{
    let stack_index = match stack_to_remove(config, stack_name) {
        Err(e) => return Err(e),
        Ok(i) => i,
    };
    if stack_index >= parents.len() {
        let a = decimal_string(stack_index);
        let b = decimal_string(parents.len());
        let m1 = join3("stack index ", a.as_str(), " is out of range (merge commit has ");
        return Err(join3(m1.as_str(), b.as_str(), " parents)"));
    }
    parents.remove(stack_index);
    config.stacks.remove(stack_index);
    Ok(())
}

/// Law: adding a stack for a branch and then removing it by name gives back
/// the stack list and the merge parents (when no stack had that name and every
/// stack had its parent).
pub proof fn lemma_apply_then_remove(
    stacks: Seq<StackEntry>,
    parents: Seq<String>,
    added: StackEntry,
    new_parent: String,
    name: Seq<char>,
)
    requires
        added.name@ == name,
        forall|k: int| 0 <= k < stacks.len() ==> #[trigger] stacks[k].name@ != name,
        stacks.len() == parents.len(),
    ensures
        crate::graph::first_index(
            entries_view(stacks.push(added)).map_values(|e: EntryModel| e.name),
            name,
        ) == stacks.len(),
        stacks.push(added).remove(stacks.len() as int) == stacks,
        parents.push(new_parent).remove(parents.len() as int) == parents,
{
    let names = entries_view(stacks.push(added)).map_values(|e: EntryModel| e.name);
    assert forall|k: int| 0 <= k < stacks.len() implies #[trigger] names[k] != name by {
        assert(names[k] == stacks[k].name@);
    }
    assert(names[stacks.len() as int] == name);
    crate::graph::lemma_first_index(names, name, stacks.len() as int);
    assert(stacks.push(added).remove(stacks.len() as int) =~= stacks);
    assert(parents.push(new_parent).remove(parents.len() as int) =~= parents);
}

/// Why the workspace merge commit cannot be rebased onto the remote trunk.
pub open spec fn rebase_error(config: Config, n_parents: nat) -> Option<Seq<char>> {
    let names = entries_view(config.stacks@).map_values(|e: EntryModel| e.name);
    if config.merge_commit is None {
        Some("no merge_commit in config; run with --print-stacks first or set it manually"@)
    } else if !names.contains(config.trunk@) {
        Some("trunk '"@ + config.trunk@ + "' not found in config stacks"@)
    } else {
        let i = crate::graph::first_index(names, config.trunk@);
        if i >= n_parents {
            Some("trunk index "@ + decimal(i) + " is out of range (merge commit has "@ + decimal(
                n_parents,
            ) + " parents)"@)
        } else {
            None
        }
    }
}

/// The new parents of the workspace merge commit for `rebase`: the same
/// parents with trunk's (at trunk's index in the stack list) replaced by
/// `<trunk>@<remote>`, or the error that stops the rebase.
pub fn rebase_stacks(config: &Config, parents: &mut Vec<String>) -> (r: Result<(), String>)
    ensures
        r matches Err(e) ==> rebase_error(*config, old(parents)@.len()) == Some(e@),
        r is Err ==> final(parents)@ == old(parents)@,
        r is Ok ==> rebase_error(*config, old(parents)@.len()) is None,
        r is Ok ==> ({
            let i = crate::graph::first_index(
                entries_view(config.stacks@).map_values(|e: EntryModel| e.name),
                config.trunk@,
            ) as int;
            &&& final(parents)@.len() == old(parents)@.len()
            &&& strs_view(final(parents)@) == strs_view(old(parents)@).update(
                i,
                config.trunk@ + "@"@ + config.workspace_remote@,
            )
        }),
{
    if config.merge_commit.is_none() {
        return Err(owned("no merge_commit in config; run with --print-stacks first or set it manually"));
    }
    let ghost names = entries_view(config.stacks@).map_values(|e: EntryModel| e.name);
    let trunk_index = match position_of(&config.stacks, config.trunk.as_str()) {
        None => {
            assert(!names.contains(config.trunk@)) by {
                if names.contains(config.trunk@) {
                    let k = choose|k: int| 0 <= k < names.len() && names[k] == config.trunk@;
                    assert(config.stacks@[k].name@ == config.trunk@);
                }
            }
            return Err(join3("trunk '", config.trunk.as_str(), "' not found in config stacks"));
        },
        Some(i) => i,
    };
    proof {
        assert(names[trunk_index as int] == config.trunk@);
        assert forall|k: int| 0 <= k < trunk_index implies #[trigger] names[k] != config.trunk@ by {
            assert(names[k] == config.stacks@[k].name@);
        }
        crate::graph::lemma_first_index(names, config.trunk@, trunk_index as int);
    }
    if trunk_index >= parents.len() {
        let a = decimal_string(trunk_index);
        let b = decimal_string(parents.len());
        let m1 = join3("trunk index ", a.as_str(), " is out of range (merge commit has ");
        return Err(join3(m1.as_str(), b.as_str(), " parents)"));
    }
    let ghost p0 = parents@;
    let t = config.trunk_remote_ref();
    parents.set(trunk_index, t);
    assert(strs_view(parents@) =~= strs_view(p0).update(
        trunk_index as int,
        config.trunk@ + "@"@ + config.workspace_remote@,
    ));
    Ok(())
}

/// The stacks whose commits `rebase` moves onto the remote trunk after the
/// merge commit: every stack but trunk that has commits, named with the id of
/// its root (oldest) commit, in order.
pub open spec fn stacks_to_rebase_spec(stacks: Seq<StackInfo>, trunk: Seq<char>) -> Seq<(Seq<char>, Seq<char>)>
    decreases stacks.len(),
{
    if stacks.len() == 0 {
        seq![]
    } else {
        let rest = stacks_to_rebase_spec(stacks.drop_last(), trunk);
        let s = stacks.last();
        if s.name@ != trunk && s.commits@.len() > 0 {
            rest.push((s.name@, s.commits@.last().commit_id@))
        } else {
            rest
        }
    }
}

pub fn stacks_to_rebase(stacks: &Vec<StackInfo>, trunk_name: &str) -> (r: Vec<(String, String)>)
    ensures
        r@.map_values(|p: (String, String)| (p.0@, p.1@)) == stacks_to_rebase_spec(stacks@, trunk_name@),
{
    let mut r: Vec<(String, String)> = Vec::new();
    let mut i: usize = 0;
    while i < stacks.len()
        invariant
            i <= stacks@.len(),
            r@.map_values(|p: (String, String)| (p.0@, p.1@)) == stacks_to_rebase_spec(
                stacks@.take(i as int),
                trunk_name@,
            ),
        decreases stacks.len() - i,
    {
        let ghost before = r@.map_values(|p: (String, String)| (p.0@, p.1@));
        assert(stacks@.take(i + 1).drop_last() =~= stacks@.take(i as int));
        let s = &stacks[i];
        if !str_eq(s.name.as_str(), trunk_name) {
            match s.root_commit_id() {
                Some(root) => {
                    r.push((s.name.clone(), owned(root)));
                    assert(r@.map_values(|p: (String, String)| (p.0@, p.1@)) =~= before.push(
                        (s.name@, s.commits@.last().commit_id@),
                    ));
                },
                None => {},
            }
        }
        i = i + 1;
    }
    assert(stacks@.take(stacks@.len() as int) =~= stacks@);
    r
}

// ---------------------------------------------------------------------------
// Parsing the command line
// ---------------------------------------------------------------------------

/// A parsed command line. `repo_path` is the repository to work on (the
/// current directory when none is given).
pub enum CliCommand {
    Help,
    CreateConfig { repo_path: String, config: Config, after_sha: Option<String>, merge_commit: Option<String> },
    Run { repo_path: String, print_merge_command: bool, verbose: bool },
    Stacks { repo_path: String, verbose: bool },
    ApplyBranch { repo_path: String, branch_name: String },
    RemoveStack { repo_path: String, stack_name: String },
    ListStacks { repo_path: String },
    RereadStacks { repo_path: String },
    Rebase { repo_path: String },
    Advance { repo_path: String, push: bool, dry: bool },
    Move { repo_path: String, sha: String, after_commit: String },
    New { repo_path: String, parent: String, message: Option<String> },
}

/// A parsed command line as a mathematical value.
pub enum CommandModel {
    Help,
    CreateConfig { repo_path: Seq<char>, config: ConfigModel, after_sha: Option<Seq<char>>, merge_commit: Option<Seq<char>> },
    Run { repo_path: Seq<char>, print_merge_command: bool, verbose: bool },
    Stacks { repo_path: Seq<char>, verbose: bool },
    ApplyBranch { repo_path: Seq<char>, branch_name: Seq<char> },
    RemoveStack { repo_path: Seq<char>, stack_name: Seq<char> },
    ListStacks { repo_path: Seq<char> },
    RereadStacks { repo_path: Seq<char> },
    Rebase { repo_path: Seq<char> },
    Advance { repo_path: Seq<char>, push: bool, dry: bool },
    Move { repo_path: Seq<char>, sha: Seq<char>, after_commit: Seq<char> },
    New { repo_path: Seq<char>, parent: Seq<char>, message: Option<Seq<char>> },
}

impl CliCommand {
    pub open spec fn model(self) -> CommandModel {
        match self {
            CliCommand::Help => CommandModel::Help,
            CliCommand::CreateConfig { repo_path, config, after_sha, merge_commit } => CommandModel::CreateConfig {
                repo_path: repo_path@,
                config: config.model(),
                after_sha: opt_view(after_sha),
                merge_commit: opt_view(merge_commit),
            },
            CliCommand::Run { repo_path, print_merge_command, verbose } => CommandModel::Run {
                repo_path: repo_path@,
                print_merge_command,
                verbose,
            },
            CliCommand::Stacks { repo_path, verbose } => CommandModel::Stacks { repo_path: repo_path@, verbose },
            CliCommand::ApplyBranch { repo_path, branch_name } => CommandModel::ApplyBranch {
                repo_path: repo_path@,
                branch_name: branch_name@,
            },
            CliCommand::RemoveStack { repo_path, stack_name } => CommandModel::RemoveStack {
                repo_path: repo_path@,
                stack_name: stack_name@,
            },
            CliCommand::ListStacks { repo_path } => CommandModel::ListStacks { repo_path: repo_path@ },
            CliCommand::RereadStacks { repo_path } => CommandModel::RereadStacks { repo_path: repo_path@ },
            CliCommand::Rebase { repo_path } => CommandModel::Rebase { repo_path: repo_path@ },
            CliCommand::Advance { repo_path, push, dry } => CommandModel::Advance { repo_path: repo_path@, push, dry },
            CliCommand::Move { repo_path, sha, after_commit } => CommandModel::Move {
                repo_path: repo_path@,
                sha: sha@,
                after_commit: after_commit@,
            },
            CliCommand::New { repo_path, parent, message } => CommandModel::New {
                repo_path: repo_path@,
                parent: parent@,
                message: opt_view(message),
            },
        }
    }
}

pub open spec fn or_cwd(o: Option<Seq<char>>, cwd: Seq<char>) -> Seq<char> {
    match o {
        Some(p) => p,
        None => cwd,
    }
}

/// An argument that is not an option: it does not start with `-`.
pub open spec fn is_positional(a: Seq<char>) -> bool {
    !has_prefix(a, "-"@)
}

/// The directory that a leading `-C <path>` names, if the arguments start
/// with `-C`; an error when the path is missing. The rest of the command line
/// follows it.
pub fn change_dir_prefix(args: &Vec<String>) -> (r: Result<Option<String>, String>)
    ensures
        !(args@.len() > 0 && args@[0]@ == "-C"@) ==> r == Ok::<Option<String>, String>(None),
        args@.len() > 0 && args@[0]@ == "-C"@ && args@.len() < 2 ==> (r matches Err(e) && e@
            == "-C requires a path argument"@),
        args@.len() >= 2 && args@[0]@ == "-C"@ ==> (r matches Ok(Some(p)) && p@ == args@[1]@),
{
    if args.len() > 0 && str_eq(args[0].as_str(), "-C") {
        if args.len() < 2 {
            return Err(owned("-C requires a path argument"));
        }
        return Ok(Some(args[1].clone()));
    }
    Ok(None)
}

// --- the options of the default (GUI) command ---

pub struct RunScan {
    pub repo: Option<Seq<char>>,
    pub print: bool,
    pub verbose: bool,
    pub reread: bool,
    pub remove: Option<Seq<char>>,
}

/// The options of the default command read from `args[i..]` on top of `st`.
pub open spec fn run_scan(args: Seq<Seq<char>>, i: int, st: RunScan) -> Result<RunScan, Seq<char>>
    decreases args.len() - i,
{
    if i < 0 || i >= args.len() {
        Ok(st)
    } else {
        let a = args[i];
        if a == "--print-merge-command"@ {
            run_scan(args, i + 1, RunScan { print: true, ..st })
        } else if a == "-v"@ || a == "--verbose"@ {
            run_scan(args, i + 1, RunScan { verbose: true, ..st })
        } else if a == "--reread-stacks"@ {
            run_scan(args, i + 1, RunScan { reread: true, ..st })
        } else if has_prefix(a, "--remove-stack="@) {
            let v = a.skip("--remove-stack="@.len() as int);
            if v.len() == 0 {
                Err("--remove-stack cannot be empty"@)
            } else {
                run_scan(args, i + 1, RunScan { remove: Some(v), ..st })
            }
        } else if a == "--remove-stack"@ {
            if i + 1 >= args.len() {
                Err("--remove-stack requires a stack name"@)
            } else if args[i + 1].len() == 0 {
                Err("--remove-stack cannot be empty"@)
            } else {
                run_scan(args, i + 2, RunScan { remove: Some(args[i + 1]), ..st })
            }
        } else if has_prefix(a, "--"@) {
            Err("unknown argument: "@ + a)
        } else if st.repo is Some {
            Err("unexpected argument: "@ + a)
        } else {
            run_scan(args, i + 1, RunScan { repo: Some(a), ..st })
        }
    }
}

/// The default command: `--remove-stack` wins over `--reread-stacks`, which
/// wins over running the GUI.
pub open spec fn parse_run_spec(args: Seq<Seq<char>>, cwd: Seq<char>) -> Result<CommandModel, Seq<char>> {
    match run_scan(args, 0, RunScan { repo: None, print: false, verbose: false, reread: false, remove: None }) {
        Err(e) => Err(e),
        Ok(st) => {
            let repo_path = or_cwd(st.repo, cwd);
            match st.remove {
                Some(name) => Ok(CommandModel::RemoveStack { repo_path, stack_name: name }),
                None => if st.reread {
                    Ok(CommandModel::RereadStacks { repo_path })
                } else {
                    Ok(CommandModel::Run { repo_path, print_merge_command: st.print, verbose: st.verbose })
                },
            }
        },
    }
}

fn opt_clone(o: &Option<String>) -> (r: Option<String>)
    ensures
        opt_view(r) == opt_view(*o),
{
    match o {
        Some(s) => Some(s.clone()),
        None => None,
    }
}

fn path_or_cwd(o: Option<String>, cwd: &str) -> (r: String)
    ensures
        r@ == or_cwd(opt_view(o), cwd@),
{
    match o {
        Some(p) => p,
        None => owned(cwd),
    }
}

fn parse_run_command(args: &Vec<String>, cwd: &str) -> (r: Result<CliCommand, String>)
    ensures
        match r {
            Ok(c) => parse_run_spec(strs_view(args@), cwd@) == Ok::<CommandModel, Seq<char>>(c.model()),
            Err(e) => parse_run_spec(strs_view(args@), cwd@) == Err::<CommandModel, Seq<char>>(e@),
        },
{
    let ghost av = strs_view(args@);
    let ghost init = RunScan { repo: None, print: false, verbose: false, reread: false, remove: None };
    let mut repo_arg: Option<String> = None;
    let mut print_merge_command = false;
    let mut verbose = false;
    let mut reread_stacks = false;
    let mut remove_stack: Option<String> = None;
    let mut i: usize = 0;
    while i < args.len()
        invariant
            i <= args@.len(),
            av == strs_view(args@),
            init == (RunScan { repo: None, print: false, verbose: false, reread: false, remove: None }),
            run_scan(av, i as int, RunScan {
                repo: opt_view(repo_arg),
                print: print_merge_command,
                verbose,
                reread: reread_stacks,
                remove: opt_view(remove_stack),
            }) == run_scan(av, 0, init),
        decreases args.len() - i,
    {
        let arg = args[i].as_str();
        assert(av[i as int] == arg@);
        if str_eq(arg, "--print-merge-command") {
            print_merge_command = true;
        } else if str_eq(arg, "-v") || str_eq(arg, "--verbose") {
            verbose = true;
        } else if str_eq(arg, "--reread-stacks") {
            reread_stacks = true;
        } else if let Some(val) = strip_prefix(arg, "--remove-stack=") {
            if val.as_str().is_empty() {
                return Err(owned("--remove-stack cannot be empty"));
            }
            remove_stack = Some(val);
        } else if str_eq(arg, "--remove-stack") {
            if i + 1 >= args.len() {
                return Err(owned("--remove-stack requires a stack name"));
            }
            i = i + 1;
            assert(av[i as int] == args@[i as int]@);
            if args[i].as_str().is_empty() {
                return Err(owned("--remove-stack cannot be empty"));
            }
            remove_stack = Some(args[i].clone());
        } else if starts_with(arg, "--") {
            return Err(join2("unknown argument: ", arg));
        } else if repo_arg.is_some() {
            return Err(join2("unexpected argument: ", arg));
        } else {
            repo_arg = Some(owned(arg));
        }
        i = i + 1;
    }
    let repo_path = path_or_cwd(repo_arg, cwd);
    if let Some(stack_name) = remove_stack {
        return Ok(CliCommand::RemoveStack { repo_path, stack_name });
    }
    if reread_stacks {
        return Ok(CliCommand::RereadStacks { repo_path });
    }
    Ok(CliCommand::Run { repo_path, print_merge_command, verbose })
}

// --- create-config ---

pub struct CreateScan {
    pub repo: Option<Seq<char>>,
    pub branch: Option<Seq<char>>,
    pub remote: Option<Seq<char>>,
    pub trunk: Option<Seq<char>>,
    pub after: Option<Seq<char>>,
    pub merge: Option<Seq<char>>,
}

/// A `--<name>=<value>` option with a value that must not be empty: the error
/// when it is, else the value.
pub open spec fn valued(a: Seq<char>, prefix: Seq<char>, empty_error: Seq<char>) -> Result<Seq<char>, Seq<char>> {
    let v = a.skip(prefix.len() as int);
    if v.len() == 0 {
        Err(empty_error)
    } else {
        Ok(v)
    }
}

/// The options of `create-config` read from `args[i..]` on top of `st`.
pub open spec fn create_scan(args: Seq<Seq<char>>, i: int, st: CreateScan) -> Result<CreateScan, Seq<char>>
    decreases args.len() - i,
{
    if i < 0 || i >= args.len() {
        Ok(st)
    } else {
        let a = args[i];
        if has_prefix(a, "--workspace-branch="@) {
            match valued(a, "--workspace-branch="@, "--workspace-branch cannot be empty"@) {
                Err(e) => Err(e),
                Ok(v) => create_scan(args, i + 1, CreateScan { branch: Some(v), ..st }),
            }
        } else if has_prefix(a, "--workspace-remote="@) {
            match valued(a, "--workspace-remote="@, "--workspace-remote cannot be empty"@) {
                Err(e) => Err(e),
                Ok(v) => create_scan(args, i + 1, CreateScan { remote: Some(v), ..st }),
            }
        } else if has_prefix(a, "--trunk="@) {
            match valued(a, "--trunk="@, "--trunk cannot be empty"@) {
                Err(e) => Err(e),
                Ok(v) => create_scan(args, i + 1, CreateScan { trunk: Some(v), ..st }),
            }
        } else if has_prefix(a, "--merge-commit="@) {
            match valued(a, "--merge-commit="@, "--merge-commit cannot be empty"@) {
                Err(e) => Err(e),
                Ok(v) => create_scan(args, i + 1, CreateScan { merge: Some(v), ..st }),
            }
        } else if a == "-A"@ {
            if i + 1 >= args.len() {
                Err("-A requires a SHA argument"@)
            } else if args[i + 1].len() == 0 {
                Err("-A cannot be empty"@)
            } else {
                create_scan(args, i + 2, CreateScan { after: Some(args[i + 1]), ..st })
            }
        } else if has_prefix(a, "--"@) {
            Err("unknown argument: "@ + a)
        } else if st.repo is Some {
            Err("unexpected argument: "@ + a)
        } else {
            create_scan(args, i + 1, CreateScan { repo: Some(a), ..st })
        }
    }
}

/// `create-config`: trunk defaults to `main`, the remote to `origin`; the
/// workspace branch is required; `-A` needs `--merge-commit`. The stack list
/// starts with `workspace` and trunk.
pub open spec fn parse_create_config_spec(args: Seq<Seq<char>>, start: int, cwd: Seq<char>) -> Result<CommandModel, Seq<char>> {
    match create_scan(args, start, CreateScan { repo: None, branch: None, remote: None, trunk: None, after: None, merge: None }) {
        Err(e) => Err(e),
        Ok(st) => if st.after is Some && st.merge is None {
            Err("-A requires --merge-commit to be specified"@)
        } else {
            let trunk = match st.trunk { Some(t) => t, None => "main"@ };
            let remote = match st.remote { Some(r) => r, None => "origin"@ };
            match st.branch {
                None => Err("missing required argument: --workspace-branch=<branch>"@),
                Some(b) => Ok(CommandModel::CreateConfig {
                    repo_path: or_cwd(st.repo, cwd),
                    config: ConfigModel {
                        workspace_branch: b,
                        workspace_remote: remote,
                        trunk,
                        stacks: seq![branch_entry("workspace"@, remote), trunk_entry(trunk, remote)],
                        merge_commit: st.merge,
                    },
                    after_sha: st.after,
                    merge_commit: st.merge,
                }),
            }
        },
    }
}

/// The value of a `<prefix><value>` option, or the error for an empty value.
fn option_value(arg: &str, prefix: &str, empty_error: &str) -> (r: Result<String, String>)
    requires
        has_prefix(arg@, prefix@),
    ensures
        match valued(arg@, prefix@, empty_error@) {
            Ok(v) => r matches Ok(s) && s@ == v,
            Err(e) => r matches Err(s) && s@ == e,
        },
{
    let v = strip_prefix(arg, prefix).unwrap();
    if v.as_str().is_empty() {
        Err(owned(empty_error))
    } else {
        Ok(v)
    }
}

/// The `create-config` command read from `args[start..]` ([`parse_create_config_spec`]).
pub fn parse_create_config_command(args: &Vec<String>, start: usize, cwd: &str) -> (r: Result<CliCommand, String>)
    requires
        start <= args@.len(),
    ensures
        match r {
            Ok(c) => parse_create_config_spec(strs_view(args@), start as int, cwd@) == Ok::<CommandModel, Seq<char>>(c.model()),
            Err(e) => parse_create_config_spec(strs_view(args@), start as int, cwd@) == Err::<CommandModel, Seq<char>>(e@),
        },
{
    let ghost av = strs_view(args@);
    let ghost init = CreateScan { repo: None, branch: None, remote: None, trunk: None, after: None, merge: None };
    let mut repo_arg: Option<String> = None;
    let mut workspace_branch: Option<String> = None;
    let mut workspace_remote: Option<String> = None;
    let mut trunk: Option<String> = None;
    let mut after_sha: Option<String> = None;
    let mut merge_commit: Option<String> = None;
    let mut i: usize = start;
    while i < args.len()
        invariant
            start <= i <= args@.len(),
            av == strs_view(args@),
            init == (CreateScan { repo: None, branch: None, remote: None, trunk: None, after: None, merge: None }),
            create_scan(av, i as int, CreateScan {
                repo: opt_view(repo_arg),
                branch: opt_view(workspace_branch),
                remote: opt_view(workspace_remote),
                trunk: opt_view(trunk),
                after: opt_view(after_sha),
                merge: opt_view(merge_commit),
            }) == create_scan(av, start as int, init),
        decreases args.len() - i,
    {
        let arg = args[i].as_str();
        assert(av[i as int] == arg@);
        if starts_with(arg, "--workspace-branch=") {
            workspace_branch = Some(option_value(arg, "--workspace-branch=", "--workspace-branch cannot be empty")?);
        } else if starts_with(arg, "--workspace-remote=") {
            workspace_remote = Some(option_value(arg, "--workspace-remote=", "--workspace-remote cannot be empty")?);
        } else if starts_with(arg, "--trunk=") {
            trunk = Some(option_value(arg, "--trunk=", "--trunk cannot be empty")?);
        } else if starts_with(arg, "--merge-commit=") {
            merge_commit = Some(option_value(arg, "--merge-commit=", "--merge-commit cannot be empty")?);
        } else if str_eq(arg, "-A") {
            if i + 1 >= args.len() {
                return Err(owned("-A requires a SHA argument"));
            }
            i = i + 1;
            assert(av[i as int] == args@[i as int]@);
            if args[i].as_str().is_empty() {
                return Err(owned("-A cannot be empty"));
            }
            after_sha = Some(args[i].clone());
        } else if starts_with(arg, "--") {
            return Err(join2("unknown argument: ", arg));
        } else if repo_arg.is_some() {
            return Err(join2("unexpected argument: ", arg));
        } else {
            repo_arg = Some(owned(arg));
        }
        i = i + 1;
    }
    if after_sha.is_some() && merge_commit.is_none() {
        return Err(owned("-A requires --merge-commit to be specified"));
    }
    let trunk = match trunk {
        Some(t) => t,
        None => owned("main"),
    };
    let remote = match workspace_remote {
        Some(r) => r,
        None => owned("origin"),
    };
    let repo_path = path_or_cwd(repo_arg, cwd);
    let branch = match workspace_branch {
        Some(b) => b,
        None => return Err(owned("missing required argument: --workspace-branch=<branch>")),
    };
    let stacks = default_stacks(trunk.as_str(), remote.as_str());
    let mc = opt_clone(&merge_commit);
    let config = Config { workspace_branch: branch, workspace_remote: remote, trunk, stacks, merge_commit: mc };
    Ok(CliCommand::CreateConfig { repo_path, config, after_sha, merge_commit })
}

// --- move ---

pub struct MoveScan {
    pub sha: Option<Seq<char>>,
    pub after: Option<Seq<char>>,
    pub repo: Option<Seq<char>>,
}

/// The arguments of `move` read from `args[i..]` on top of `st`.
pub open spec fn move_scan(args: Seq<Seq<char>>, i: int, st: MoveScan) -> Result<MoveScan, Seq<char>>
    decreases args.len() - i,
{
    if i < 0 || i >= args.len() {
        Ok(st)
    } else {
        let a = args[i];
        if a == "-r"@ || a == "-s"@ {
            if i + 1 >= args.len() {
                Err(a + " requires a SHA argument"@)
            } else if args[i + 1].len() == 0 {
                Err(a + " SHA cannot be empty"@)
            } else {
                move_scan(args, i + 2, MoveScan { sha: Some(args[i + 1]), ..st })
            }
        } else if is_positional(a) {
            if st.after is None {
                move_scan(args, i + 1, MoveScan { after: Some(a), ..st })
            } else if st.repo is Some {
                Err("unexpected argument: "@ + a)
            } else {
                move_scan(args, i + 1, MoveScan { repo: Some(a), ..st })
            }
        } else {
            Err("unknown argument: "@ + a)
        }
    }
}

/// `move -r|-s <sha> <after_commit> [<repo-path>]`.
pub open spec fn parse_move_spec(args: Seq<Seq<char>>, start: int, cwd: Seq<char>) -> Result<CommandModel, Seq<char>> {
    match move_scan(args, start, MoveScan { sha: None, after: None, repo: None }) {
        Err(e) => Err(e),
        Ok(st) => match st.sha {
            None => Err("move requires -r <sha> or -s <sha>"@),
            Some(sha) => match st.after {
                None => Err("move requires an <after_commit> argument"@),
                Some(after) => Ok(CommandModel::Move { repo_path: or_cwd(st.repo, cwd), sha, after_commit: after }),
            },
        },
    }
}

fn parse_move_command(args: &Vec<String>, start: usize, cwd: &str) -> (r: Result<CliCommand, String>)
    requires
        start <= args@.len(),
    ensures
        match r {
            Ok(c) => parse_move_spec(strs_view(args@), start as int, cwd@) == Ok::<CommandModel, Seq<char>>(c.model()),
            Err(e) => parse_move_spec(strs_view(args@), start as int, cwd@) == Err::<CommandModel, Seq<char>>(e@),
        },
{
    let ghost av = strs_view(args@);
    let ghost init = MoveScan { sha: None, after: None, repo: None };
    let mut sha: Option<String> = None;
    let mut after_commit: Option<String> = None;
    let mut repo_arg: Option<String> = None;
    let mut i: usize = start;
    while i < args.len()
        invariant
            start <= i <= args@.len(),
            av == strs_view(args@),
            init == (MoveScan { sha: None, after: None, repo: None }),
            move_scan(av, i as int, MoveScan {
                sha: opt_view(sha),
                after: opt_view(after_commit),
                repo: opt_view(repo_arg),
            }) == move_scan(av, start as int, init),
        decreases args.len() - i,
    {
        let arg = args[i].as_str();
        assert(av[i as int] == arg@);
        if str_eq(arg, "-r") || str_eq(arg, "-s") {
            if i + 1 >= args.len() {
                return Err(join2(arg, " requires a SHA argument"));
            }
            assert(av[i + 1] == args@[i + 1]@);
            if args[i + 1].as_str().is_empty() {
                return Err(join2(arg, " SHA cannot be empty"));
            }
            sha = Some(args[i + 1].clone());
            i = i + 1;
        } else if !starts_with(arg, "-") {
            if after_commit.is_none() {
                after_commit = Some(owned(arg));
            } else if repo_arg.is_some() {
                return Err(join2("unexpected argument: ", arg));
            } else {
                repo_arg = Some(owned(arg));
            }
        } else {
            return Err(join2("unknown argument: ", arg));
        }
        i = i + 1;
    }
    let sha = match sha {
        Some(s) => s,
        None => return Err(owned("move requires -r <sha> or -s <sha>")),
    };
    let after_commit = match after_commit {
        Some(a) => a,
        None => return Err(owned("move requires an <after_commit> argument")),
    };
    let repo_path = path_or_cwd(repo_arg, cwd);
    Ok(CliCommand::Move { repo_path, sha, after_commit })
}

// --- new ---

pub struct NewScan {
    pub parent: Option<Seq<char>>,
    pub message: Option<Seq<char>>,
}

/// The arguments of `new` read from `args[i..]` on top of `st`.
pub open spec fn new_scan(args: Seq<Seq<char>>, i: int, st: NewScan) -> Result<NewScan, Seq<char>>
    decreases args.len() - i,
{
    if i < 0 || i >= args.len() {
        Ok(st)
    } else {
        let a = args[i];
        if a == "-m"@ {
            if i + 1 >= args.len() {
                Err("-m requires a message argument"@)
            } else {
                new_scan(args, i + 2, NewScan { message: Some(args[i + 1]), ..st })
            }
        } else if has_prefix(a, "-m"@) {
            new_scan(args, i + 1, NewScan { message: Some(a.skip(2)), ..st })
        } else if has_prefix(a, "--message="@) {
            new_scan(args, i + 1, NewScan { message: Some(a.skip("--message="@.len() as int)), ..st })
        } else if is_positional(a) {
            if st.parent is Some {
                Err("unexpected argument: "@ + a)
            } else {
                new_scan(args, i + 1, NewScan { parent: Some(a), ..st })
            }
        } else {
            Err("unknown argument: "@ + a)
        }
    }
}

/// `new <parent> [-m <message>]`, in the current directory.
pub open spec fn parse_new_spec(args: Seq<Seq<char>>, start: int, cwd: Seq<char>) -> Result<CommandModel, Seq<char>> {
    match new_scan(args, start, NewScan { parent: None, message: None }) {
        Err(e) => Err(e),
        Ok(st) => match st.parent {
            None => Err("new requires a <parent> argument"@),
            Some(p) => Ok(CommandModel::New { repo_path: cwd, parent: p, message: st.message }),
        },
    }
}

fn parse_new_command(args: &Vec<String>, start: usize, cwd: &str) -> (r: Result<CliCommand, String>)
    requires
        start <= args@.len(),
    ensures
        match r {
            Ok(c) => parse_new_spec(strs_view(args@), start as int, cwd@) == Ok::<CommandModel, Seq<char>>(c.model()),
            Err(e) => parse_new_spec(strs_view(args@), start as int, cwd@) == Err::<CommandModel, Seq<char>>(e@),
        },
{
    let ghost av = strs_view(args@);
    let ghost init = NewScan { parent: None, message: None };
    let mut parent: Option<String> = None;
    let mut message: Option<String> = None;
    let mut i: usize = start;
    proof {
        reveal_strlit("-m");
    }
    while i < args.len()
        invariant
            start <= i <= args@.len(),
            av == strs_view(args@),
            init == (NewScan { parent: None, message: None }),
            "-m"@.len() == 2,
            new_scan(av, i as int, NewScan { parent: opt_view(parent), message: opt_view(message) })
                == new_scan(av, start as int, init),
        decreases args.len() - i,
    {
        let arg = args[i].as_str();
        assert(av[i as int] == arg@);
        if str_eq(arg, "-m") {
            if i + 1 >= args.len() {
                return Err(owned("-m requires a message argument"));
            }
            assert(av[i + 1] == args@[i + 1]@);
            message = Some(args[i + 1].clone());
            i = i + 1;
        } else if let Some(val) = strip_prefix(arg, "-m") {
            message = Some(val);
        } else if let Some(val) = strip_prefix(arg, "--message=") {
            message = Some(val);
        } else if !starts_with(arg, "-") {
            if parent.is_some() {
                return Err(join2("unexpected argument: ", arg));
            }
            parent = Some(owned(arg));
        } else {
            return Err(join2("unknown argument: ", arg));
        }
        i = i + 1;
    }
    let parent = match parent {
        Some(p) => p,
        None => return Err(owned("new requires a <parent> argument")),
    };
    Ok(CliCommand::New { repo_path: owned(cwd), parent, message })
}

// --- stacks / advance ---

/// The flags of `stacks` read from `args[i..]`: `-v`/`--verbose`, and the
/// repository (the last positional argument); other options are ignored.
pub open spec fn stacks_scan(args: Seq<Seq<char>>, i: int, verbose: bool, repo: Option<Seq<char>>) -> (bool, Option<Seq<char>>)
    decreases args.len() - i,
{
    if i < 0 || i >= args.len() {
        (verbose, repo)
    } else {
        let a = args[i];
        if a == "-v"@ || a == "--verbose"@ {
            stacks_scan(args, i + 1, true, repo)
        } else if is_positional(a) {
            stacks_scan(args, i + 1, verbose, Some(a))
        } else {
            stacks_scan(args, i + 1, verbose, repo)
        }
    }
}

/// The flags of `advance` read from `args[i..]`: `--push`, `--dry`, and the
/// repository (the last positional argument); other options are ignored.
pub open spec fn advance_scan(args: Seq<Seq<char>>, i: int, push: bool, dry: bool, repo: Option<Seq<char>>) -> (bool, bool, Option<Seq<char>>)
    decreases args.len() - i,
{
    if i < 0 || i >= args.len() {
        (push, dry, repo)
    } else {
        let a = args[i];
        if a == "--push"@ {
            advance_scan(args, i + 1, true, dry, repo)
        } else if a == "--dry"@ {
            advance_scan(args, i + 1, push, true, repo)
        } else if is_positional(a) {
            advance_scan(args, i + 1, push, dry, Some(a))
        } else {
            advance_scan(args, i + 1, push, dry, repo)
        }
    }
}

fn parse_stacks_command(args: &Vec<String>, cwd: &str) -> (r: CliCommand)
    requires
        args@.len() >= 1,
    ensures
        ({
            let (v, repo) = stacks_scan(strs_view(args@), 1, false, None);
            r.model() == CommandModel::Stacks { repo_path: or_cwd(repo, cwd@), verbose: v }
        }),
{
    let ghost av = strs_view(args@);
    let mut verbose = false;
    let mut repo_arg: Option<String> = None;
    let mut i: usize = 1;
    while i < args.len()
        invariant
            1 <= i <= args@.len(),
            av == strs_view(args@),
            stacks_scan(av, i as int, verbose, opt_view(repo_arg)) == stacks_scan(av, 1, false, None),
        decreases args.len() - i,
    {
        let arg = args[i].as_str();
        assert(av[i as int] == arg@);
        if str_eq(arg, "-v") || str_eq(arg, "--verbose") {
            verbose = true;
        } else if !starts_with(arg, "-") {
            repo_arg = Some(owned(arg));
        }
        i = i + 1;
    }
    CliCommand::Stacks { repo_path: path_or_cwd(repo_arg, cwd), verbose }
}

fn parse_advance_command(args: &Vec<String>, cwd: &str) -> (r: CliCommand)
    requires
        args@.len() >= 1,
    ensures
        ({
            let (p, d, repo) = advance_scan(strs_view(args@), 1, false, false, None);
            r.model() == CommandModel::Advance { repo_path: or_cwd(repo, cwd@), push: p, dry: d }
        }),
{
    let ghost av = strs_view(args@);
    let mut push = false;
    let mut dry = false;
    let mut repo_arg: Option<String> = None;
    let mut i: usize = 1;
    while i < args.len()
        invariant
            1 <= i <= args@.len(),
            av == strs_view(args@),
            advance_scan(av, i as int, push, dry, opt_view(repo_arg)) == advance_scan(av, 1, false, false, None),
        decreases args.len() - i,
    {
        let arg = args[i].as_str();
        assert(av[i as int] == arg@);
        if str_eq(arg, "--push") {
            push = true;
        } else if str_eq(arg, "--dry") {
            dry = true;
        } else if !starts_with(arg, "-") {
            repo_arg = Some(owned(arg));
        }
        i = i + 1;
    }
    CliCommand::Advance { repo_path: path_or_cwd(repo_arg, cwd), push, dry }
}

// --- the whole command line ---

/// Some argument asks for help.
pub open spec fn asks_help(args: Seq<Seq<char>>) -> bool {
    exists|i: int| 0 <= i < args.len() && (#[trigger] args[i] == "--help"@ || args[i] == "-h"@)
}

/// The command that the arguments (after any `-C <path>`) stand for, with
/// `cwd` as the default repository.
pub open spec fn parse_command_spec(args: Seq<Seq<char>>, cwd: Seq<char>) -> Result<CommandModel, Seq<char>> {
    if args.len() == 0 || asks_help(args) {
        Ok(CommandModel::Help)
    } else if args[0] == "create-config"@ {
        parse_create_config_spec(args, 1, cwd)
    } else if args[0] == "rebase"@ {
        Ok(CommandModel::Rebase { repo_path: if args.len() > 1 { args[1] } else { cwd } })
    } else if args[0] == "advance"@ {
        let (p, d, repo) = advance_scan(args, 1, false, false, None);
        Ok(CommandModel::Advance { repo_path: or_cwd(repo, cwd), push: p, dry: d })
    } else if args[0] == "stacks"@ {
        let (v, repo) = stacks_scan(args, 1, false, None);
        Ok(CommandModel::Stacks { repo_path: or_cwd(repo, cwd), verbose: v })
    } else if args[0] == "rm-stack"@ {
        if args.len() > 1 && args[1].len() > 0 {
            Ok(CommandModel::RemoveStack { repo_path: cwd, stack_name: args[1] })
        } else {
            Ok(CommandModel::ListStacks { repo_path: cwd })
        }
    } else if args[0] == "new-stack"@ {
        if args.len() < 2 {
            Err("new-stack requires a <branch> argument"@)
        } else if args[1].len() == 0 {
            Err("new-stack branch cannot be empty"@)
        } else {
            Ok(CommandModel::ApplyBranch {
                repo_path: if args.len() > 2 { args[2] } else { cwd },
                branch_name: args[1],
            })
        }
    } else if args[0] == "move"@ {
        parse_move_spec(args, 1, cwd)
    } else if args[0] == "new"@ {
        parse_new_spec(args, 1, cwd)
    } else {
        parse_run_spec(args, cwd)
    }
}

/// Parses the command line that follows any leading `-C <path>` (see
/// [`change_dir_prefix`]); `cwd` is the current directory, the repository when
/// the arguments name none.
pub fn parse_command(args: &Vec<String>, cwd: &str) -> (r: Result<CliCommand, String>)
    ensures
        match r {
            Ok(c) => parse_command_spec(strs_view(args@), cwd@) == Ok::<CommandModel, Seq<char>>(c.model()),
            Err(e) => parse_command_spec(strs_view(args@), cwd@) == Err::<CommandModel, Seq<char>>(e@),
        },
{
    let ghost av = strs_view(args@);
    // Any request for help wins.
    let mut i: usize = 0;
    while i < args.len()
        invariant
            i <= args@.len(),
            av == strs_view(args@),
            forall|k: int| 0 <= k < i ==> !(#[trigger] av[k] == "--help"@ || av[k] == "-h"@),
        decreases args.len() - i,
    {
        assert(av[i as int] == args@[i as int]@);
        if str_eq(args[i].as_str(), "--help") || str_eq(args[i].as_str(), "-h") {
            return Ok(CliCommand::Help);
        }
        i = i + 1;
    }
    if args.len() == 0 {
        return Ok(CliCommand::Help);
    }
    assert(av[0] == args@[0]@);
    let first = args[0].as_str();
    if str_eq(first, "create-config") {
        return parse_create_config_command(args, 1, cwd);
    }
    if str_eq(first, "rebase") {
        let repo_path = if args.len() > 1 {
            assert(av[1] == args@[1]@);
            args[1].clone()
        } else {
            owned(cwd)
        };
        return Ok(CliCommand::Rebase { repo_path });
    }
    if str_eq(first, "advance") {
        return Ok(parse_advance_command(args, cwd));
    }
    if str_eq(first, "stacks") {
        return Ok(parse_stacks_command(args, cwd));
    }
    if str_eq(first, "rm-stack") {
        if args.len() > 1 && !args[1].as_str().is_empty() {
            assert(av[1] == args@[1]@);
            return Ok(CliCommand::RemoveStack { repo_path: owned(cwd), stack_name: args[1].clone() });
        }
        proof {
            if args@.len() > 1 {
                assert(av[1] == args@[1]@);
            }
        }
        return Ok(CliCommand::ListStacks { repo_path: owned(cwd) });
    }
    if str_eq(first, "new-stack") {
        if args.len() < 2 {
            return Err(owned("new-stack requires a <branch> argument"));
        }
        assert(av[1] == args@[1]@);
        if args[1].as_str().is_empty() {
            return Err(owned("new-stack branch cannot be empty"));
        }
        let repo_path = if args.len() > 2 {
            assert(av[2] == args@[2]@);
            args[2].clone()
        } else {
            owned(cwd)
        };
        return Ok(CliCommand::ApplyBranch { repo_path, branch_name: args[1].clone() });
    }
    if str_eq(first, "move") {
        return parse_move_command(args, 1, cwd);
    }
    if str_eq(first, "new") {
        return parse_new_command(args, 1, cwd);
    }
    parse_run_command(args, cwd)
}

/// Law: the stack list of a `create-config` command line, once `create-config`
/// has added the stacks of a merge commit with `n_parents` parents, is the
/// list that `--reread-stacks` rebuilds from that merge commit.
pub proof fn lemma_created_config_rereads_alike(args: Seq<Seq<char>>, cwd: Seq<char>, n_parents: nat)
    requires
        parse_command_spec(args, cwd) matches Ok(CommandModel::CreateConfig { .. }),
    ensures
        match parse_command_spec(args, cwd) {
            Ok(CommandModel::CreateConfig { config, .. }) => config.stacks + numbered_entries(
                n_parents,
                config.workspace_remote,
            ) == reread_entries(config.trunk, config.workspace_remote, n_parents),
            _ => false,
        },
{
}

/// No argument of `args[i..]` is an option with this prefix.
pub open spec fn no_option_from(args: Seq<Seq<char>>, i: int, prefix: Seq<char>) -> bool {
    forall|k: int| i <= k < args.len() ==> !has_prefix(#[trigger] args[k], prefix)
}

/// The scan of `create-config` options keeps trunk and remote as they were
/// when no `--trunk=` (resp. `--workspace-remote=`) option follows.
proof fn lemma_create_scan_keeps_defaults(args: Seq<Seq<char>>, i: int, st: CreateScan)
    requires
        create_scan(args, i, st) is Ok,
    ensures
        no_option_from(args, i, "--trunk="@) ==> create_scan(args, i, st)->Ok_0.trunk == st.trunk,
        no_option_from(args, i, "--workspace-remote="@) ==> create_scan(args, i, st)->Ok_0.remote == st.remote,
    decreases args.len() - i,
{
    if 0 <= i < args.len() {
        let a = args[i];
        if has_prefix(a, "--workspace-branch="@) {
            let v = a.skip("--workspace-branch="@.len() as int);
            lemma_create_scan_keeps_defaults(args, i + 1, CreateScan { branch: Some(v), ..st });
        } else if has_prefix(a, "--workspace-remote="@) {
            let v = a.skip("--workspace-remote="@.len() as int);
            lemma_create_scan_keeps_defaults(args, i + 1, CreateScan { remote: Some(v), ..st });
        } else if has_prefix(a, "--trunk="@) {
            let v = a.skip("--trunk="@.len() as int);
            lemma_create_scan_keeps_defaults(args, i + 1, CreateScan { trunk: Some(v), ..st });
        } else if has_prefix(a, "--merge-commit="@) {
            let v = a.skip("--merge-commit="@.len() as int);
            lemma_create_scan_keeps_defaults(args, i + 1, CreateScan { merge: Some(v), ..st });
        } else if a == "-A"@ {
            lemma_create_scan_keeps_defaults(args, i + 2, CreateScan { after: Some(args[i + 1]), ..st });
        } else {
            lemma_create_scan_keeps_defaults(args, i + 1, CreateScan { repo: Some(a), ..st });
        }
    }
}

/// Law: a `create-config` command line gives a configuration whose stack
/// list is `workspace` then trunk, on the configured remote; trunk is `main`
/// and the remote `origin` unless an option names them; the merge commit is
/// the one given, and `-A` comes only with a merge commit.
pub proof fn lemma_create_config_command(args: Seq<Seq<char>>, cwd: Seq<char>)
    requires
        parse_command_spec(args, cwd) matches Ok(CommandModel::CreateConfig { .. }),
    ensures
        match parse_command_spec(args, cwd) {
            Ok(CommandModel::CreateConfig { config, after_sha, merge_commit, .. }) => {
                &&& config.stacks == seq![
                    branch_entry("workspace"@, config.workspace_remote),
                    trunk_entry(config.trunk, config.workspace_remote),
                ]
                &&& config.merge_commit == merge_commit
                &&& (after_sha is Some ==> merge_commit is Some)
                &&& (no_option_from(args, 1, "--trunk="@) ==> config.trunk == "main"@)
                &&& (no_option_from(args, 1, "--workspace-remote="@) ==> config.workspace_remote == "origin"@)
            },
            _ => false,
        },
{
    let init = CreateScan { repo: None, branch: None, remote: None, trunk: None, after: None, merge: None };
    if args.len() > 0 && !asks_help(args) && args[0] == "create-config"@ {
        lemma_create_scan_keeps_defaults(args, 1, init);
    }
}

/// The facts about the option words that the laws on `new` rely on.
proof fn lemma_new_words(p: Seq<char>)
    requires
        is_positional(p),
    ensures
        p != "-m"@,
        !has_prefix(p, "-m"@),
        !has_prefix(p, "--message="@),
        p != "--help"@,
        p != "-h"@,
{
    reveal_strlit("-");
    reveal_strlit("-m");
    reveal_strlit("--message=");
    reveal_strlit("--help");
    reveal_strlit("-h");
    if p.len() > 0 {
        assert(p.take(1) != "-"@);
        assert(p[0] != '-') by {
            if p[0] == '-' {
                assert(p.take(1) =~= "-"@);
            }
        }
    }
    if has_prefix(p, "-m"@) {
        assert(p.take(2)[0] == p[0]);
    }
    if has_prefix(p, "--message="@) {
        assert(p.take(10)[0] == p[0]);
    }
}

proof fn lemma_new_is_no_other_command()
    ensures
        "new"@ != "create-config"@,
        "new"@ != "rebase"@,
        "new"@ != "advance"@,
        "new"@ != "stacks"@,
        "new"@ != "rm-stack"@,
        "new"@ != "new-stack"@,
        "new"@ != "move"@,
        "new"@ != "--help"@,
        "new"@ != "-h"@,
        "-m"@ != "--help"@,
        "-m"@ != "-h"@,
{
    reveal_strlit("new");
    reveal_strlit("create-config");
    reveal_strlit("rebase");
    reveal_strlit("advance");
    reveal_strlit("stacks");
    reveal_strlit("rm-stack");
    reveal_strlit("new-stack");
    reveal_strlit("move");
    reveal_strlit("--help");
    reveal_strlit("-h");
    reveal_strlit("-m");
    assert("new"@[0] != "-m"@[0]);
    assert("-m"@[1] != "-h"@[1]);
    assert("new"@.len() != "new-stack"@.len());
}

/// Law: `new <parent> -m <message>` and `new -m <message> <parent>` create a
/// commit after `parent` with that message: a separate `-m` takes exactly the
/// next argument as the message, whatever it is, and reading goes on after it.
pub proof fn lemma_new_with_separate_message(p: Seq<char>, m: Seq<char>, cwd: Seq<char>)
    requires
        is_positional(p),
        m != "--help"@,
        m != "-h"@,
    ensures
        parse_command_spec(seq!["new"@, p, "-m"@, m], cwd) == Ok::<CommandModel, Seq<char>>(
            CommandModel::New { repo_path: cwd, parent: p, message: Some(m) },
        ),
        parse_command_spec(seq!["new"@, "-m"@, m, p], cwd) == Ok::<CommandModel, Seq<char>>(
            CommandModel::New { repo_path: cwd, parent: p, message: Some(m) },
        ),
{
    lemma_new_words(p);
    lemma_new_is_no_other_command();
    let a1 = seq!["new"@, p, "-m"@, m];
    let a2 = seq!["new"@, "-m"@, m, p];
    let init = NewScan { parent: None, message: None };
    assert(!asks_help(a1)) by {
        assert forall|i: int| 0 <= i < a1.len() implies !(#[trigger] a1[i] == "--help"@ || a1[i] == "-h"@) by {}
    }
    assert(!asks_help(a2)) by {
        assert forall|i: int| 0 <= i < a2.len() implies !(#[trigger] a2[i] == "--help"@ || a2[i] == "-h"@) by {}
    }
    let st1 = NewScan { parent: Some(p), message: None };
    assert(new_scan(a1, 4, NewScan { message: Some(m), ..st1 }) == Ok::<NewScan, Seq<char>>(NewScan { parent: Some(p), message: Some(m) }));
    assert(new_scan(a1, 2, st1) == new_scan(a1, 4, NewScan { message: Some(m), ..st1 }));
    assert(new_scan(a1, 1, init) == new_scan(a1, 2, st1));
    let st2 = NewScan { parent: None, message: Some(m) };
    assert(new_scan(a2, 4, NewScan { parent: Some(p), ..st2 }) == Ok::<NewScan, Seq<char>>(NewScan { parent: Some(p), message: Some(m) }));
    assert(new_scan(a2, 3, st2) == new_scan(a2, 4, NewScan { parent: Some(p), ..st2 }));
    assert(new_scan(a2, 1, init) == new_scan(a2, 3, st2));
}

/// Law: a request for help anywhere on the command line is answered with help.
pub proof fn lemma_help_wins(args: Seq<Seq<char>>, cwd: Seq<char>, i: int)
    requires
        0 <= i < args.len(),
        args[i] == "--help"@ || args[i] == "-h"@,
    ensures
        parse_command_spec(args, cwd) == Ok::<CommandModel, Seq<char>>(CommandModel::Help),
{
    assert(asks_help(args));
}

// ---------------------------------------------------------------------------
// Advancing bookmarks, and the other plans of commands
// ---------------------------------------------------------------------------

/// What `advance` does for a stack.
pub enum AdvanceAction {
    /// Move the stack's local bookmark `name` to its head commit.
    SetBookmark { stack: usize, name: String, commit_id: String },
    /// Push the head commit to `branch` on `remote` (no bookmark there yet).
    Push { stack: usize, remote: String, sha: String, branch: String },
}

pub enum ActionModel {
    SetBookmark { stack: nat, name: Seq<char>, commit_id: Seq<char> },
    Push { stack: nat, remote: Seq<char>, sha: Seq<char>, branch: Seq<char> },
}

impl AdvanceAction {
    pub open spec fn model(self) -> ActionModel {
        match self {
            AdvanceAction::SetBookmark { stack, name, commit_id } => ActionModel::SetBookmark {
                stack: stack as nat,
                name: name@,
                commit_id: commit_id@,
            },
            AdvanceAction::Push { stack, remote, sha, branch } => ActionModel::Push {
                stack: stack as nat,
                remote: remote@,
                sha: sha@,
                branch: branch@,
            },
        }
    }
}

pub type Bookmarks = Map<Seq<char>, Seq<Seq<char>>>;

/// Commit `sha` carries bookmark `b`.
pub open spec fn carries(m: Bookmarks, sha: Seq<char>, b: Seq<char>) -> bool {
    m.contains_key(sha) && m[sha].contains(b)
}

/// Some commit carries bookmark `b`.
pub open spec fn carried_anywhere(m: Bookmarks, b: Seq<char>) -> bool {
    exists|k: Seq<char>| m.contains_key(k) && #[trigger] m[k].contains(b)
}

/// Index of the last `c` in `s`, or -1.
pub open spec fn last_index(s: Seq<char>, c: char) -> int
    decreases s.len(),
{
    if s.len() == 0 {
        -1
    } else if s.last() == c {
        s.len() - 1
    } else {
        last_index(s.drop_last(), c)
    }
}

proof fn lemma_last_index(s: Seq<char>, c: char, j: int)
    requires
        -1 <= j < s.len(),
        forall|k: int| j < k < s.len() ==> #[trigger] s[k] != c,
        j >= 0 ==> s[j] == c,
    ensures
        last_index(s, c) == j,
    decreases s.len(),
{
    if s.len() > 0 && j < s.len() - 1 {
        let t = s.drop_last();
        assert forall|k: int| j < k < t.len() implies #[trigger] t[k] != c by {
            assert(t[k] == s[k]);
        }
        if j >= 0 {
            assert(t[j] == s[j]);
        }
        lemma_last_index(t, c, j);
    }
}

/// The actions for stack `i` of `stacks`, configured as `entry`: with a local
/// bookmark and a head commit, the bookmark moves to the head when it is not
/// there but on an older commit of the stack; with `push`, the head is pushed
/// to the remote branch `name@remote` when no commit carries that remote bookmark.
pub open spec fn stack_actions(i: nat, s: StackInfo, entry: EntryModel, m: Bookmarks, push: bool) -> Seq<ActionModel> {
    match entry.local_branch {
        None => seq![],
        Some(b) => if s.commits@.len() == 0 {
            seq![]
        } else {
            let head = s.commits@[0].commit_id@;
            let set = if !carries(m, head, b) && exists|j: int|
                1 <= j < s.commits@.len() && carries(m, #[trigger] s.commits@[j].commit_id@, b) {
                seq![ActionModel::SetBookmark { stack: i, name: b, commit_id: head }]
            } else {
                seq![]
            };
            let pushes = if push {
                match entry.remote_branch {
                    Some(rb) => {
                        let k = last_index(rb, '@');
                        if k >= 0 && !carried_anywhere(m, rb) {
                            seq![ActionModel::Push { stack: i, remote: rb.skip(k + 1), sha: head, branch: rb.take(k) }]
                        } else {
                            seq![]
                        }
                    },
                    None => seq![],
                }
            } else {
                seq![]
            };
            set + pushes
        },
    }
}

/// The command that carries out an action of `advance`: none in a dry run
/// (which only prints what it would do); else `jj bookmark set <name> -r
/// <commit>` to move a bookmark, or `git push --force-with-lease <remote>
/// <sha>:refs/heads/<branch>` to push a head.
pub fn action_command(repo_path: &str, a: &AdvanceAction, dry: bool) -> (r: Option<Invocation>)
    ensures
        dry ==> r is None,
        !dry ==> (r matches Some(i) && match a.model() {
            ActionModel::SetBookmark { stack, name, commit_id } => i.is(
                Tool::Jj,
                Some(repo_path@),
                seq!["bookmark"@, "set"@, name, "-r"@, commit_id],
            ),
            ActionModel::Push { stack, remote, sha, branch } => i.is(
                Tool::Git,
                Some(repo_path@),
                seq!["push"@, "--force-with-lease"@, remote, sha + ":refs/heads/"@ + branch],
            ),
        }),
{
    if dry {
        return None;
    }
    match a {
        AdvanceAction::SetBookmark { stack, name, commit_id } => Some(
            crate::jujutsu::set_bookmark(repo_path, name.as_str(), commit_id.as_str()),
        ),
        AdvanceAction::Push { stack, remote, sha, branch } => Some(
            crate::git_utils::git_push(repo_path, remote.as_str(), sha.as_str(), branch.as_str()),
        ),
    }
}

/// Law: `advance` moves a stack's local bookmark `b` to the stack's head
/// exactly when `b` is not on the head but on an older commit of the stack,
/// whether or not it also pushes.
pub proof fn lemma_advance_moves_outdated_bookmark(
    i: nat,
    s: StackInfo,
    entry: EntryModel,
    m: Bookmarks,
    push: bool,
    b: Seq<char>,
)
    requires
        entry.local_branch == Some(b),
        s.commits@.len() > 0,
    ensures
        stack_actions(i, s, entry, m, push).contains(
            ActionModel::SetBookmark { stack: i, name: b, commit_id: s.commits@[0].commit_id@ },
        ) <==> (!carries(m, s.commits@[0].commit_id@, b) && exists|j: int|
            1 <= j < s.commits@.len() && carries(m, #[trigger] s.commits@[j].commit_id@, b)),
{
    let head = s.commits@[0].commit_id@;
    let act = ActionModel::SetBookmark { stack: i, name: b, commit_id: head };
    let acts = stack_actions(i, s, entry, m, push);
    let cond = !carries(m, head, b) && exists|j: int|
        1 <= j < s.commits@.len() && carries(m, #[trigger] s.commits@[j].commit_id@, b);
    let set: Seq<ActionModel> = if cond {
        seq![act]
    } else {
        seq![]
    };
    let pushes = acts.skip(set.len() as int);
    assert(acts =~= set + pushes);
    assert forall|k: int| 0 <= k < pushes.len() implies #[trigger] pushes[k] is Push by {}
    if cond {
        assert(acts[0] == act);
    } else {
        assert(set.len() == 0);
        if acts.contains(act) {
            let k = choose|k: int| 0 <= k < acts.len() && acts[k] == act;
            assert(pushes[k] is Push);
        }
    }
}

proof fn lemma_last_index_props(s: Seq<char>, c: char)
    ensures
        -1 <= last_index(s, c) < s.len(),
        last_index(s, c) >= 0 ==> s[last_index(s, c)] == c,
        forall|j: int| last_index(s, c) < j < s.len() ==> #[trigger] s[j] != c,
    decreases s.len(),
{
    if s.len() > 0 && s.last() != c {
        let t = s.drop_last();
        lemma_last_index_props(t, c);
        assert forall|j: int| last_index(s, c) < j < s.len() implies #[trigger] s[j] != c by {
            if j < t.len() {
                assert(t[j] == s[j]);
            }
        }
        if last_index(s, c) >= 0 {
            assert(t[last_index(s, c)] == s[last_index(s, c)]);
        }
    }
}

/// What splitting a remote bookmark at its last `@` gives.
proof fn lemma_split_remote(rb: Seq<char>)
    ensures
        rb.contains('@') <==> last_index(rb, '@') >= 0,
        last_index(rb, '@') >= 0 ==> {
            let k = last_index(rb, '@');
            &&& rb == rb.take(k) + "@"@ + rb.skip(k + 1)
            &&& !rb.skip(k + 1).contains('@')
        },
{
    reveal_strlit("@");
    lemma_last_index_props(rb, '@');
    let k = last_index(rb, '@');
    if rb.contains('@') {
        let j = choose|j: int| 0 <= j < rb.len() && #[trigger] rb[j] == '@';
        assert(j <= k);
    }
    if k >= 0 {
        assert(rb =~= rb.take(k) + "@"@ + rb.skip(k + 1));
        let t = rb.skip(k + 1);
        if t.contains('@') {
            let j = choose|j: int| 0 <= j < t.len() && #[trigger] t[j] == '@';
            assert(rb[k + 1 + j] == '@');
        }
    }
}

proof fn lemma_plan_contains(
    stacks: Seq<StackInfo>,
    entries: Seq<EntryModel>,
    m: Bookmarks,
    push: bool,
    n: nat,
    a: ActionModel,
)
    ensures
        advance_plan(stacks, entries, m, push, n).contains(a) <==> exists|i: int|
            0 <= i < n && #[trigger] stack_actions(i as nat, stacks[i], entries[i], m, push).contains(a),
    decreases n,
{
    if n > 0 {
        let n1 = (n - 1) as nat;
        lemma_plan_contains(stacks, entries, m, push, n1, a);
        let before = advance_plan(stacks, entries, m, push, n1);
        let last = stack_actions(n1, stacks[n1 as int], entries[n1 as int], m, push);
        let all = before + last;
        if all.contains(a) {
            let j = choose|j: int| 0 <= j < all.len() && all[j] == a;
            if j < before.len() {
                assert(before[j] == a);
            } else {
                assert(last[j - before.len()] == a);
                assert(stack_actions(n1 as int as nat, stacks[n1 as int], entries[n1 as int], m, push).contains(a));
            }
        }
        if exists|i: int| 0 <= i < n && #[trigger] stack_actions(i as nat, stacks[i], entries[i], m, push).contains(a) {
            let i = choose|i: int| 0 <= i < n && #[trigger] stack_actions(i as nat, stacks[i], entries[i], m, push).contains(a);
            if i < n1 {
                let j = choose|j: int| 0 <= j < before.len() && before[j] == a;
                assert(all[j] == a);
            } else {
                assert(i == n1);
                let j = choose|j: int| 0 <= j < last.len() && last[j] == a;
                assert(all[before.len() + j] == a);
            }
        }
    }
}

/// What the actions planned for one stack are: each is about that stack,
/// and a push is planned exactly for a remote bookmark that no commit carries.
proof fn lemma_stack_pushes(i: nat, st: StackInfo, entry: EntryModel, m: Bookmarks, push: bool)
    ensures
        forall|a: ActionModel|
            #[trigger] stack_actions(i, st, entry, m, push).contains(a) ==> match a {
                ActionModel::SetBookmark { stack, name, commit_id } => stack == i,
                ActionModel::Push { stack, remote, sha, branch } => {
                    &&& stack == i
                    &&& push
                    &&& entry.local_branch is Some
                    &&& st.commits@.len() > 0
                    &&& sha == st.commits@[0].commit_id@
                    &&& entry.remote_branch == Some(branch + "@"@ + remote)
                    &&& !remote.contains('@')
                    &&& !(exists|k: Seq<char>| m.contains_key(k) && #[trigger] m[k].contains(branch + "@"@ + remote))
                },
            },
        (push && entry.local_branch is Some && st.commits@.len() > 0 && entry.remote_branch is Some
            && entry.remote_branch->0.contains('@') && !(exists|k: Seq<char>| m.contains_key(k) && #[trigger] m[k].contains(entry.remote_branch->0)))
            ==> exists|a: ActionModel| #[trigger] stack_actions(i, st, entry, m, push).contains(a) && a is Push,
{
    let acts = stack_actions(i, st, entry, m, push);
    if entry.remote_branch is Some {
        lemma_split_remote(entry.remote_branch->0);
    }
    assert forall|a: ActionModel| #[trigger] acts.contains(a) implies match a {
        ActionModel::SetBookmark { stack, name, commit_id } => stack == i,
        ActionModel::Push { stack, remote, sha, branch } => {
            &&& stack == i
            &&& push
            &&& entry.local_branch is Some
            &&& st.commits@.len() > 0
            &&& sha == st.commits@[0].commit_id@
            &&& entry.remote_branch == Some(branch + "@"@ + remote)
            &&& !remote.contains('@')
            &&& !(exists|k: Seq<char>| m.contains_key(k) && #[trigger] m[k].contains(branch + "@"@ + remote))
        },
    } by {
        let j = choose|j: int| 0 <= j < acts.len() && acts[j] == a;
    }
    if push && entry.local_branch is Some && st.commits@.len() > 0 && entry.remote_branch is Some
        && entry.remote_branch->0.contains('@') && !(exists|k: Seq<char>| m.contains_key(k) && #[trigger] m[k].contains(entry.remote_branch->0)) {
        let a = acts.last();
        assert(acts.contains(a));
    }
}

/// Law: with `--push`, `advance` pushes the head of a stack exactly when the
/// stack has a local branch, a head commit and a remote bookmark
/// `<branch>@<remote>`, and no commit at all carries that remote bookmark
/// yet; the push sends the head to `refs/heads/<branch>` on `<remote>` (the
/// bookmark split at its last `@`). Without `--push` nothing is pushed.
pub proof fn lemma_advance_pushes_only_missing_remote_bookmarks(
    stacks: Seq<StackInfo>,
    entries: Seq<EntryModel>,
    m: Bookmarks,
    push: bool,
    n: nat,
)
    requires
        n <= stacks.len(),
        n <= entries.len(),
    ensures
        forall|a: ActionModel|
            #[trigger] advance_plan(stacks, entries, m, push, n).contains(a) ==> (a matches ActionModel::Push {
                stack,
                remote,
                sha,
                branch,
            } ==> {
                &&& stack < n
                &&& push
                &&& entries[stack as int].local_branch is Some
                &&& stacks[stack as int].commits@.len() > 0
                &&& sha == stacks[stack as int].commits@[0].commit_id@
                &&& entries[stack as int].remote_branch == Some(branch + "@"@ + remote)
                &&& !remote.contains('@')
                &&& !(exists|k: Seq<char>| m.contains_key(k) && #[trigger] m[k].contains(branch + "@"@ + remote))
            }),
        forall|i: int|
            0 <= i < n && push && (#[trigger] entries[i]).local_branch is Some && stacks[i].commits@.len() > 0
                && entries[i].remote_branch is Some && entries[i].remote_branch->0.contains('@') && !(exists|k: Seq<char>|
                m.contains_key(k) && #[trigger] m[k].contains(entries[i].remote_branch->0)) ==> exists|a: ActionModel|
                #[trigger] advance_plan(stacks, entries, m, push, n).contains(a) && a is Push && a->Push_stack == i,
{
    let plan = advance_plan(stacks, entries, m, push, n);
    assert forall|a: ActionModel| #[trigger] plan.contains(a) implies (a matches ActionModel::Push {
        stack,
        remote,
        sha,
        branch,
    } ==> {
        &&& stack < n
        &&& push
        &&& entries[stack as int].local_branch is Some
        &&& stacks[stack as int].commits@.len() > 0
        &&& sha == stacks[stack as int].commits@[0].commit_id@
        &&& entries[stack as int].remote_branch == Some(branch + "@"@ + remote)
        &&& !remote.contains('@')
        &&& !(exists|k: Seq<char>| m.contains_key(k) && #[trigger] m[k].contains(branch + "@"@ + remote))
    }) by {
        lemma_plan_contains(stacks, entries, m, push, n, a);
        let i = choose|i: int| 0 <= i < n && #[trigger] stack_actions(i as nat, stacks[i], entries[i], m, push).contains(a);
        lemma_stack_pushes(i as nat, stacks[i], entries[i], m, push);
    }
    assert forall|i: int|
        0 <= i < n && push && (#[trigger] entries[i]).local_branch is Some && stacks[i].commits@.len() > 0
            && entries[i].remote_branch is Some && entries[i].remote_branch->0.contains('@') && !(exists|k: Seq<char>|
            m.contains_key(k) && #[trigger] m[k].contains(entries[i].remote_branch->0)) implies exists|a: ActionModel|
            #[trigger] plan.contains(a) && a is Push && a->Push_stack == i by {
        lemma_stack_pushes(i as nat, stacks[i], entries[i], m, push);
        let a = choose|a: ActionModel| #[trigger] stack_actions(i as nat, stacks[i], entries[i], m, push).contains(a) && a is Push;
        lemma_plan_contains(stacks, entries, m, push, n, a);
        assert(stack_actions(i as nat, stacks[i], entries[i], m, push).contains(a));
        assert(plan.contains(a));
    }
}

/// The actions for the first `n` stacks, in order.
pub open spec fn advance_plan(stacks: Seq<StackInfo>, entries: Seq<EntryModel>, m: Bookmarks, push: bool, n: nat) -> Seq<ActionModel>
    decreases n,
{
    if n == 0 {
        seq![]
    } else {
        advance_plan(stacks, entries, m, push, (n - 1) as nat) + stack_actions(
            (n - 1) as nat,
            stacks[n - 1],
            entries[n - 1],
            m,
            push,
        )
    }
}

fn rsplit_at(s: &str, c: char) -> (r: Option<(String, String)>)
    ensures
        last_index(s@, c) < 0 ==> r is None,
        last_index(s@, c) >= 0 ==> (r matches Some((a, b)) && a@ == s@.take(last_index(s@, c)) && b@
            == s@.skip(last_index(s@, c) + 1)),
{
    let v = chars_of(s);
    let mut k: usize = v.len();
    while k > 0 && v[k - 1] != c
        invariant
            k <= v@.len(),
            v@ == s@,
            forall|j: int| k <= j < v@.len() ==> #[trigger] v@[j] != c,
        decreases k,
    {
        k = k - 1;
    }
    if k == 0 {
        proof {
            lemma_last_index(v@, c, -1);
        }
        None
    } else {
        proof {
            lemma_last_index(v@, c, k - 1);
        }
        let a = string_of_range(v.as_slice(), 0, k - 1);
        let b = string_of_range(v.as_slice(), k, v.len());
        assert(a@ =~= s@.take(k - 1));
        assert(b@ =~= s@.skip(k as int));
        Some((a, b))
    }
}

/// What `advance [--push]` does, stack by stack (`stacks` and the configured
/// `entries` taken pairwise), given the bookmarks of each commit.
pub fn advance_bookmarks(stacks: &Vec<StackInfo>, entries: &Vec<StackEntry>, map: &BookmarkMap, push: bool) -> (r: Vec<AdvanceAction>)
    requires
        map.wf(),
    ensures
        r@.map_values(|a: AdvanceAction| a.model()) == advance_plan(
            stacks@,
            entries_view(entries@),
            map.view(),
            push,
            if stacks@.len() < entries@.len() {
                stacks@.len()
            } else {
                entries@.len()
            },
        ),
{
    let n = if stacks.len() < entries.len() {
        stacks.len()
    } else {
        entries.len()
    };
    let ghost ev = entries_view(entries@);
    let ghost m = map.view();
    let mut r: Vec<AdvanceAction> = Vec::new();
    let mut i: usize = 0;
    while i < n
        invariant
            i <= n,
            n <= stacks@.len(),
            n <= entries@.len(),
            ev == entries_view(entries@),
            m == map.view(),
            map.wf(),
            r@.map_values(|a: AdvanceAction| a.model()) == advance_plan(stacks@, ev, m, push, i as nat),
        decreases n - i,
    {
        let ghost before = r@.map_values(|a: AdvanceAction| a.model());
        let stack = &stacks[i];
        let entry = &entries[i];
        assert(ev[i as int] == entry.model());
        let ghost acts = stack_actions(i as nat, *stack, entry.model(), m, push);
        assert(advance_plan(stacks@, ev, m, push, (i + 1) as nat) == before + acts);
        match &entry.local_branch {
            None => {
                assert(acts =~= Seq::<ActionModel>::empty());
                assert(before + acts =~= before);
            },
            Some(b) => {
                if stack.commits.len() == 0 {
                    assert(acts =~= Seq::<ActionModel>::empty());
                    assert(before + acts =~= before);
                } else {
                    let head = &stack.commits[0];
                    let on_head = map.has_bookmark(head.commit_id.as_str(), b.as_str());
                    let mut set: Vec<AdvanceAction> = Vec::new();
                    if !on_head {
                        let mut j: usize = 1;
                        let mut elsewhere = false;
                        while j < stack.commits.len() && !elsewhere
                            invariant
                                1 <= j <= stack.commits@.len(),
                                map.wf(),
                                m == map.view(),
                                elsewhere == exists|k: int| 1 <= k < j && carries(m, #[trigger] stack.commits@[k].commit_id@, b@),
                            decreases stack.commits.len() - j,
                        {
                            if map.has_bookmark(stack.commits[j].commit_id.as_str(), b.as_str()) {
                                elsewhere = true;
                            }
                            j = j + 1;
                        }
                        assert(elsewhere == exists|k: int| 1 <= k < stack.commits@.len() && carries(m, #[trigger] stack.commits@[k].commit_id@, b@));
                        if elsewhere {
                            set.push(AdvanceAction::SetBookmark { stack: i, name: b.clone(), commit_id: head.commit_id.clone() });
                        }
                    }
                    let mut pushes: Vec<AdvanceAction> = Vec::new();
                    if push {
                        match &entry.remote_branch {
                            Some(rb) => {
                                match rsplit_at(rb.as_str(), '@') {
                                    Some((rb_name, remote)) => {
                                        if !map.any_has_bookmark(rb.as_str()) {
                                            pushes.push(AdvanceAction::Push { stack: i, remote, sha: head.commit_id.clone(), branch: rb_name });
                                        }
                                    },
                                    None => {},
                                }
                            },
                            None => {},
                        }
                    }
                    let ghost sv = set@.map_values(|a: AdvanceAction| a.model());
                    let ghost pv = pushes@.map_values(|a: AdvanceAction| a.model());
                    assert(sv + pv =~= acts);
                    let mut k: usize = 0;
                    let ghost start = r@.map_values(|a: AdvanceAction| a.model());
                    let mut all = set;
                    all.append(&mut pushes);
                    assert(all@.map_values(|a: AdvanceAction| a.model()) =~= sv + pv);
                    let ghost allv = all@.map_values(|a: AdvanceAction| a.model());
                    r.append(&mut all);
                    assert(r@.map_values(|a: AdvanceAction| a.model()) =~= start + allv);
                }
            },
        }
        i = i + 1;
    }
    r
}

/// The command `new <parent> [-m <message>]` runs: `jj new -A <parent> --no-edit [-m <message>]`.
pub fn new_commit(repo_path: &str, parent: &str, message: Option<&str>) -> (r: Invocation)
    ensures
        r.is(
            Tool::Jj,
            Some(repo_path@),
            seq!["new"@, "-A"@, parent@, "--no-edit"@] + match message {
                Some(m) => seq!["-m"@, m@],
                None => seq![],
            },
        ),
{
    crate::jujutsu::new_after(repo_path, parent, message)
}

/// The commands `move` runs: `jj rebase -r <sha> -A <after_commit>`, then,
/// when a merge commit is configured, `jj new <merge_commit>` to put the
/// working copy back on top of it.
pub fn move_commit(repo_path: &str, config: &Config, sha: &str, after_commit: &str) -> (r: Vec<Invocation>)
    ensures
        r@.len() == if config.merge_commit is Some {
            2int
        } else {
            1
        },
        r@[0].is(Tool::Jj, Some(repo_path@), seq!["rebase"@, "-r"@, sha@, "-A"@, after_commit@]),
        config.merge_commit matches Some(mc) ==> r@[1].is(Tool::Jj, Some(repo_path@), seq!["new"@, mc@]),
{
    let mut r: Vec<Invocation> = Vec::new();
    r.push(crate::jujutsu::rebase_after(repo_path, sha, after_commit));
    if let Some(mc) = &config.merge_commit {
        r.push(crate::jujutsu::new_only(repo_path, mc.as_str()));
    }
    r
}

/// The first eight bytes of an id (all of it when shorter), as listings show
/// it: the longest prefix whose UTF-8 encoding fits in eight bytes.
pub fn short_id(id: &str) -> (r: String)
    ensures
        r@ == id@.take(chars_within(id@, 8) as int),
{
    prefix_within(id, 8)
}

/// A commit needs a rebase onto the remote trunk when it is an ancestor of
/// it but not the other way round; an unknown answer counts as no (resp.
/// yes) so that doubt never asks for a rebase.
pub fn is_behind(ancestor_of_trunk: Option<bool>, trunk_ancestor_of_it: Option<bool>) -> (r: bool)
    ensures
        r == (ancestor_of_trunk == Some(true) && trunk_ancestor_of_it == Some(false)),
{
    let a = match ancestor_of_trunk {
        Some(x) => x,
        None => false,
    };
    let b = match trunk_ancestor_of_it {
        Some(x) => x,
        None => true,
    };
    a && !b
}

/// The spec of the text of the `jj rebase` command that recreates the merge
/// commit: `jj rebase -s <merge_ref>` then ` -d <dest>` for each destination.
pub open spec fn rebase_command_text(merge_ref: Seq<char>, dests: Seq<Seq<char>>) -> Seq<char>
    decreases dests.len(),
{
    if dests.len() == 0 {
        "jj rebase -s "@ + merge_ref
    } else {
        rebase_command_text(merge_ref, dests.drop_last()) + " -d "@ + dests.last()
    }
}

/// The destinations of that command: trunk's parent is named `<trunk>@<remote>`,
/// every other parent by its change id (`change_ids[i]` for parent `i`).
pub open spec fn merge_dests(n: nat, trunk_index: nat, trunk_ref: Seq<char>, change_ids: Seq<Seq<char>>) -> Seq<Seq<char>> {
    Seq::new(n, |i: int| if i == trunk_index { trunk_ref } else { change_ids[i] })
}

/// The `jj rebase` command line that `--print-merge-command` prints for a
/// merge commit `merge_ref` whose parents have the change ids `change_ids`
/// (the entry at `trunk_index` is not used: trunk is named `trunk_ref`).
pub fn merge_command(merge_ref: &str, trunk_index: usize, trunk_ref: &str, change_ids: &Vec<String>) -> (r: String)
    ensures
        r@ == rebase_command_text(merge_ref@, merge_dests(change_ids@.len(), trunk_index as nat, trunk_ref@, strs_view(change_ids@))),
{
    let ghost d = merge_dests(change_ids@.len(), trunk_index as nat, trunk_ref@, strs_view(change_ids@));
    let mut r = join2("jj rebase -s ", merge_ref);
    let mut i: usize = 0;
    assert(d.take(0) =~= Seq::<Seq<char>>::empty());
    while i < change_ids.len()
        invariant
            i <= change_ids@.len(),
            d == merge_dests(change_ids@.len(), trunk_index as nat, trunk_ref@, strs_view(change_ids@)),
            r@ == rebase_command_text(merge_ref@, d.take(i as int)),
        decreases change_ids.len() - i,
    {
        let dest = if i == trunk_index {
            owned(trunk_ref)
        } else {
            change_ids[i].clone()
        };
        assert(dest@ == d[i as int]);
        let piece = join2(" -d ", dest.as_str());
        r = join2(r.as_str(), piece.as_str());
        assert(d.take(i + 1).drop_last() =~= d.take(i as int));
        assert(r@ =~= rebase_command_text(merge_ref@, d.take(i as int)) + " -d "@ + dest@);
        i = i + 1;
    }
    assert(d.take(i as int) =~= d);
    r
}

/// Pieces of the help text, around the program's name.
pub const HELP_HEAD: &'static str = "Usage: ";

pub const HELP_MIDDLE: &'static str = " [-C <path>] [OPTIONS] [<repo-path>]\n       ";

pub const HELP_TAIL: &'static str = " [-C <path>] create-config [<repo-path>] --workspace-branch=<branch> [--workspace-remote=<remote>] [--trunk=<branch>] [-A <sha>]\n\nOptions:\n  -C <path>                        Change to <path> before doing anything\n  --remove-stack <name>            Remove a stack from the workspace merge commit\n  --print-merge-command            Print the jj rebase command for the merge commit and exit\n  -v, --verbose                    Show extra details (e.g. root commit with --print-stacks)\n  --reread-stacks                  Re-read merge commit parents from git and update config\n  --help                           Show this help message\n\ncreate-config options:\n  --workspace-branch=<branch>      Name of the workspace branch to create\n  --workspace-remote=<remote>      Name of the git remote (default: origin)\n  --trunk=<branch>                 Name of the trunk branch (default: main)\n  -A <sha>                         After creating the config, rebase @ after <sha>\n                                   (requires --merge-commit)\n  --merge-commit=<sha>             SHA of the workspace merge commit (written to config)\n\nSubcommands:\n  stacks [-v] [<repo-path>]         Print stacks to stdout and exit (no GUI)\n  rebase [<repo-path>]             Rebase workspace merge commit so its trunk\n                                   parent points to the latest remote trunk\n  advance [--push] [--dry] [<path>]  Advance outdated bookmarks to their stack head\n                                   --push also pushes to remote if no remote bookmark exists\n                                   --dry print what would be done without making changes\n  move -r|-s <sha> <after_commit> [<path>]  Rebase <sha> after <after_commit>, then\n                                   move the working copy onto the merge commit\n  new <parent> [-m <message>]      Create a new commit after <parent> without\n                                   editing it (jj new -A <parent> --no-edit)\n  new-stack <branch>               Add <branch> as a parent of the workspace merge commit,\n                                   creating it off trunk if it does not exist\n  rm-stack [<branch>]              Remove <branch> from the workspace merge commit parents\n                                   and from the config. With no arg, list removable stacks.\n";

/// The text of `--help` for the program `bin_name`.
pub fn help_text(bin_name: &str) -> (r: String)
    ensures
        r@ == HELP_HEAD@ + bin_name@ + HELP_MIDDLE@ + bin_name@ + HELP_TAIL@,
{
    let a = join3(HELP_HEAD, bin_name, HELP_MIDDLE);
    join3(a.as_str(), bin_name, HELP_TAIL)
}

} // verus!
