//! The workspace configuration: the branches the workspace merges, and how
//! the stack list changes when stacks are added, removed or re-read.
use vstd::prelude::*;
use crate::invocation::{Invocation, Tool, strs_view};
use crate::text::{owned, join2, join3, decimal, decimal_string, str_eq, ends_with, has_suffix};

verus! {

/// File name of the tool's configuration, at the root of the repository.
pub const FILE_NAME: &'static str = ".guiguitsu.json";

/// One parent of the workspace merge commit, as the configuration names it.
#[derive(Clone, Debug)]
pub struct StackEntry {
    pub name: String,
    pub local_branch: Option<String>,
    pub remote_branch: Option<String>,
}

/// A stack entry as a mathematical value.
pub struct EntryModel {
    pub name: Seq<char>,
    pub local_branch: Option<Seq<char>>,
    pub remote_branch: Option<Seq<char>>,
}

pub open spec fn opt_view(o: Option<String>) -> Option<Seq<char>> {
    match o {
        Some(s) => Some(s@),
        None => None,
    }
}

impl StackEntry {
    pub open spec fn model(self) -> EntryModel {
        EntryModel {
            name: self.name@,
            local_branch: opt_view(self.local_branch),
            remote_branch: opt_view(self.remote_branch),
        }
    }

    /// The entry of a stack on branch `name`: the local branch `name` and the
    /// remote bookmark `name@remote`.
    pub fn for_branch(name: &str, remote: &str) -> (r: Self)
        ensures
            r.model() == branch_entry(name@, remote@),
    {
        StackEntry {
            name: owned(name),
            local_branch: Some(owned(name)),
            remote_branch: Some(join3(name, "@", remote)),
        }
    }
}

pub open spec fn branch_entry(name: Seq<char>, remote: Seq<char>) -> EntryModel {
    EntryModel { name, local_branch: Some(name), remote_branch: Some(name + "@"@ + remote) }
}

/// The trunk's entry: no local branch, the remote bookmark `trunk@remote`.
pub open spec fn trunk_entry(trunk: Seq<char>, remote: Seq<char>) -> EntryModel {
    EntryModel { name: trunk, local_branch: None, remote_branch: Some(trunk + "@"@ + remote) }
}

pub open spec fn entries_view(v: Seq<StackEntry>) -> Seq<EntryModel> {
    v.map_values(|e: StackEntry| e.model())
}

/// The configuration stored in the repository.
#[derive(Clone, Debug)]
pub struct Config {
    pub workspace_branch: String,
    pub workspace_remote: String,
    pub trunk: String,
    pub stacks: Vec<StackEntry>,
    pub merge_commit: Option<String>,
}

/// Where `name` lies in a directory: `dir` joined with it as `Path::join` does
/// on Unix (a separator is added unless `dir` is empty or ends with one).
pub open spec fn joined(dir: Seq<char>, name: Seq<char>) -> Seq<char> {
    if dir.len() == 0 || dir.last() == '/' {
        dir + name
    } else {
        dir + "/"@ + name
    }
}

impl Config {
    /// The configuration file of the repository at `repo_path`.
    pub fn path(repo_path: &str) -> (r: String)
        ensures
            r@ == joined(repo_path@, FILE_NAME@),
    {
        proof {
            reveal_strlit("/");
        }
        if repo_path.is_empty() || ends_with(repo_path, "/") {
            proof {
                if repo_path@.len() > 0 {
                    assert(repo_path@.skip(repo_path@.len() - 1) == "/"@);
                    assert(repo_path@.last() == repo_path@.skip(repo_path@.len() - 1)[0]);
                }
            }
            join2(repo_path, FILE_NAME)
        } else {
            proof {
                if repo_path@.last() == '/' {
                    assert(repo_path@.skip(repo_path@.len() - 1) =~= "/"@);
                }
            }
            join3(repo_path, "/", FILE_NAME)
        }
    }

    /// The check that the configured remote exists: `git remote get-url <remote>`.
    pub fn validate(&self, repo_path: &str) -> (r: Invocation)
        ensures
            r.is(
                Tool::Git,
                Some(repo_path@),
                seq!["remote"@, "get-url"@, self.workspace_remote@],
            ),
    {
        crate::git_utils::ensure_remote_exists(repo_path, self.workspace_remote.as_str())
    }

    /// The remote-tracking ref of trunk: `<remote>/<trunk>`.
    pub fn base_ref(&self) -> (r: String)
        ensures
            r@ == self.workspace_remote@ + "/"@ + self.trunk@,
    {
        join3(self.workspace_remote.as_str(), "/", self.trunk.as_str())
    }

    /// The jj name of the remote trunk: `<trunk>@<remote>`.
    pub fn trunk_remote_ref(&self) -> (r: String)
        ensures
            r@ == self.trunk@ + "@"@ + self.workspace_remote@,
    {
        join3(self.trunk.as_str(), "@", self.workspace_remote.as_str())
    }
}

// ---------------------------------------------------------------------------
// The stack list
// ---------------------------------------------------------------------------

/// The name `stack<k>`.
pub open spec fn stack_name(k: nat) -> Seq<char> {
    "stack"@ + decimal(k)
}

/// The entries that stand for merge parents from the third on: parent `i`
/// (counting from 0) is `stack<i-1>`.
pub open spec fn numbered_entries(n_parents: nat, remote: Seq<char>) -> Seq<EntryModel> {
    Seq::new(
        if n_parents >= 2 {
            (n_parents - 2) as nat
        } else {
            0
        },
        |j: int| branch_entry(stack_name((j + 1) as nat), remote),
    )
}

/// Appends `stack1`, `stack2`, ... for the merge parents beyond the first two.
pub fn push_numbered_entries(stacks: &mut Vec<StackEntry>, n_parents: usize, remote: &str)
    ensures
        entries_view(final(stacks)@) == entries_view(old(stacks)@) + numbered_entries(
            n_parents as nat,
            remote@,
        ),
{
    let ghost start = entries_view(stacks@);
    let mut i: usize = 2;
    assert(entries_view(stacks@) =~= start + numbered_entries(0, remote@));
    while i < n_parents
        invariant
            2 <= i,
            i <= n_parents || n_parents < 2,
            n_parents < 2 ==> i == 2,
            entries_view(stacks@) == start + numbered_entries(i as nat, remote@),
        decreases n_parents - i,
    {
        let n = decimal_string(i - 1);
        let name = join2("stack", n.as_str());
        let ghost before = stacks@;
        let e = StackEntry::for_branch(name.as_str(), remote);
        assert(e.model() == branch_entry(stack_name((i - 1) as nat), remote@));
        stacks.push(e);
        assert(entries_view(stacks@) =~= entries_view(before).push(e.model()));
        assert(numbered_entries((i + 1) as nat, remote@) =~= numbered_entries(i as nat, remote@).push(
            branch_entry(stack_name((i - 1) as nat), remote@),
        ));
        assert(entries_view(stacks@) =~= start + numbered_entries((i + 1) as nat, remote@));
        i = i + 1;
    }
    if n_parents >= 2 {
        assert(i == n_parents);
    } else {
        assert(numbered_entries(i as nat, remote@) =~= numbered_entries(n_parents as nat, remote@));
    }
}

/// The stack list read back from a merge commit with `n_parents` parents:
/// `workspace`, trunk, then `stack1`, `stack2`, ... for the other parents.
pub open spec fn reread_entries(trunk: Seq<char>, remote: Seq<char>, n_parents: nat) -> Seq<EntryModel> {
    seq![branch_entry("workspace"@, remote), trunk_entry(trunk, remote)] + numbered_entries(
        n_parents,
        remote,
    )
}

/// The two entries every configuration starts with: `workspace` and trunk.
pub fn default_stacks(trunk: &str, remote: &str) -> (r: Vec<StackEntry>)
    ensures
        entries_view(r@) == seq![branch_entry("workspace"@, remote@), trunk_entry(trunk@, remote@)],
{
    let mut r: Vec<StackEntry> = Vec::new();
    r.push(StackEntry::for_branch("workspace", remote));
    r.push(StackEntry {
        name: owned(trunk),
        local_branch: None,
        remote_branch: Some(join3(trunk, "@", remote)),
    });
    assert(entries_view(r@) =~= seq![branch_entry("workspace"@, remote@), trunk_entry(trunk@, remote@)]);
    r
}

/// A stack that may be removed: any but `workspace` and trunk.
pub open spec fn removable(name: Seq<char>, trunk: Seq<char>) -> bool {
    name != "workspace"@ && name != trunk
}

/// Index of the first entry named `name`, if any.
pub fn position_of(stacks: &Vec<StackEntry>, name: &str) -> (r: Option<usize>)
    ensures
        r matches Some(i) ==> i < stacks@.len() && stacks@[i as int].name@ == name@ && forall|k: int|
            0 <= k < i ==> #[trigger] stacks@[k].name@ != name@,
        r is None ==> forall|k: int| 0 <= k < stacks@.len() ==> #[trigger] stacks@[k].name@ != name@,
{
    let mut i: usize = 0;
    while i < stacks.len()
        invariant
            i <= stacks@.len(),
            forall|k: int| 0 <= k < i ==> #[trigger] stacks@[k].name@ != name@,
        decreases stacks.len() - i,
    {
        if str_eq(stacks[i].name.as_str(), name) {
            return Some(i);
        }
        i = i + 1;
    }
    None
}

/// A configuration as a mathematical value.
pub struct ConfigModel {
    pub workspace_branch: Seq<char>,
    pub workspace_remote: Seq<char>,
    pub trunk: Seq<char>,
    pub stacks: Seq<EntryModel>,
    pub merge_commit: Option<Seq<char>>,
}

impl Config {
    pub open spec fn model(self) -> ConfigModel {
        ConfigModel {
            workspace_branch: self.workspace_branch@,
            workspace_remote: self.workspace_remote@,
            trunk: self.trunk@,
            stacks: entries_view(self.stacks@),
            merge_commit: opt_view(self.merge_commit),
        }
    }
}

} // verus!
