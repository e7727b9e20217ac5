//! Stacks: the branches merged into the workspace merge commit, each with the
//! commits it has on top of trunk.
use vstd::prelude::*;
use crate::config::{StackEntry, EntryModel, entries_view};
use crate::git_utils::{CommitInfo, CommitRecord};
use crate::invocation::{Invocation, Tool, strs_view};
use crate::jujutsu::{RevLookup, to_sha1, is_change_id_spec};
use crate::git_utils::current_head_sha;
use crate::text::{owned, join2, join3, decimal, decimal_string, str_eq};

verus! {

/// A stack as shown to the user.
pub struct StackInfo {
    pub name: String,
    /// Newest first.
    pub commits: Vec<CommitInfo>,
    /// Where the stack forks off trunk.
    pub base_commit_id: String,
}

pub open spec fn records(cs: Seq<CommitInfo>) -> Seq<CommitRecord> {
    cs.map_values(|c: CommitInfo| c.model())
}

impl StackInfo {
    /// The newest commit of the stack, if it has any.
    pub fn head_commit_id(&self) -> (r: Option<&str>)
        ensures
            self.commits@.len() == 0 ==> r is None,
            self.commits@.len() > 0 ==> (r matches Some(s) && s@ == self.commits@[0].commit_id@),
    {
        if self.commits.len() == 0 {
            None
        } else {
            Some(self.commits[0].commit_id.as_str())
        }
    }

    /// The oldest commit of the stack, if it has any.
    pub fn root_commit_id(&self) -> (r: Option<&str>)
        ensures
            self.commits@.len() == 0 ==> r is None,
            self.commits@.len() > 0 ==> (r matches Some(s) && s@ == self.commits@.last().commit_id@),
    {
        if self.commits.len() == 0 {
            None
        } else {
            Some(self.commits[self.commits.len() - 1].commit_id.as_str())
        }
    }
}

/// A source of the stacks of a workspace, newest commit first in each stack.
pub trait StackProvider {
    fn get_stacks(&self) -> Result<Vec<StackInfo>, String>;
}

/// Reads the stacks of a repository from git: the parents of the workspace
/// merge commit, matched with the configured stack entries.
pub struct GitStackProvider {
    pub repo_path: String,
    pub trunk_name: String,
    pub remote: String,
    /// Ordered stack entries from the configuration.
    pub config_stacks: Vec<StackEntry>,
    /// The merge commit as configured (change id or commit id), if any.
    pub merge_commit_ref: Option<String>,
}

/// Where the merge parents of a workspace come from.
pub enum ParentsSource {
    /// The configured merge commit, once its commit id is known.
    MergeCommit(RevLookup),
    /// The walk from HEAD, starting with this command.
    WalkFromHead(Invocation),
}

/// One step of reading the stacks by the first-parent walk from HEAD.
pub enum StacksWalk {
    /// The walk reached the merge commit: the stacks are read from these parents.
    Parents(Vec<String>),
    /// Not a merge: go on with this parent.
    Next(String),
    /// The walk reached a root commit without a merge: these are the stacks (none).
    Done(Vec<StackInfo>),
}

/// Which merge parent each configured stack stands for, and where trunk is.
pub struct StackLayout {
    pub parent_index_for: Vec<usize>,
    pub trunk_index: usize,
}

/// The parent matched by a stack whose branch resolved to `branch_sha`: the
/// first parent equal to it or an ancestor of it (`ancestry[i]` tells whether
/// `parents[i]` is one).
pub open spec fn matching_parent(parents: Seq<Seq<char>>, branch_sha: Seq<char>, ancestry: Seq<bool>) -> Option<nat>
    decreases parents.len(),
{
    if parents.len() == 0 || ancestry.len() == 0 {
        None
    } else if parents[0] == branch_sha || ancestry[0] {
        Some(0)
    } else {
        match matching_parent(parents.drop_first(), branch_sha, ancestry.drop_first()) {
            Some(i) => Some(i + 1),
            None => None,
        }
    }
}

pub open spec fn hit(parents: Seq<Seq<char>>, branch_sha: Seq<char>, ancestry: Seq<bool>, k: int) -> bool {
    parents[k] == branch_sha || ancestry[k]
}

/// The parent matched by a stack whose branch resolved to `branch_sha`: the
/// first parent equal to it or an ancestor of it (`ancestry[i]` tells whether
/// `parents[i]` is one, and is only consulted when it is not equal).
pub fn match_parent(parents: &Vec<String>, branch_sha: &str, ancestry: &Vec<bool>) -> (r: Option<usize>)
    requires
        ancestry@.len() == parents@.len(),
    ensures
        r == (match matching_parent(strs_view(parents@), branch_sha@, ancestry@) {
            Some(i) => Some(i as usize),
            None => None,
        }),
{
    let ghost pv = strs_view(parents@);
    let mut i: usize = 0;
    while i < parents.len()
        invariant
            i <= parents@.len(),
            ancestry@.len() == parents@.len(),
            pv == strs_view(parents@),
            forall|k: int| 0 <= k < i ==> !#[trigger] hit(pv, branch_sha@, ancestry@, k),
        decreases parents.len() - i,
    {
        assert(pv[i as int] == parents@[i as int]@);
        if str_eq(parents[i].as_str(), branch_sha) || ancestry[i] {
            proof {
                lemma_matching_parent(pv, branch_sha@, ancestry@, i as int);
            }
            return Some(i);
        }
        i = i + 1;
    }
    proof {
        lemma_matching_parent(pv, branch_sha@, ancestry@, pv.len() as int);
    }
    None
}

proof fn lemma_matching_parent(parents: Seq<Seq<char>>, branch_sha: Seq<char>, ancestry: Seq<bool>, j: int)
    requires
        parents.len() == ancestry.len(),
        0 <= j <= parents.len(),
        forall|k: int| 0 <= k < j ==> !#[trigger] hit(parents, branch_sha, ancestry, k),
        j < parents.len() ==> hit(parents, branch_sha, ancestry, j),
    ensures
        matching_parent(parents, branch_sha, ancestry) == if j < parents.len() {
            Some(j as nat)
        } else {
            None::<nat>
        },
    decreases j,
{
    if j > 0 {
        let p = parents.drop_first();
        let a = ancestry.drop_first();
        assert(!hit(parents, branch_sha, ancestry, 0));
        assert forall|k: int| 0 <= k < j - 1 implies !#[trigger] hit(p, branch_sha, a, k) by {
            assert(p[k] == parents[k + 1] && a[k] == ancestry[k + 1]);
            assert(!hit(parents, branch_sha, ancestry, k + 1));
        }
        if j - 1 < p.len() {
            assert(p[j - 1] == parents[j] && a[j - 1] == ancestry[j]);
        }
        lemma_matching_parent(p, branch_sha, a, j - 1);
    }
}

/// The parent index of each stack: the matched one, else its own position.
pub open spec fn layout_indices(matches: Seq<Option<usize>>) -> Seq<nat> {
    Seq::new(
        matches.len(),
        |ci: int|
            match matches[ci] {
                Some(pi) => pi as nat,
                None => ci as nat,
            },
    )
}

pub open spec fn names_of(stacks: Seq<StackEntry>) -> Seq<Seq<char>> {
    entries_view(stacks).map_values(|e: EntryModel| e.name)
}

impl GitStackProvider {
    pub fn new(
        repo_path: String,
        trunk_name: String,
        remote: String,
        config_stacks: Vec<StackEntry>,
        merge_commit_ref: Option<String>,
    ) -> (r: Self)
        ensures
            r.repo_path == repo_path,
            r.trunk_name == trunk_name,
            r.remote == remote,
            r.config_stacks == config_stacks,
            r.merge_commit_ref == merge_commit_ref,
    {
        Self { repo_path, trunk_name, remote, config_stacks, merge_commit_ref }
    }

    /// Where the merge parents come from: the configured merge commit (its
    /// commit id looked up first when it is a change id), or, without one, the
    /// first-parent walk from HEAD to the first merge.
    pub fn parents_source(&self) -> (r: ParentsSource)
        ensures
            self.merge_commit_ref matches Some(m) ==> (r matches ParentsSource::MergeCommit(l) && (match l {
                RevLookup::Known(s) => !is_change_id_spec(m@) && s@ == m@,
                RevLookup::Run(i) => is_change_id_spec(m@) && i.is(
                    Tool::Jj,
                    Some(self.repo_path@),
                    seq!["show"@, "-T"@, "commit_id"@, "--no-patch"@, m@],
                ),
            })),
            self.merge_commit_ref is None ==> (r matches ParentsSource::WalkFromHead(i) && i.is(
                Tool::Git,
                Some(self.repo_path@),
                seq!["rev-parse"@, "HEAD"@],
            )),
    {
        match &self.merge_commit_ref {
            Some(m) => ParentsSource::MergeCommit(to_sha1(self.repo_path.as_str(), m.as_str())),
            None => ParentsSource::WalkFromHead(current_head_sha(self.repo_path.as_str())),
        }
    }

    /// The step of the walk from HEAD at commit `sha` whose parents are
    /// `parents`: a merge gives the parents to read the stacks from, a single
    /// parent is followed, and a root commit means there are no stacks.
    pub fn walk_step(&self, sha: &str, parents: Vec<String>) -> (r: StacksWalk)
        ensures
            parents@.len() >= 2 ==> (r matches StacksWalk::Parents(ps) && ps@ == parents@),
            parents@.len() == 1 ==> (r matches StacksWalk::Next(p) && p@ == parents@[0]@),
            parents@.len() == 0 ==> (r matches StacksWalk::Done(v) && v@.len() == 0),
    {
        match crate::git_utils::find_workspace_merge_commit(sha, parents) {
            crate::git_utils::MergeWalk::Found(_, ps) => StacksWalk::Parents(ps),
            crate::git_utils::MergeWalk::Next(p) => StacksWalk::Next(p),
            crate::git_utils::MergeWalk::Exhausted => StacksWalk::Done(Vec::new()),
        }
    }

    /// The ref whose commit tells which merge parent stack `i` is: the
    /// remote-tracking trunk (`refs/remotes/<remote>/<trunk>`) for trunk, the
    /// local branch (`refs/heads/<branch>`) for another stack, none for a stack
    /// without a local branch (it keeps its position).
    pub fn branch_ref(&self, i: usize) -> (r: Option<String>)
        requires
            i < self.config_stacks@.len(),
        ensures
            self.config_stacks@[i as int].name@ == self.trunk_name@ ==> (r matches Some(s) && s@
                == "refs/remotes/"@ + self.remote@ + "/"@ + self.trunk_name@),
            self.config_stacks@[i as int].name@ != self.trunk_name@ ==> (match self.config_stacks@[i as int].local_branch {
                Some(b) => r matches Some(s) && s@ == "refs/heads/"@ + b@,
                None => r is None,
            }),
    {
        let entry = &self.config_stacks[i];
        if str_eq(entry.name.as_str(), self.trunk_name.as_str()) {
            let a = join3("refs/remotes/", self.remote.as_str(), "/");
            Some(join2(a.as_str(), self.trunk_name.as_str()))
        } else {
            match &entry.local_branch {
                Some(b) => Some(join2("refs/heads/", b.as_str())),
                None => None,
            }
        }
    }

    /// The stack count mismatch error, when the configuration lists another
    /// number of stacks than the merge commit has parents.
    pub fn check_parent_count(&self, n_parents: usize) -> (r: Result<(), String>)
        ensures
            r is Ok <==> self.config_stacks@.len() == n_parents,
            r matches Err(e) ==> e@ == "config stacks count ("@ + decimal(self.config_stacks@.len())
                + ") does not match git merge parents count ("@ + decimal(n_parents as nat) + ")"@,
    {
        if self.config_stacks.len() != n_parents {
            let a = decimal_string(self.config_stacks.len());
            let b = decimal_string(n_parents);
            let m1 = join3("config stacks count (", a.as_str(), ") does not match git merge parents count (");
            return Err(join3(m1.as_str(), b.as_str(), ")"));
        }
        Ok(())
    }

    /// The layout of the stacks over the merge parents: stack `ci` stands for
    /// parent `matches[ci]` when its branch matched one, else parent `ci`; and
    /// trunk is the first stack named like it (an error when none is).
    pub fn layout(&self, matches: &Vec<Option<usize>>) -> (r: Result<StackLayout, String>)
        ensures
            names_of(self.config_stacks@).contains(self.trunk_name@) <==> r is Ok,
            r matches Err(e) ==> e@ == "trunk '"@ + self.trunk_name@ + "' not found in config stacks"@,
            r matches Ok(l) ==> l.parent_index_for@.map_values(|i: usize| i as nat) == layout_indices(matches@)
                && l.trunk_index as nat == crate::graph::first_index(names_of(self.config_stacks@), self.trunk_name@),
    {
        let mut idx: Vec<usize> = Vec::new();
        let mut ci: usize = 0;
        while ci < matches.len()
            invariant
                ci <= matches@.len(),
                idx@.map_values(|i: usize| i as nat) == layout_indices(matches@).take(ci as int),
            decreases matches.len() - ci,
        {
            let v = match matches[ci] {
                Some(pi) => pi,
                None => ci,
            };
            let ghost before = idx@;
            idx.push(v);
            assert(idx@ == before.push(v));
            assert(layout_indices(matches@)[ci as int] == v as nat);
            assert(idx@.map_values(|i: usize| i as nat) =~= before.map_values(|i: usize| i as nat).push(v as nat));
            assert(idx@.map_values(|i: usize| i as nat) =~= layout_indices(matches@).take(ci + 1));
            ci = ci + 1;
        }
        assert(layout_indices(matches@).take(matches@.len() as int) =~= layout_indices(matches@));
        let ghost names = names_of(self.config_stacks@);
        match crate::config::position_of(&self.config_stacks, self.trunk_name.as_str()) {
            Some(t) => {
                proof {
                    assert(names[t as int] == self.trunk_name@);
                    assert forall|k: int| 0 <= k < t implies #[trigger] names[k] != self.trunk_name@ by {
                        assert(names[k] == self.config_stacks@[k].name@);
                    }
                    crate::graph::lemma_first_index(names, self.trunk_name@, t as int);
                }
                Ok(StackLayout { parent_index_for: idx, trunk_index: t })
            },
            None => {
                assert(!names.contains(self.trunk_name@)) by {
                    if names.contains(self.trunk_name@) {
                        let k = choose|k: int| 0 <= k < names.len() && names[k] == self.trunk_name@;
                        assert(self.config_stacks@[k].name@ == self.trunk_name@);
                    }
                }
                Err(join3("trunk '", self.trunk_name.as_str(), "' not found in config stacks"))
            },
        }
    }

    /// The commit of trunk's merge parent, the one every other stack is read
    /// against: `parents[layout.parent_index_for[layout.trunk_index]]`, when
    /// the layout's indices lie within the lists.
    pub fn trunk_sha(&self, parents: &Vec<String>, layout: &StackLayout) -> (r: Option<String>)
        ensures
            layout.trunk_index < layout.parent_index_for@.len() && layout.parent_index_for@[layout.trunk_index as int]
                < parents@.len() ==> (r matches Some(s) && s@ == parents@[layout.parent_index_for@[layout.trunk_index as int] as int]@),
            !(layout.trunk_index < layout.parent_index_for@.len() && layout.parent_index_for@[layout.trunk_index as int]
                < parents@.len()) ==> r is None,
    {
        if layout.trunk_index < layout.parent_index_for.len() {
            let pi = layout.parent_index_for[layout.trunk_index];
            if pi < parents.len() {
                return Some(parents[pi].clone());
            }
        }
        None
    }

    /// The stacks, in configuration order: trunk has no commits and is based
    /// on its own parent; every other stack has the commits `ranges[i]` and
    /// the base `bases[i]` computed against trunk's parent.
    pub fn assemble(&self, bases: &Vec<String>, ranges: Vec<Vec<CommitInfo>>, trunk_sha: &str) -> (r: Vec<StackInfo>)
        requires
            bases@.len() == self.config_stacks@.len(),
            ranges@.len() == self.config_stacks@.len(),
        ensures
            r@.len() == self.config_stacks@.len(),
            forall|i: int|
                0 <= i < r@.len() ==> {
                    let s = #[trigger] r@[i];
                    if self.config_stacks@[i].name@ == self.trunk_name@ {
                        &&& s.name@ == self.trunk_name@
                        &&& s.commits@.len() == 0
                        &&& s.base_commit_id@ == trunk_sha@
                    } else {
                        &&& s.name@ == self.config_stacks@[i].name@
                        &&& records(s.commits@) == records(ranges@[i]@)
                        &&& s.base_commit_id@ == bases@[i]@
                    }
                },
    {
        let mut r: Vec<StackInfo> = Vec::new();
        let mut rest = ranges;
        let ghost all = rest@;
        let mut i: usize = 0;
        assert(all.skip(0) =~= all);
        while i < self.config_stacks.len()
            invariant
                i <= self.config_stacks@.len(),
                bases@.len() == self.config_stacks@.len(),
                all.len() == self.config_stacks@.len(),
                rest@ == all.skip(i as int),
                r@.len() == i,
                forall|j: int|
                    0 <= j < i ==> {
                        let s = #[trigger] r@[j];
                        if self.config_stacks@[j].name@ == self.trunk_name@ {
                            &&& s.name@ == self.trunk_name@
                            &&& s.commits@.len() == 0
                            &&& s.base_commit_id@ == trunk_sha@
                        } else {
                            &&& s.name@ == self.config_stacks@[j].name@
                            &&& records(s.commits@) == records(all[j]@)
                            &&& s.base_commit_id@ == bases@[j]@
                        }
                    },
            decreases self.config_stacks.len() - i,
        {
            let commits = rest.remove(0);
            assert(commits == all[i as int]);
            assert(rest@ =~= all.skip(i + 1));
            let entry = &self.config_stacks[i];
            let s = if str_eq(entry.name.as_str(), self.trunk_name.as_str()) {
                StackInfo { name: self.trunk_name.clone(), commits: Vec::new(), base_commit_id: owned(trunk_sha) }
            } else {
                StackInfo { name: entry.name.clone(), commits, base_commit_id: bases[i].clone() }
            };
            r.push(s);
            i = i + 1;
        }
        r
    }
}

} // verus!
