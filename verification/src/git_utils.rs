//! The git commands the workspace tool runs, and what their output means.
use vstd::prelude::*;
use crate::config::FILE_NAME;
use crate::invocation::{Invocation, Tool, git, push_arg, args2, strs_view, dir_view};
use crate::text::{has_infix, trim, trim_end, words, lines_of, splitn_seq, part_or_empty, has_prefix, decimal, owned, join2, join3, trim_str, trim_end_str, contains_str, split_whitespace, lines, str_eq, strip_prefix, splitn, decimal_string, string_of};

verus! {

/// A commit of a stack as `git log` describes it.
#[derive(Debug)]
pub struct CommitInfo {
    pub change_id: String,
    pub commit_id: String,
    pub description: String,
    pub author: String,
    pub timestamp: String,
    pub changed_files: Vec<String>,
}

/// A commit record as a mathematical value.
pub struct CommitRecord {
    pub change_id: Seq<char>,
    pub commit_id: Seq<char>,
    pub description: Seq<char>,
    pub author: Seq<char>,
    pub timestamp: Seq<char>,
    pub changed_files: Seq<Seq<char>>,
}

impl CommitInfo {
    pub open spec fn model(&self) -> CommitRecord {
        CommitRecord {
            change_id: self.change_id@,
            commit_id: self.commit_id@,
            description: self.description@,
            author: self.author@,
            timestamp: self.timestamp@,
            changed_files: strs_view(self.changed_files@),
        }
    }

    /// Whether one of the commit's changed files is a jj conflict marker file:
    /// a path holding `.jjconflict`.
    pub fn is_conflicted(&self) -> (r: bool)
        ensures
            r == exists|i: int|
                0 <= i < self.changed_files@.len() && has_infix(
                    #[trigger] self.changed_files@[i]@,
                    ".jjconflict"@,
                ),
    {
        let mut i: usize = 0;
        while i < self.changed_files.len()
            invariant
                i <= self.changed_files@.len(),
                forall|k: int|
                    0 <= k < i ==> !has_infix(#[trigger] self.changed_files@[k]@, ".jjconflict"@),
            decreases self.changed_files.len() - i,
        {
            if contains_str(self.changed_files[i].as_str(), ".jjconflict") {
                return true;
            }
            i = i + 1;
        }
        false
    }
}

/// One line of a commit's diff.
#[derive(Clone, Debug)]
pub struct DiffLine {
    pub content: String,
    /// 0 = context, 1 = addition, 2 = deletion, 3 = hunk header
    pub kind: i32,
    pub hunk_id: i32,
}

// ---------------------------------------------------------------------------
// Running commands
// ---------------------------------------------------------------------------

/// What a command printed, as the tool reads it: stdout without surrounding whitespace.
pub fn command_output(stdout: &str) -> (r: String)
    ensures
        r@ == trim(stdout@),
{
    trim_str(stdout)
}

/// The detail a failed command is reported with: its trimmed stderr, or its
/// trimmed stdout when stderr is blank.
pub fn failure_details(stderr: &str, stdout: &str) -> (r: String)
    ensures
        r@ == (if trim(stderr@).len() > 0 {
            trim(stderr@)
        } else {
            trim(stdout@)
        }),
{
    let e = trim_str(stderr);
    if !e.as_str().is_empty() {
        e
    } else {
        trim_str(stdout)
    }
}

/// The two commands that check that `git` and `jj` are installed.
pub fn validate_tool_requirements() -> (r: Vec<Invocation>)
    ensures
        r@.len() == 2,
        r@[0].is(Tool::Git, None, seq!["--version"@]),
        r@[1].is(Tool::Jj, None, seq!["--version"@]),
{
    let mut a: Vec<String> = Vec::new();
    push_arg(&mut a, "--version");
    let mut b: Vec<String> = Vec::new();
    push_arg(&mut b, "--version");
    let mut r: Vec<Invocation> = Vec::new();
    r.push(Invocation { tool: Tool::Git, args: a, dir: None });
    r.push(Invocation { tool: Tool::Jj, args: b, dir: None });
    r
}

/// The error for a repository missing the tool's prerequisites, checked in
/// order: a `.jj` directory, then the configuration file. `Ok` when both exist.
pub fn validate_startup_requirements(has_jj_dir: bool, has_config_file: bool) -> (r: Result<(), String>)
    ensures
        has_jj_dir && has_config_file <==> r is Ok,
        !has_jj_dir ==> (r matches Err(e) && e@ == missing_jj_message()),
        has_jj_dir && !has_config_file ==> (r matches Err(e) && e@ == missing_config_message()),
{
    if !has_jj_dir {
        return Err(owned(
            "missing .jj in repo. Run: guiguitsu init --workspace-branch=<branch> --workspace-remote=<remote> --trunk=<main>",
        ));
    }
    if !has_config_file {
        return Err(join3(
            "missing ",
            FILE_NAME,
            " in repo. Run: guiguitsu init --workspace-branch=<branch> --workspace-remote=<remote> --trunk=<main>",
        ));
    }
    Ok(())
}

pub open spec fn missing_jj_message() -> Seq<char> {
    "missing .jj in repo. Run: guiguitsu init --workspace-branch=<branch> --workspace-remote=<remote> --trunk=<main>"@
}

pub open spec fn missing_config_message() -> Seq<char> {
    "missing "@ + FILE_NAME@
        + " in repo. Run: guiguitsu init --workspace-branch=<branch> --workspace-remote=<remote> --trunk=<main>"@
}

// ---------------------------------------------------------------------------
// Commands
// ---------------------------------------------------------------------------

/// `git rev-parse --verify refs/heads/<branch>`: succeeds exactly when the local branch exists.
pub fn local_branch_exists(repo_path: &str, branch: &str) -> (r: Invocation)
    ensures
        r.is(
            Tool::Git,
            Some(repo_path@),
            seq!["rev-parse"@, "--verify"@, "refs/heads/"@ + branch@],
        ),
{
    let mut a: Vec<String> = Vec::new();
    push_arg(&mut a, "rev-parse");
    push_arg(&mut a, "--verify");
    let r = join2("refs/heads/", branch);
    push_arg(&mut a, r.as_str());
    git(repo_path, a)
}

/// `git diff-index --quiet --cached HEAD --`: exits 1 when changes are staged.
pub fn has_staged_changed(repo_path: &str) -> (r: Invocation)
    ensures
        r.is(
            Tool::Git,
            Some(repo_path@),
            seq!["diff-index"@, "--quiet"@, "--cached"@, "HEAD"@, "--"@],
        ),
{
    let mut a: Vec<String> = Vec::new();
    push_arg(&mut a, "diff-index");
    push_arg(&mut a, "--quiet");
    push_arg(&mut a, "--cached");
    push_arg(&mut a, "HEAD");
    push_arg(&mut a, "--");
    git(repo_path, a)
}

/// What an exit code of `git diff-index --quiet` or `git merge-base --is-ancestor`
/// answers: 0 is no (resp. yes), 1 the opposite; any other outcome is a failure.
/// `yes_on_zero` picks the reading: `true` for `--is-ancestor`.
pub fn exit_answer(code: Option<i32>, yes_on_zero: bool) -> (r: Option<bool>)
    ensures
        code == Some(0i32) ==> r == Some(yes_on_zero),
        code == Some(1i32) ==> r == Some(!yes_on_zero),
        code != Some(0i32) && code != Some(1i32) ==> r is None,
{
    match code {
        Some(0) => Some(yes_on_zero),
        Some(1) => Some(!yes_on_zero),
        _ => None,
    }
}

/// `git remote get-url <remote>`: succeeds exactly when the remote exists.
pub fn ensure_remote_exists(repo_path: &str, remote: &str) -> (r: Invocation)
    ensures
        r.is(Tool::Git, Some(repo_path@), seq!["remote"@, "get-url"@, remote@]),
{
    let mut a: Vec<String> = Vec::new();
    push_arg(&mut a, "remote");
    push_arg(&mut a, "get-url");
    push_arg(&mut a, remote);
    git(repo_path, a)
}

/// Resolves `refs/remotes/<remote>/<branch>`: succeeds exactly when the
/// remote-tracking branch exists.
pub fn validate_remote_branch_exists(repo_path: &str, remote: &str, branch: &str) -> (r: Invocation)
    ensures
        r.is(
            Tool::Git,
            Some(repo_path@),
            seq!["rev-parse"@, "refs/remotes/"@ + remote@ + "/"@ + branch@],
        ),
{
    let prefix = join3("refs/remotes/", remote, "/");
    let git_ref = join2(prefix.as_str(), branch);
    resolve_ref(repo_path, git_ref.as_str())
}

/// `git rev-parse HEAD`.
pub fn current_head_sha(repo_path: &str) -> (r: Invocation)
    ensures
        r.is(Tool::Git, Some(repo_path@), seq!["rev-parse"@, "HEAD"@]),
{
    resolve_ref(repo_path, "HEAD")
}

/// `git merge-base --is-ancestor <sha> <of_ref>`: exits 0 when `sha` is an
/// ancestor of `of_ref` or equal to it, 1 when not.
pub fn is_ancestor(repo_path: &str, sha: &str, of_ref: &str) -> (r: Invocation)
    ensures
        r.is(Tool::Git, Some(repo_path@), seq!["merge-base"@, "--is-ancestor"@, sha@, of_ref@]),
{
    let mut a: Vec<String> = Vec::new();
    push_arg(&mut a, "merge-base");
    push_arg(&mut a, "--is-ancestor");
    push_arg(&mut a, sha);
    push_arg(&mut a, of_ref);
    git(repo_path, a)
}

/// `git rev-parse <git_ref>`: prints the commit the ref names.
pub fn resolve_ref(repo_path: &str, git_ref: &str) -> (r: Invocation)
    ensures
        r.is(Tool::Git, Some(repo_path@), seq!["rev-parse"@, git_ref@]),
{
    git(repo_path, args2("rev-parse", git_ref))
}

/// `git log -1 --format=%s <sha>`: prints the commit's subject line.
pub fn commit_subject(repo_path: &str, sha: &str) -> (r: Invocation)
    ensures
        r.is(Tool::Git, Some(repo_path@), seq!["log"@, "-1"@, "--format=%s"@, sha@]),
{
    let mut a: Vec<String> = Vec::new();
    push_arg(&mut a, "log");
    push_arg(&mut a, "-1");
    push_arg(&mut a, "--format=%s");
    push_arg(&mut a, sha);
    git(repo_path, a)
}

/// `git merge-base <a> <b>`: prints the best common ancestor.
pub fn merge_base(repo_path: &str, a: &str, b: &str) -> (r: Invocation)
    ensures
        r.is(Tool::Git, Some(repo_path@), seq!["merge-base"@, a@, b@]),
{
    let mut v: Vec<String> = Vec::new();
    push_arg(&mut v, "merge-base");
    push_arg(&mut v, a);
    push_arg(&mut v, b);
    git(repo_path, v)
}

/// `git push --force-with-lease <remote> <sha>:refs/heads/<branch_name>`.
pub fn git_push(repo_path: &str, remote: &str, sha: &str, branch_name: &str) -> (r: Invocation)
    ensures
        r.is(
            Tool::Git,
            Some(repo_path@),
            seq!["push"@, "--force-with-lease"@, remote@, sha@ + ":refs/heads/"@ + branch_name@],
        ),
{
    let refspec = join3(sha, ":refs/heads/", branch_name);
    let mut a: Vec<String> = Vec::new();
    push_arg(&mut a, "push");
    push_arg(&mut a, "--force-with-lease");
    push_arg(&mut a, remote);
    push_arg(&mut a, refspec.as_str());
    git(repo_path, a)
}

/// `git branch <branch> <start_point>`.
pub fn create_branch(repo_path: &str, branch: &str, start_point: &str) -> (r: Invocation)
    ensures
        r.is(Tool::Git, Some(repo_path@), seq!["branch"@, branch@, start_point@]),
{
    let mut a: Vec<String> = Vec::new();
    push_arg(&mut a, "branch");
    push_arg(&mut a, branch);
    push_arg(&mut a, start_point);
    git(repo_path, a)
}

/// `git rev-list --parents -n 1 <commit_sha>`: prints the commit followed by its parents.
pub fn parent_shas(repo_path: &str, commit_sha: &str) -> (r: Invocation)
    ensures
        r.is(Tool::Git, Some(repo_path@), seq!["rev-list"@, "--parents"@, "-n"@, "1"@, commit_sha@]),
{
    let mut a: Vec<String> = Vec::new();
    push_arg(&mut a, "rev-list");
    push_arg(&mut a, "--parents");
    push_arg(&mut a, "-n");
    push_arg(&mut a, "1");
    push_arg(&mut a, commit_sha);
    git(repo_path, a)
}

/// The parents of `commit_sha` from the output of [`parent_shas`]: the words
/// after the first; an error when the output has no word at all.
pub fn parse_parent_shas(output: &str, commit_sha: &str) -> (r: Result<Vec<String>, String>)
    ensures
        words(output@).len() == 0 ==> (r matches Err(e) && e@ == "empty output for commit "@
            + commit_sha@),
        words(output@).len() > 0 ==> (r matches Ok(v) && strs_view(v@) == words(
            output@,
        ).drop_first()),
{
    let w = split_whitespace(output);
    if w.len() == 0 {
        return Err(join2("empty output for commit ", commit_sha));
    }
    let mut v: Vec<String> = Vec::new();
    let mut i: usize = 1;
    while i < w.len()
        invariant
            1 <= i <= w@.len(),
            strs_view(w@) == words(output@),
            strs_view(v@) == words(output@).subrange(1, i as int),
        decreases w.len() - i,
    {
        let ghost before = v@;
        v.push(w[i].clone());
        assert(v@ == before.push(w@[i as int]));
        assert(strs_view(w@)[i as int] == w@[i as int]@);
        assert(strs_view(v@) =~= strs_view(before).push(w@[i as int]@));
        assert(strs_view(v@) =~= words(output@).subrange(1, i + 1));
        i = i + 1;
    }
    assert(words(output@).subrange(1, w@.len() as int) =~= words(output@).drop_first());
    Ok(v)
}

/// Whether the commit whose [`parent_shas`] output is `output` is a merge
/// (has two parents or more).
pub fn is_merge_commit(output: &str, commit_sha: &str) -> (r: Result<bool, String>)
    ensures
        words(output@).len() == 0 ==> (r matches Err(e) && e@ == "empty output for commit "@
            + commit_sha@),
        words(output@).len() > 0 ==> r == Ok::<bool, String>(words(output@).len() >= 3),
{
    match parse_parent_shas(output, commit_sha) {
        Ok(v) => {
            assert(v@.len() == strs_view(v@).len());
            Ok(v.len() >= 2)
        },
        Err(e) => Err(e),
    }
}

/// One step of the first-parent walk from HEAD that looks for the workspace
/// merge commit: the commit on the walk, its parents, and what to do next.
pub enum MergeWalk {
    /// The commit is a merge: it and its parents.
    Found(String, Vec<String>),
    /// Not a merge: go on with this parent.
    Next(String),
    /// A root commit was reached without finding a merge.
    Exhausted,
}

/// A step of the walk as a mathematical value.
pub enum WalkStep {
    Found(Seq<char>, Seq<Seq<char>>),
    Next(Seq<char>),
    Exhausted,
}

impl MergeWalk {
    pub open spec fn model(self) -> WalkStep {
        match self {
            MergeWalk::Found(s, ps) => WalkStep::Found(s@, strs_view(ps@)),
            MergeWalk::Next(p) => WalkStep::Next(p@),
            MergeWalk::Exhausted => WalkStep::Exhausted,
        }
    }
}

/// The step of the walk at commit `sha`, whose parents are `parents`.
pub open spec fn merge_step(sha: Seq<char>, parents: Seq<Seq<char>>) -> WalkStep {
    if parents.len() >= 2 {
        WalkStep::Found(sha, parents)
    } else if parents.len() == 1 {
        WalkStep::Next(parents[0])
    } else {
        WalkStep::Exhausted
    }
}

/// The next step of the walk for the workspace merge commit: stop at a commit
/// with two parents or more, else continue with its first parent, else report
/// that the walk is exhausted.
pub fn find_workspace_merge_commit(sha: &str, parents: Vec<String>) -> (r: MergeWalk)
    ensures
        r.model() == merge_step(sha@, strs_view(parents@)),
        parents@.len() >= 2 ==> (r matches MergeWalk::Found(s, ps) && s@ == sha@ && ps@
            == parents@),
        parents@.len() == 1 ==> (r matches MergeWalk::Next(p) && p@ == parents@[0]@),
        parents@.len() == 0 ==> r is Exhausted,
{
    if parents.len() >= 2 {
        MergeWalk::Found(owned(sha), parents)
    } else if parents.len() == 1 {
        MergeWalk::Next(parents[0].clone())
    } else {
        MergeWalk::Exhausted
    }
}

/// The walk from `head` along first parents, `parents_of` giving the parents
/// of each commit, for at most `steps` moves: where it stops, or `Next` of the
/// commit it would go on with.
pub open spec fn merge_walk(parents_of: spec_fn(Seq<char>) -> Seq<Seq<char>>, head: Seq<char>, steps: nat) -> WalkStep
    decreases steps,
{
    match merge_step(head, parents_of(head)) {
        WalkStep::Next(p) => if steps == 0 {
            WalkStep::Next(p)
        } else {
            merge_walk(parents_of, p, (steps - 1) as nat)
        },
        other => other,
    }
}

/// Each commit of `path` but the last has exactly one parent, the next one.
pub open spec fn first_parent_chain(parents_of: spec_fn(Seq<char>) -> Seq<Seq<char>>, path: Seq<Seq<char>>) -> bool {
    forall|k: int|
        0 <= k < path.len() - 1 ==> #[trigger] parents_of(path[k]).len() == 1 && parents_of(path[k])[0]
            == path[k + 1]
}

/// Law: the walk for the workspace merge commit stops at the first commit with
/// two parents or more on the first-parent chain from `head` (answering it and
/// its parents), or at the first commit without parents, every commit before
/// it having exactly one parent. The chain walked is returned.
pub proof fn lemma_merge_walk(parents_of: spec_fn(Seq<char>) -> Seq<Seq<char>>, head: Seq<char>, steps: nat) -> (path: Seq<Seq<char>>)
    ensures
        path.len() >= 1,
        path[0] == head,
        first_parent_chain(parents_of, path),
        match merge_walk(parents_of, head, steps) {
            WalkStep::Found(m, ps) => path.last() == m && ps == parents_of(m) && ps.len() >= 2,
            WalkStep::Exhausted => parents_of(path.last()).len() == 0,
            WalkStep::Next(p) => parents_of(path.last()).len() == 1 && parents_of(path.last())[0] == p,
        },
    decreases steps,
{
    let ps = parents_of(head);
    if ps.len() == 1 && steps > 0 {
        let rest = lemma_merge_walk(parents_of, ps[0], (steps - 1) as nat);
        let path = seq![head] + rest;
        assert forall|k: int| 0 <= k < path.len() - 1 implies #[trigger] parents_of(path[k]).len() == 1
            && parents_of(path[k])[0] == path[k + 1] by {
            if k > 0 {
                assert(path[k] == rest[k - 1] && path[k + 1] == rest[k]);
                assert(parents_of(rest[k - 1]).len() == 1);
            } else {
                assert(path[0] == head && path[1] == rest[0]);
            }
        }
        assert(path.last() == rest.last());
        path
    } else {
        let path = seq![head];
        assert(first_parent_chain(parents_of, path));
        path
    }
}

/// The error for a walk that found no merge commit.
pub fn no_merge_commit_message() -> (r: String)
    ensures
        r@ == "no merge commit found in workspace history"@,
{
    owned("no merge commit found in workspace history")
}

/// `git rev-list --parents` over `range`, or over all refs but jj's own when
/// `range` is empty: one line per commit, the commit then its parents.
pub fn children_of(repo_path: &str, range: &Vec<String>) -> (r: Invocation)
    ensures
        range@.len() == 0 ==> r.is(
            Tool::Git,
            Some(repo_path@),
            seq!["rev-list"@, "--parents"@, "--exclude=refs/jj/*"@, "--all"@],
        ),
        range@.len() > 0 ==> r.is(
            Tool::Git,
            Some(repo_path@),
            seq!["rev-list"@, "--parents"@] + strs_view(range@),
        ),
{
    let mut a: Vec<String> = Vec::new();
    push_arg(&mut a, "rev-list");
    push_arg(&mut a, "--parents");
    if range.len() == 0 {
        push_arg(&mut a, "--exclude=refs/jj/*");
        push_arg(&mut a, "--all");
    } else {
        let ghost start = strs_view(a@);
        let mut i: usize = 0;
        while i < range.len()
            invariant
                i <= range@.len(),
                strs_view(a@) == start + strs_view(range@).take(i as int),
            decreases range.len() - i,
        {
            push_arg(&mut a, range[i].as_str());
            assert(strs_view(range@).take(i + 1) =~= strs_view(range@).take(i as int).push(
                range@[i as int]@,
            ));
            i = i + 1;
        }
        assert(strs_view(range@).take(range@.len() as int) =~= strs_view(range@));
    }
    git(repo_path, a)
}

/// A line of `rev-list --parents` output names a child of `sha`: its first
/// word is a commit and `sha` is among the words after it.
pub open spec fn is_child_line(line: Seq<char>, sha: Seq<char>) -> bool {
    words(line).len() > 0 && words(line).drop_first().contains(sha)
}

/// The children of `sha` listed in the output of [`children_of`], in order.
pub open spec fn children_in(output: Seq<char>, sha: Seq<char>) -> Seq<Seq<char>> {
    lines_of(output).filter(|l: Seq<char>| is_child_line(l, sha)).map_values(
        |l: Seq<char>| words(l)[0],
    )
}

/// The commits that have `commit_sha` as a parent, from the output of [`children_of`].
pub fn parse_children(output: &str, commit_sha: &str) -> (r: Vec<String>)
    ensures
        strs_view(r@) == children_in(output@, commit_sha@),
{
    let ls = lines(output);
    let ghost lv = strs_view(ls@);
    let mut r: Vec<String> = Vec::new();
    let mut i: usize = 0;
    while i < ls.len()
        invariant
            i <= ls@.len(),
            lv == strs_view(ls@),
            lv == lines_of(output@),
            strs_view(r@) == lv.take(i as int).filter(
                |l: Seq<char>| is_child_line(l, commit_sha@),
            ).map_values(|l: Seq<char>| words(l)[0]),
        decreases ls.len() - i,
    {
        proof {
            reveal_with_fuel(Seq::<_>::filter, 1);
        }
        assert(lv.take(i + 1).drop_last() =~= lv.take(i as int));
        let w = split_whitespace(ls[i].as_str());
        let mut found = false;
        if w.len() > 0 {
            let mut j: usize = 1;
            while j < w.len()
                invariant
                    1 <= j <= w@.len(),
                    strs_view(w@) == words(lv[i as int]),
                    found == strs_view(w@).subrange(1, j as int).contains(commit_sha@),
                decreases w.len() - j,
            {
                let ghost sub = strs_view(w@).subrange(1, j as int);
                assert(strs_view(w@).subrange(1, j + 1) =~= sub.push(w@[j as int]@));
                if str_eq(w[j].as_str(), commit_sha) {
                    found = true;
                    assert(strs_view(w@).subrange(1, j + 1)[j - 1] == commit_sha@);
                } else {
                    assert(sub.push(w@[j as int]@).contains(commit_sha@) ==> sub.contains(commit_sha@)) by {
                        if sub.push(w@[j as int]@).contains(commit_sha@) {
                            let k = choose|k: int| 0 <= k < sub.len() + 1 && #[trigger] sub.push(w@[j as int]@)[k] == commit_sha@;
                            assert(k < sub.len());
                            assert(sub[k] == commit_sha@);
                        }
                    }
                }
                j = j + 1;
            }
            assert(strs_view(w@).subrange(1, w@.len() as int) =~= words(lv[i as int]).drop_first());
        }
        let ghost before = strs_view(r@);
        if found {
            r.push(w[0].clone());
            assert(strs_view(r@) =~= before.push(words(lv[i as int])[0]));
        }
        i = i + 1;
        assert(strs_view(r@) =~= lv.take(i as int).filter(
            |l: Seq<char>| is_child_line(l, commit_sha@),
        ).map_values(|l: Seq<char>| words(l)[0]));
    }
    assert(lv.take(lv.len() as int) =~= lv);
    r
}

/// The next commit of the walk forward from `current` to a merge commit,
/// given the children of `current`: its only child; an error at a tip (no
/// child) or where the path forks (several children).
pub fn child_merge_commit(current: &str, kids: &Vec<String>) -> (r: Result<String, String>)
    ensures
        kids@.len() == 1 ==> r == Ok::<String, String>(kids@[0]),
        kids@.len() == 0 ==> (r matches Err(e) && e@
            == "reached tip without finding a merge commit (at "@ + current@ + ")"@),
        kids@.len() > 1 ==> (r matches Err(e) && e@ == "commit "@ + current@ + " has "@ + decimal(
            kids@.len(),
        ) + " children; path is ambiguous"@),
{
    if kids.len() == 0 {
        Err(join3("reached tip without finding a merge commit (at ", current, ")"))
    } else if kids.len() == 1 {
        Ok(kids[0].clone())
    } else {
        let n = decimal_string(kids.len());
        let a = join3("commit ", current, " has ");
        Err(join3(a.as_str(), n.as_str(), " children; path is ambiguous"))
    }
}

/// The error of the forward walk at `current`, which has `n` children (not one).
pub open spec fn child_walk_error(current: Seq<char>, n: nat) -> Seq<char> {
    if n == 0 {
        "reached tip without finding a merge commit (at "@ + current + ")"@
    } else {
        "commit "@ + current + " has "@ + decimal(n) + " children; path is ambiguous"@
    }
}

/// One step of the walk forward from a commit to the first merge commit.
pub enum ChildWalk {
    /// The only child is a merge commit: the walk ends there.
    Found(String),
    /// The only child is no merge: go on from it.
    Next(String),
    /// A tip or a fork: the walk fails with this message.
    Failed(String),
}

pub enum ChildStep {
    Found(Seq<char>),
    Next(Seq<char>),
    Failed(Seq<char>),
}

impl ChildWalk {
    pub open spec fn model(self) -> ChildStep {
        match self {
            ChildWalk::Found(m) => ChildStep::Found(m@),
            ChildWalk::Next(c) => ChildStep::Next(c@),
            ChildWalk::Failed(e) => ChildStep::Failed(e@),
        }
    }
}

/// The step at `current`, whose children are `kids`; `only_child_is_merge`
/// tells whether its only child (when it has one) is a merge commit.
pub open spec fn child_step(current: Seq<char>, kids: Seq<Seq<char>>, only_child_is_merge: bool) -> ChildStep {
    if kids.len() == 1 {
        if only_child_is_merge {
            ChildStep::Found(kids[0])
        } else {
            ChildStep::Next(kids[0])
        }
    } else {
        ChildStep::Failed(child_walk_error(current, kids.len()))
    }
}

/// The next step of the walk forward from `current` to the first merge commit
/// (`child_merge_commit`), given the children of `current` and whether its only
/// child is a merge (consulted only when it has exactly one child).
pub fn child_walk_step(current: &str, kids: &Vec<String>, only_child_is_merge: bool) -> (r: ChildWalk)
    ensures
        r.model() == child_step(current@, strs_view(kids@), only_child_is_merge),
{
    match child_merge_commit(current, kids) {
        Ok(c) => {
            if only_child_is_merge {
                ChildWalk::Found(c)
            } else {
                ChildWalk::Next(c)
            }
        },
        Err(e) => ChildWalk::Failed(e),
    }
}

/// The forward walk from `start` for at most `steps` moves, `children_of`
/// giving the children of each commit and `is_merge` telling merges apart.
pub open spec fn child_walk(
    children_of: spec_fn(Seq<char>) -> Seq<Seq<char>>,
    is_merge: spec_fn(Seq<char>) -> bool,
    start: Seq<char>,
    steps: nat,
) -> ChildStep
    decreases steps,
{
    let kids = children_of(start);
    match child_step(start, kids, kids.len() == 1 && is_merge(kids[0])) {
        ChildStep::Next(c) => if steps == 0 {
            ChildStep::Next(c)
        } else {
            child_walk(children_of, is_merge, c, (steps - 1) as nat)
        },
        other => other,
    }
}

/// Each commit of `path` but the last has exactly one child, the next one, and
/// the commits strictly inside the path are no merges.
pub open spec fn single_child_chain(
    children_of: spec_fn(Seq<char>) -> Seq<Seq<char>>,
    is_merge: spec_fn(Seq<char>) -> bool,
    path: Seq<Seq<char>>,
) -> bool {
    &&& forall|k: int| 0 <= k < path.len() - 1 ==> #[trigger] children_of(path[k]) == seq![path[k + 1]]
    &&& forall|k: int| 0 < k < path.len() - 1 ==> !is_merge(#[trigger] path[k])
}

/// Law: the walk forward from `start` answers the first merge commit on a
/// path of only children, every commit between being no merge; it fails at
/// the first commit without exactly one child, with the tip or fork message.
/// The path walked is returned.
pub proof fn lemma_child_walk(
    children_of: spec_fn(Seq<char>) -> Seq<Seq<char>>,
    is_merge: spec_fn(Seq<char>) -> bool,
    start: Seq<char>,
    steps: nat,
) -> (path: Seq<Seq<char>>)
    ensures
        path.len() >= 1,
        path[0] == start,
        single_child_chain(children_of, is_merge, path),
        match child_walk(children_of, is_merge, start, steps) {
            ChildStep::Found(m) => path.len() >= 2 && path.last() == m && is_merge(m),
            ChildStep::Failed(e) => children_of(path.last()).len() != 1 && e == child_walk_error(
                path.last(),
                children_of(path.last()).len(),
            ),
            ChildStep::Next(c) => children_of(path.last()) == seq![c] && !is_merge(c),
        },
    decreases steps,
{
    let kids = children_of(start);
    if kids.len() == 1 && is_merge(kids[0]) {
        let path = seq![start, kids[0]];
        assert(kids =~= seq![kids[0]]);
        assert(children_of(path[0]) == seq![path[1]]);
        path
    } else if kids.len() == 1 && steps > 0 {
        let rest = lemma_child_walk(children_of, is_merge, kids[0], (steps - 1) as nat);
        let path = seq![start] + rest;
        assert(kids =~= seq![kids[0]]);
        assert forall|k: int| 0 <= k < path.len() - 1 implies #[trigger] children_of(path[k]) == seq![path[k + 1]] by {
            if k > 0 {
                assert(path[k] == rest[k - 1] && path[k + 1] == rest[k]);
                assert(children_of(rest[k - 1]) == seq![rest[k]]);
            } else {
                assert(path[0] == start && path[1] == rest[0]);
            }
        }
        assert forall|k: int| 0 < k < path.len() - 1 implies !is_merge(#[trigger] path[k]) by {
            assert(path[k] == rest[k - 1]);
            if k > 1 {
                assert(!is_merge(rest[k - 1]));
            }
        }
        assert(path.last() == rest.last());
        path
    } else {
        let path = seq![start];
        if kids.len() == 1 {
            assert(kids =~= seq![kids[0]]);
        }
        path
    }
}

/// Whether an existing merge commit is the workspace merge: one of its parents
/// is the workspace branch's commit, and another parent is an ancestor of trunk
/// (`trunk_ancestry[i]` tells whether `parents[i]` is one). It answers with the
/// merge commit when it is.
pub fn find_existing_workspace_merge(
    merge_sha: &str,
    parents: &Vec<String>,
    workspace_sha: &str,
    trunk_ancestry: &Vec<bool>,
) -> (r: Option<String>)
    requires
        trunk_ancestry@.len() == parents@.len(),
    ensures
        r is Some <==> (strs_view(parents@).contains(workspace_sha@) && exists|i: int|
            0 <= i < parents@.len() && #[trigger] parents@[i]@ != workspace_sha@
                && trunk_ancestry@[i]),
        r matches Some(m) ==> m@ == merge_sha@,
{
    if !contains_string(parents, workspace_sha) {
        return None;
    }
    let mut i: usize = 0;
    while i < parents.len()
        invariant
            i <= parents@.len(),
            trunk_ancestry@.len() == parents@.len(),
            strs_view(parents@).contains(workspace_sha@),
            forall|k: int|
                0 <= k < i ==> !(#[trigger] parents@[k]@ != workspace_sha@ && trunk_ancestry@[k]),
        decreases parents.len() - i,
    {
        if !str_eq(parents[i].as_str(), workspace_sha) && trunk_ancestry[i] {
            assert(parents@[i as int]@ != workspace_sha@ && trunk_ancestry@[i as int]);
            return Some(owned(merge_sha));
        }
        i = i + 1;
    }
    None
}

/// Whether `x` is one of `v`.
pub fn contains_string(v: &Vec<String>, x: &str) -> (r: bool)
    ensures
        r == strs_view(v@).contains(x@),
{
    let mut i: usize = 0;
    while i < v.len()
        invariant
            i <= v@.len(),
            forall|k: int| 0 <= k < i ==> #[trigger] v@[k]@ != x@,
        decreases v.len() - i,
    {
        if str_eq(v[i].as_str(), x) {
            assert(strs_view(v@)[i as int] == x@);
            return true;
        }
        i = i + 1;
    }
    assert forall|k: int| 0 <= k < v@.len() implies strs_view(v@)[k] != x@ by {
        assert(strs_view(v@)[k] == v@[k]@);
    }
    false
}

/// `git branch --points-at <sha> --format=%(refname:short)`.
pub fn branch_name_for(repo_path: &str, sha: &str) -> (r: Invocation)
    ensures
        r.is(
            Tool::Git,
            Some(repo_path@),
            seq!["branch"@, "--points-at"@, sha@, "--format=%(refname:short)"@],
        ),
{
    let mut a: Vec<String> = Vec::new();
    push_arg(&mut a, "branch");
    push_arg(&mut a, "--points-at");
    push_arg(&mut a, sha);
    push_arg(&mut a, "--format=%(refname:short)");
    git(repo_path, a)
}

/// The branch named by the first line of [`branch_name_for`]'s output; an
/// error when there is none or it is empty.
pub fn parse_branch_name(output: &str, sha: &str) -> (r: Result<String, String>)
    ensures
        lines_of(output@).len() > 0 && lines_of(output@)[0].len() > 0 ==> (r matches Ok(b) && b@
            == lines_of(output@)[0]),
        !(lines_of(output@).len() > 0 && lines_of(output@)[0].len() > 0) ==> (r matches Err(e)
            && e@ == "no branch points at "@ + sha@),
{
    let ls = lines(output);
    proof {
        assert(strs_view(ls@).len() == ls@.len());
    }
    if ls.len() > 0 && !ls[0].as_str().is_empty() {
        assert(strs_view(ls@)[0] == ls@[0]@);
        Ok(ls[0].clone())
    } else {
        proof {
            if ls@.len() > 0 {
                assert(strs_view(ls@)[0] == ls@[0]@);
            }
        }
        Err(join2("no branch points at ", sha))
    }
}

// ---------------------------------------------------------------------------
// Commits of a range
// ---------------------------------------------------------------------------

/// The marker that starts a commit header line in [`commits_in_range`]'s output.
pub open spec fn header_prefix() -> Seq<char> {
    "COMMIT:\u{1f}"@
}

/// The commit that a header line (without its marker) describes: commit id,
/// author, date and subject separated by `'\u{1f}'`, each trimmed; the change
/// id is the commit id, and no file is listed yet.
pub open spec fn header_record(rest: Seq<char>) -> CommitRecord {
    let f = splitn_seq(rest, '\u{1f}', 4);
    CommitRecord {
        change_id: trim(part_or_empty(f, 0)),
        commit_id: trim(part_or_empty(f, 0)),
        author: trim(part_or_empty(f, 1)),
        timestamp: trim(part_or_empty(f, 2)),
        description: trim(part_or_empty(f, 3)),
        changed_files: seq![],
    }
}

pub open spec fn opt_model(o: Option<CommitInfo>) -> Option<CommitRecord> {
    match o {
        Some(c) => Some(c.model()),
        None => None,
    }
}

pub open spec fn opt_records(cur: Option<CommitRecord>) -> Seq<CommitRecord> {
    match cur {
        Some(c) => seq![c],
        None => seq![],
    }
}

/// The commit being read with one more line of the file list taken in: a
/// non-blank line adds its trimmed text as a changed file.
pub open spec fn add_file_line(cur: Option<CommitRecord>, line: Seq<char>) -> Option<CommitRecord> {
    match cur {
        Some(c) => if trim(line).len() > 0 {
            Some(CommitRecord { changed_files: c.changed_files.push(trim(line)), ..c })
        } else {
            Some(c)
        },
        None => None,
    }
}

/// The commits read from the lines `ls`, given those finished (`done`) and the
/// one being read (`cur`): a header line finishes the current commit and
/// starts another; other lines list the current commit's changed files.
pub open spec fn read_commits(
    ls: Seq<Seq<char>>,
    cur: Option<CommitRecord>,
    done: Seq<CommitRecord>,
) -> Seq<CommitRecord>
    decreases ls.len(),
{
    if ls.len() == 0 {
        done + opt_records(cur)
    } else if has_prefix(ls[0], header_prefix()) {
        read_commits(
            ls.drop_first(),
            Some(header_record(ls[0].skip(header_prefix().len() as int))),
            done + opt_records(cur),
        )
    } else {
        read_commits(ls.drop_first(), add_file_line(cur, ls[0]), done)
    }
}

/// The commits of a `git log --name-only` output in the format of [`commits_in_range`].
pub open spec fn commits_of_log(output: Seq<char>) -> Seq<CommitRecord> {
    read_commits(lines_of(output), None, seq![])
}

/// `git log --name-only --format=COMMIT:␟%H␟%an␟%ai␟%s <from_sha>..<to_sha>`:
/// the commits reachable from `to_sha` but not from `from_sha`, newest first,
/// each a header line followed by the files it changed.
pub fn commits_in_range(repo_path: &str, from_sha: &str, to_sha: &str) -> (r: Invocation)
    ensures
        r.is(
            Tool::Git,
            Some(repo_path@),
            seq![
                "log"@,
                "--name-only"@,
                "--format=COMMIT:\u{1f}%H\u{1f}%an\u{1f}%ai\u{1f}%s"@,
                from_sha@ + ".."@ + to_sha@,
            ],
        ),
{
    let range = join3(from_sha, "..", to_sha);
    let mut a: Vec<String> = Vec::new();
    push_arg(&mut a, "log");
    push_arg(&mut a, "--name-only");
    push_arg(&mut a, "--format=COMMIT:\u{1f}%H\u{1f}%an\u{1f}%ai\u{1f}%s");
    push_arg(&mut a, range.as_str());
    git(repo_path, a)
}

fn part(parts: &Vec<String>, k: usize) -> (r: String)
    ensures
        r@ == part_or_empty(strs_view(parts@), k as int),
{
    if k < parts.len() {
        parts[k].clone()
    } else {
        String::new()
    }
}

/// The commits listed in the output of [`commits_in_range`], in order.
pub fn parse_commits_in_range(output: &str) -> (r: Vec<CommitInfo>)
    ensures
        r@.map_values(|c: CommitInfo| c.model()) == commits_of_log(output@),
{
    let ls = lines(output);
    let ghost lv = strs_view(ls@);
    let mut commits: Vec<CommitInfo> = Vec::new();
    let mut current: Option<CommitInfo> = None;
    let mut i: usize = 0;
    assert(lv.skip(0) =~= lv);
    assert(commits@.map_values(|c: CommitInfo| c.model()) =~= Seq::<CommitRecord>::empty());
    while i < ls.len()
        invariant
            i <= ls@.len(),
            lv == strs_view(ls@),
            lv == lines_of(output@),
            read_commits(
                lv.skip(i as int),
                opt_model(current),
                commits@.map_values(|c: CommitInfo| c.model()),
            ) == commits_of_log(output@),
        decreases ls.len() - i,
    {
        let line = ls[i].as_str();
        let ghost cur_m = opt_model(current);
        let ghost done_m = commits@.map_values(|c: CommitInfo| c.model());
        assert(lv.skip(i as int)[0] == lv[i as int]);
        assert(lv.skip(i as int).drop_first() =~= lv.skip(i + 1));
        match strip_prefix(line, "COMMIT:\u{1f}") {
            Some(rest) => {
                if let Some(c) = current.take() {
                    commits.push(c);
                }
                assert(commits@.map_values(|c: CommitInfo| c.model()) =~= done_m + opt_records(
                    cur_m,
                ));
                let fields = splitn(rest.as_str(), 4, '\u{1f}');
                let f0 = part(&fields, 0);
                let commit_id = trim_str(f0.as_str());
                let f1 = part(&fields, 1);
                let author = trim_str(f1.as_str());
                let f2 = part(&fields, 2);
                let timestamp = trim_str(f2.as_str());
                let f3 = part(&fields, 3);
                let description = trim_str(f3.as_str());
                let c = CommitInfo {
                    change_id: commit_id.clone(),
                    commit_id,
                    description,
                    author,
                    timestamp,
                    changed_files: Vec::new(),
                };
                assert(c.model().changed_files =~= Seq::<Seq<char>>::empty());
                assert(c.model() == header_record(lv[i as int].skip(header_prefix().len() as int)));
                current = Some(c);
            },
            None => {
                let t = trim_str(line);
                if !t.as_str().is_empty() {
                    match current {
                        Some(mut c) => {
                            let ghost old_c = c.model();
                            c.changed_files.push(t);
                            assert(c.model().changed_files =~= old_c.changed_files.push(
                                trim(lv[i as int]),
                            ));
                            current = Some(c);
                        },
                        None => {},
                    }
                }
            },
        }
        i = i + 1;
    }
    if let Some(c) = current {
        commits.push(c);
    }
    assert(lv.skip(i as int) =~= Seq::<Seq<char>>::empty());
    assert(commits@.map_values(|c: CommitInfo| c.model()) =~= commits_of_log(output@));
    commits
}

/// Law: every commit read from a range has its commit id as its change id
/// (git alone knows no change ids).
pub proof fn lemma_range_change_ids(output: Seq<char>)
    ensures
        forall|i: int|
            0 <= i < commits_of_log(output).len() ==> (#[trigger] commits_of_log(output)[i]).change_id
                == commits_of_log(output)[i].commit_id,
{
    lemma_read_commits_ids(lines_of(output), None, seq![]);
}

proof fn lemma_read_commits_ids(ls: Seq<Seq<char>>, cur: Option<CommitRecord>, done: Seq<CommitRecord>)
    requires
        forall|i: int| 0 <= i < done.len() ==> (#[trigger] done[i]).change_id == done[i].commit_id,
        cur matches Some(c) ==> c.change_id == c.commit_id,
    ensures
        forall|i: int|
            0 <= i < read_commits(ls, cur, done).len() ==> (#[trigger] read_commits(
                ls,
                cur,
                done,
            )[i]).change_id == read_commits(ls, cur, done)[i].commit_id,
    decreases ls.len(),
{
    let d2 = done + opt_records(cur);
    assert forall|i: int| 0 <= i < d2.len() implies (#[trigger] d2[i]).change_id == d2[i].commit_id by {
        if i >= done.len() {
            assert(d2[i] == opt_records(cur)[i - done.len()]);
        }
    }
    if ls.len() == 0 {
        assert(read_commits(ls, cur, done) == d2);
    } else if has_prefix(ls[0], header_prefix()) {
        let h = header_record(ls[0].skip(header_prefix().len() as int));
        assert(h.change_id == h.commit_id);
        lemma_read_commits_ids(ls.drop_first(), Some(h), d2);
        assert(read_commits(ls, cur, done) == read_commits(ls.drop_first(), Some(h), d2));
    } else {
        let c2 = add_file_line(cur, ls[0]);
        assert(c2 matches Some(c) ==> c.change_id == c.commit_id);
        lemma_read_commits_ids(ls.drop_first(), c2, done);
        assert(read_commits(ls, cur, done) == read_commits(ls.drop_first(), c2, done));
    }
}

// ---------------------------------------------------------------------------
// Finding a commit by its subject
// ---------------------------------------------------------------------------

/// `git log --all --format=%H␟%s`: every commit with its subject.
pub fn find_commit_by_description(repo_path: &str) -> (r: Invocation)
    ensures
        r.is(Tool::Git, Some(repo_path@), seq!["log"@, "--all"@, "--format=%H\u{1f}%s"@]),
{
    let mut a: Vec<String> = Vec::new();
    push_arg(&mut a, "log");
    push_arg(&mut a, "--all");
    push_arg(&mut a, "--format=%H\u{1f}%s");
    git(repo_path, a)
}

/// The trimmed subject of a `sha␟subject` line, and its trimmed sha.
pub open spec fn line_subject(line: Seq<char>) -> Seq<char> {
    trim(part_or_empty(splitn_seq(line, '\u{1f}', 2), 1))
}

pub open spec fn line_sha(line: Seq<char>) -> Seq<char> {
    trim(part_or_empty(splitn_seq(line, '\u{1f}', 2), 0))
}

/// Index of the first line whose subject is `desc`, or `ls.len()`.
pub open spec fn first_with_subject(ls: Seq<Seq<char>>, desc: Seq<char>) -> nat
    decreases ls.len(),
{
    if ls.len() == 0 {
        0
    } else if line_subject(ls[0]) == desc {
        0
    } else {
        1 + first_with_subject(ls.drop_first(), desc)
    }
}

proof fn lemma_first_with_subject(ls: Seq<Seq<char>>, desc: Seq<char>, j: int)
    requires
        0 <= j <= ls.len(),
        forall|k: int| 0 <= k < j ==> line_subject(#[trigger] ls[k]) != desc,
        j == ls.len() || line_subject(ls[j]) == desc,
    ensures
        first_with_subject(ls, desc) == j,
    decreases j,
{
    if j > 0 {
        let t = ls.drop_first();
        assert(line_subject(ls[0]) != desc);
        assert forall|k: int| 0 <= k < j - 1 implies line_subject(#[trigger] t[k]) != desc by {
            assert(t[k] == ls[k + 1]);
        }
        if j - 1 < t.len() {
            assert(t[j - 1] == ls[j]);
        }
        lemma_first_with_subject(t, desc, j - 1);
    }
}

/// The sha of the first commit, in the output of [`find_commit_by_description`],
/// whose subject is exactly `description` (both trimmed); an error when none is.
pub fn parse_commit_by_description(output: &str, description: &str) -> (r: Result<String, String>)
    ensures
        ({
            let ls = lines_of(output@);
            let i = first_with_subject(ls, description@);
            &&& i < ls.len() ==> (r matches Ok(s) && s@ == line_sha(ls[i as int]))
            &&& i == ls.len() ==> (r matches Err(e) && e@ == "no commit found with description: "@
                + description@)
        }),
{
    let ls = lines(output);
    let ghost lv = strs_view(ls@);
    let mut i: usize = 0;
    while i < ls.len()
        invariant
            i <= ls@.len(),
            lv == strs_view(ls@),
            lv == lines_of(output@),
            forall|k: int| 0 <= k < i ==> line_subject(#[trigger] lv[k]) != description@,
        decreases ls.len() - i,
    {
        let parts = splitn(ls[i].as_str(), 2, '\u{1f}');
        let p0 = part(&parts, 0);
        let sha = trim_str(p0.as_str());
        let p1 = part(&parts, 1);
        let msg = trim_str(p1.as_str());
        assert(lv[i as int] == ls@[i as int]@);
        if str_eq(msg.as_str(), description) {
            proof {
                lemma_first_with_subject(lv, description@, i as int);
            }
            return Ok(sha);
        }
        i = i + 1;
    }
    proof {
        lemma_first_with_subject(lv, description@, lv.len() as int);
    }
    Err(join2("no commit found with description: ", description))
}

// ---------------------------------------------------------------------------
// Diffs
// ---------------------------------------------------------------------------

/// The kind code of a diff line by its origin marker: 1 for `'+'`, 2 for
/// `'-'`, 0 for anything else.
pub open spec fn line_kind(origin: char) -> i32 {
    if origin == '+' {
        1
    } else if origin == '-' {
        2
    } else {
        0
    }
}

/// Collects the lines of a commit's diff as its hunks and lines are visited:
/// hunks are numbered from 1, each line belongs to the last hunk seen.
pub struct DiffCollector {
    pub lines: Vec<DiffLine>,
    pub hunk_id: i32,
}

impl DiffCollector {
    /// What a collection keeps whatever hunks and lines it is given: every
    /// kind is 0 to 3, every hunk id lies between 0 and the current one, and
    /// hunk ids never decrease along the lines.
    pub open spec fn wf(&self) -> bool {
        &&& self.hunk_id >= 0
        &&& forall|i: int|
            0 <= i < self.lines@.len() ==> 0 <= (#[trigger] self.lines@[i]).kind <= 3 && 0
                <= self.lines@[i].hunk_id <= self.hunk_id
        &&& forall|i: int, j: int|
            0 <= i < j < self.lines@.len() ==> (#[trigger] self.lines@[i]).hunk_id <= (
            #[trigger] self.lines@[j]).hunk_id
    }

    /// An empty collection, before any hunk.
    pub fn new() -> (r: Self)
        ensures
            r.lines@.len() == 0,
            r.hunk_id == 0,
            r.wf(),
    {
        DiffCollector { lines: Vec::new(), hunk_id: 0 }
    }

    /// A hunk starts: it gets the next number, and its header (without
    /// trailing whitespace) becomes a line of kind 3.
    pub fn on_hunk(&mut self, header: &str)
        requires
            old(self).hunk_id < i32::MAX,
        ensures
            final(self).hunk_id == old(self).hunk_id + 1,
            final(self).lines@.len() == old(self).lines@.len() + 1,
            forall|i: int| 0 <= i < old(self).lines@.len() ==> final(self).lines@[i] == old(self).lines@[i],
            final(self).lines@.last().content@ == trim_end(header@),
            final(self).lines@.last().kind == 3,
            final(self).lines@.last().hunk_id == final(self).hunk_id,
            old(self).wf() ==> final(self).wf(),
    {
        let id = self.hunk_id + 1;
        self.hunk_id = id;
        let content = trim_end_str(header);
        self.lines.push(DiffLine { content, kind: 3, hunk_id: id });
    }

    /// A line of the current hunk: its origin marker followed by its text
    /// without trailing whitespace, with the kind its marker gives.
    pub fn on_line(&mut self, origin: char, raw: &str)
        ensures
            final(self).hunk_id == old(self).hunk_id,
            final(self).lines@.len() == old(self).lines@.len() + 1,
            forall|i: int| 0 <= i < old(self).lines@.len() ==> final(self).lines@[i] == old(self).lines@[i],
            final(self).lines@.last().content@ == seq![origin] + trim_end(raw@),
            final(self).lines@.last().kind == line_kind(origin),
            final(self).lines@.last().hunk_id == old(self).hunk_id,
            old(self).wf() ==> final(self).wf(),
    {
        let kind: i32 = if origin == '+' {
            1
        } else if origin == '-' {
            2
        } else {
            0
        };
        let mut o: Vec<char> = Vec::new();
        o.push(origin);
        let os = string_of(o.as_slice());
        let t = trim_end_str(raw);
        let content = join2(os.as_str(), t.as_str());
        self.lines.push(DiffLine { content, kind, hunk_id: self.hunk_id });
    }
}

} // verus!
