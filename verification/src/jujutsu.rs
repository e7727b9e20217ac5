//! The jj commands the workspace tool runs, and what their output means.
use vstd::prelude::*;
use crate::invocation::{
    Invocation, Tool, jj, push_arg, push_all, push_dest_args, dest_args, strs_view,
};
use crate::git_utils::{CommitInfo, CommitRecord};
use crate::text::{
    trim, trim_str, owned, join2, join3, lines, lines_of, words, split_whitespace, splitn,
    splitn_seq, part_or_empty, has_suffix, ends_with, str_eq, chars_of, find_char,
    string_of_range, index_of, lemma_index_of,
};

verus! {

// ---------------------------------------------------------------------------
// Operations and revisions
// ---------------------------------------------------------------------------

/// `jj op log -n 1 --no-graph -T self.id()`: prints the id of the latest operation.
pub fn current_op_id(repo_path: &str) -> (r: Invocation)
    ensures
        r.is(
            Tool::Jj,
            Some(repo_path@),
            seq!["op"@, "log"@, "-n"@, "1"@, "--no-graph"@, "-T"@, "self.id()"@],
        ),
{
    let mut a: Vec<String> = Vec::new();
    push_arg(&mut a, "op");
    push_arg(&mut a, "log");
    push_arg(&mut a, "-n");
    push_arg(&mut a, "1");
    push_arg(&mut a, "--no-graph");
    push_arg(&mut a, "-T");
    push_arg(&mut a, "self.id()");
    jj(repo_path, a)
}

/// The operation id in the output of [`current_op_id`] (trimmed); an error when it is empty.
pub fn parse_op_id(output: &str) -> (r: Result<String, String>)
    ensures
        trim(output@).len() > 0 ==> r == Ok::<String, String>(r->Ok_0) && r->Ok_0@ == trim(output@),
        trim(output@).len() == 0 ==> (r matches Err(e) && e@ == "jj op log returned empty output"@),
{
    let id = trim_str(output);
    if id.as_str().is_empty() {
        Err(owned("jj op log returned empty output"))
    } else {
        Ok(id)
    }
}

/// A jj change id: lowercase ASCII letters only (so no digit), with some
/// letter past `f` (so it cannot be a hexadecimal commit id).
pub open spec fn is_change_id_spec(s: Seq<char>) -> bool {
    &&& s.len() > 0
    &&& forall|i: int| 0 <= i < s.len() ==> 'a' <= #[trigger] s[i] && s[i] <= 'z'
    &&& forall|i: int| 0 <= i < s.len() ==> !('0' <= #[trigger] s[i] && s[i] <= '9')
    &&& exists|i: int| 0 <= i < s.len() && #[trigger] s[i] > 'f'
}

/// Whether `s` looks like a jj change id rather than a git commit id.
pub fn is_change_id(s: &str) -> (r: bool)
    ensures
        r == is_change_id_spec(s@),
{
    let v = chars_of(s);
    if v.len() == 0 {
        return false;
    }
    let mut past_f = false;
    let mut i: usize = 0;
    while i < v.len()
        invariant
            i <= v@.len(),
            v@ == s@,
            forall|k: int| 0 <= k < i ==> 'a' <= #[trigger] v@[k] && v@[k] <= 'z',
            past_f == exists|k: int| 0 <= k < i && #[trigger] v@[k] > 'f',
        decreases v.len() - i,
    {
        let c = v[i];
        if !('a' <= c && c <= 'z') {
            return false;
        }
        if c > 'f' {
            past_f = true;
        }
        i = i + 1;
    }
    past_f
}

/// How to learn a revision's commit id or change id: it is already known, or
/// the command prints it.
pub enum RevLookup {
    Known(String),
    Run(Invocation),
}

/// `jj show -T <template> --no-patch <rev>`.
fn show_template(repo_path: &str, template: &str, rev: &str) -> (r: Invocation)
    ensures
        r.is(Tool::Jj, Some(repo_path@), seq!["show"@, "-T"@, template@, "--no-patch"@, rev@]),
{
    let mut a: Vec<String> = Vec::new();
    push_arg(&mut a, "show");
    push_arg(&mut a, "-T");
    push_arg(&mut a, template);
    push_arg(&mut a, "--no-patch");
    push_arg(&mut a, rev);
    jj(repo_path, a)
}

/// The git commit id of `rev`: `rev` itself unless it is a change id, which
/// `jj show -T commit_id --no-patch <rev>` resolves.
pub fn to_sha1(repo_path: &str, rev: &str) -> (r: RevLookup)
    ensures
        !is_change_id_spec(rev@) ==> (r matches RevLookup::Known(s) && s@ == rev@),
        is_change_id_spec(rev@) ==> (r matches RevLookup::Run(i) && i.is(
            Tool::Jj,
            Some(repo_path@),
            seq!["show"@, "-T"@, "commit_id"@, "--no-patch"@, rev@],
        )),
{
    if is_change_id(rev) {
        RevLookup::Run(show_template(repo_path, "commit_id", rev))
    } else {
        RevLookup::Known(owned(rev))
    }
}

/// The jj change id of `rev`: `rev` itself when it is one, else
/// `jj show -T change_id --no-patch <rev>` resolves it.
pub fn to_change_id(repo_path: &str, rev: &str) -> (r: RevLookup)
    ensures
        is_change_id_spec(rev@) ==> (r matches RevLookup::Known(s) && s@ == rev@),
        !is_change_id_spec(rev@) ==> (r matches RevLookup::Run(i) && i.is(
            Tool::Jj,
            Some(repo_path@),
            seq!["show"@, "-T"@, "change_id"@, "--no-patch"@, rev@],
        )),
{
    if is_change_id(rev) {
        RevLookup::Known(owned(rev))
    } else {
        RevLookup::Run(show_template(repo_path, "change_id", rev))
    }
}

// ---------------------------------------------------------------------------
// User configuration
// ---------------------------------------------------------------------------

/// `jj config get <key>`.
pub fn jj_config_get(repo_path: &str, key: &str) -> (r: Invocation)
    ensures
        r.is(Tool::Jj, Some(repo_path@), seq!["config"@, "get"@, key@]),
{
    let mut a: Vec<String> = Vec::new();
    push_arg(&mut a, "config");
    push_arg(&mut a, "get");
    push_arg(&mut a, key);
    jj(repo_path, a)
}

/// `jj config set --user <key> <value>`.
pub fn jj_config_set_user(repo_path: &str, key: &str, value: &str) -> (r: Invocation)
    ensures
        r.is(Tool::Jj, Some(repo_path@), seq!["config"@, "set"@, "--user"@, key@, value@]),
{
    let mut a: Vec<String> = Vec::new();
    push_arg(&mut a, "config");
    push_arg(&mut a, "set");
    push_arg(&mut a, "--user");
    push_arg(&mut a, key);
    push_arg(&mut a, value);
    jj(repo_path, a)
}

pub open spec fn identity_message() -> Seq<char> {
    "jj user identity is not configured. Run:\n\n  jj config set --user user.name \"Some One\"\n  jj config set --user user.email \"someone@example.com\""@
}

/// What makes jj's user identity complete, given the configured name and
/// email (empty when unset) and `GIT_AUTHOR_NAME` / `GIT_AUTHOR_EMAIL` (empty
/// when unset): nothing when both are configured; else, when both variables
/// are set, the commands that set the missing ones from them; else an error.
pub fn ensure_user_config(
    repo_path: &str,
    name: &str,
    email: &str,
    env_name: &str,
    env_email: &str,
) -> (r: Result<Vec<Invocation>, String>)
    ensures
        name@.len() > 0 && email@.len() > 0 ==> (r matches Ok(v) && v@.len() == 0),
        !(name@.len() > 0 && email@.len() > 0) && env_name@.len() > 0 && env_email@.len() > 0
            ==> (r matches Ok(v) && v@.len() == (if name@.len() == 0 {
            1int
        } else {
            0
        }) + (if email@.len() == 0 {
            1int
        } else {
            0
        }) && (name@.len() == 0 ==> v@[0].is(
            Tool::Jj,
            Some(repo_path@),
            seq!["config"@, "set"@, "--user"@, "user.name"@, env_name@],
        )) && (email@.len() == 0 ==> v@.last().is(
            Tool::Jj,
            Some(repo_path@),
            seq!["config"@, "set"@, "--user"@, "user.email"@, env_email@],
        ))),
        !(name@.len() > 0 && email@.len() > 0) && !(env_name@.len() > 0 && env_email@.len() > 0)
            ==> (r matches Err(e) && e@ == identity_message()),
{
    let name_missing = name.is_empty();
    let email_missing = email.is_empty();
    if !name_missing && !email_missing {
        return Ok(Vec::new());
    }
    if !env_name.is_empty() && !env_email.is_empty() {
        let mut v: Vec<Invocation> = Vec::new();
        if name_missing {
            v.push(jj_config_set_user(repo_path, "user.name", env_name));
        }
        if email_missing {
            v.push(jj_config_set_user(repo_path, "user.email", env_email));
        }
        return Ok(v);
    }
    Err(owned(
        "jj user identity is not configured. Run:\n\n  jj config set --user user.name \"Some One\"\n  jj config set --user user.email \"someone@example.com\"",
    ))
}

// ---------------------------------------------------------------------------
// Rewriting commits
// ---------------------------------------------------------------------------

/// `jj log -r <rev> --no-graph -T change_id`: prints the change id of `rev`.
pub fn change_id_of(repo_path: &str, rev: &str) -> (r: Invocation)
    ensures
        r.is(Tool::Jj, Some(repo_path@), seq!["log"@, "-r"@, rev@, "--no-graph"@, "-T"@, "change_id"@]),
{
    log_template(repo_path, rev, "change_id")
}

/// `jj log -r <rev> --no-graph -T commit_id`: prints the commit id of `rev`.
pub fn commit_id_of(repo_path: &str, rev: &str) -> (r: Invocation)
    ensures
        r.is(Tool::Jj, Some(repo_path@), seq!["log"@, "-r"@, rev@, "--no-graph"@, "-T"@, "commit_id"@]),
{
    log_template(repo_path, rev, "commit_id")
}

fn log_template(repo_path: &str, rev: &str, template: &str) -> (r: Invocation)
    ensures
        r.is(Tool::Jj, Some(repo_path@), seq!["log"@, "-r"@, rev@, "--no-graph"@, "-T"@, template@]),
{
    let mut a: Vec<String> = Vec::new();
    push_arg(&mut a, "log");
    push_arg(&mut a, "-r");
    push_arg(&mut a, rev);
    push_arg(&mut a, "--no-graph");
    push_arg(&mut a, "-T");
    push_arg(&mut a, template);
    jj(repo_path, a)
}

/// The rebase of the merge commit onto `parents`: `jj rebase -s|-r <merge_sha>`
/// then `-d <p>` for each parent, in order (`-s` also moves its descendants).
/// Its new commit id is then read by [`commit_id_of`] its change id, which
/// [`change_id_of`] gives before the rebase and which the rebase keeps.
pub fn rebase_merge_commit(repo_path: &str, merge_sha: &str, parents: &Vec<String>, use_source: bool) -> (r: Invocation)
    ensures
        r.is(
            Tool::Jj,
            Some(repo_path@),
            seq!["rebase"@, if use_source {
                "-s"@
            } else {
                "-r"@
            }, merge_sha@] + dest_args(strs_view(parents@)),
        ),
{
    let mut a: Vec<String> = Vec::new();
    push_arg(&mut a, "rebase");
    if use_source {
        push_arg(&mut a, "-s");
    } else {
        push_arg(&mut a, "-r");
    }
    push_arg(&mut a, merge_sha);
    push_dest_args(&mut a, parents);
    jj(repo_path, a)
}

/// `jj rebase -s <revision> -d <p>...`: moves `revision` and its descendants.
pub fn rebase_source(repo_path: &str, revision: &str, parents: &Vec<String>) -> (r: Invocation)
    ensures
        r.is(Tool::Jj, Some(repo_path@), seq!["rebase"@, "-s"@, revision@] + dest_args(strs_view(parents@))),
{
    rebase_source_impl(repo_path, revision, parents, false)
}

/// As [`rebase_source`], with `--ignore-immutable` first.
pub fn rebase_source_ignore_immutable(repo_path: &str, revision: &str, parents: &Vec<String>) -> (r: Invocation)
    ensures
        r.is(
            Tool::Jj,
            Some(repo_path@),
            seq!["rebase"@, "--ignore-immutable"@, "-s"@, revision@] + dest_args(strs_view(parents@)),
        ),
{
    rebase_source_impl(repo_path, revision, parents, true)
}

fn rebase_source_impl(repo_path: &str, revision: &str, parents: &Vec<String>, ignore_immutable: bool) -> (r: Invocation)
    ensures
        r.is(
            Tool::Jj,
            Some(repo_path@),
            (if ignore_immutable {
                seq!["rebase"@, "--ignore-immutable"@]
            } else {
                seq!["rebase"@]
            }) + seq!["-s"@, revision@] + dest_args(strs_view(parents@)),
        ),
{
    let mut a: Vec<String> = Vec::new();
    push_arg(&mut a, "rebase");
    if ignore_immutable {
        push_arg(&mut a, "--ignore-immutable");
    }
    push_arg(&mut a, "-s");
    push_arg(&mut a, revision);
    push_dest_args(&mut a, parents);
    jj(repo_path, a)
}

/// `jj abandon <sha> --ignore-immutable`.
pub fn abandon_commit(repo_path: &str, sha: &str) -> (r: Invocation)
    ensures
        r.is(Tool::Jj, Some(repo_path@), seq!["abandon"@, sha@, "--ignore-immutable"@]),
{
    let mut a: Vec<String> = Vec::new();
    push_arg(&mut a, "abandon");
    push_arg(&mut a, sha);
    push_arg(&mut a, "--ignore-immutable");
    jj(repo_path, a)
}

/// `jj new <revision>`, then `jj log -r @ --no-graph -T commit_id`, which
/// prints the id of the new working-copy commit.
pub fn new_at(repo_path: &str, revision: &str) -> (r: Vec<Invocation>)
    ensures
        r@.len() == 2,
        r@[0].is(Tool::Jj, Some(repo_path@), seq!["new"@, revision@]),
        r@[1].is(Tool::Jj, Some(repo_path@), seq!["log"@, "-r"@, "@"@, "--no-graph"@, "-T"@, "commit_id"@]),
{
    let mut r: Vec<Invocation> = Vec::new();
    r.push(new_only(repo_path, revision));
    r.push(commit_id_of(repo_path, "@"));
    r
}

/// `jj new <revision>`: moves the working copy to a new empty commit on top of it.
pub fn new_only(repo_path: &str, revision: &str) -> (r: Invocation)
    ensures
        r.is(Tool::Jj, Some(repo_path@), seq!["new"@, revision@]),
{
    let mut a: Vec<String> = Vec::new();
    push_arg(&mut a, "new");
    push_arg(&mut a, revision);
    jj(repo_path, a)
}

/// `jj log -r <revision>+ --no-graph -T 'commit_id ++ "\n"'`: the direct
/// children of `revision`, one commit id per line.
pub fn children_of(repo_path: &str, revision: &str) -> (r: Invocation)
    ensures
        r.is(
            Tool::Jj,
            Some(repo_path@),
            seq!["log"@, "-r"@, revision@ + "+"@, "--no-graph"@, "-T"@, "commit_id ++ \"\\n\""@],
        ),
{
    let revset = join2(revision, "+");
    log_template(repo_path, revset.as_str(), "commit_id ++ \"\\n\"")
}

/// The non-blank lines of an output, trimmed.
pub open spec fn nonblank_trimmed(output: Seq<char>) -> Seq<Seq<char>> {
    lines_of(output).map_values(|l: Seq<char>| trim(l)).filter(|l: Seq<char>| l.len() > 0)
}

/// The commit ids in the output of [`children_of`]: its lines, trimmed, blank ones left out.
pub fn parse_commit_ids(output: &str) -> (r: Vec<String>)
    ensures
        strs_view(r@) == nonblank_trimmed(output@),
{
    let ls = lines(output);
    let ghost tv = strs_view(ls@).map_values(|l: Seq<char>| trim(l));
    let mut r: Vec<String> = Vec::new();
    let mut i: usize = 0;
    while i < ls.len()
        invariant
            i <= ls@.len(),
            strs_view(ls@) == lines_of(output@),
            tv == strs_view(ls@).map_values(|l: Seq<char>| trim(l)),
            strs_view(r@) == tv.take(i as int).filter(|l: Seq<char>| l.len() > 0),
        decreases ls.len() - i,
    {
        proof {
            reveal_with_fuel(Seq::<_>::filter, 1);
        }
        assert(tv.take(i + 1).drop_last() =~= tv.take(i as int));
        let t = trim_str(ls[i].as_str());
        assert(t@ == tv[i as int]);
        let ghost before = strs_view(r@);
        if !t.as_str().is_empty() {
            r.push(t);
            assert(strs_view(r@) =~= before.push(tv[i as int]));
        }
        i = i + 1;
    }
    assert(tv.take(tv.len() as int) =~= tv);
    r
}

/// `jj new <revision> --no-edit`: a new empty child of `revision`, the
/// working copy staying where it is.
pub fn new_no_edit_on(repo_path: &str, revision: &str) -> (r: Invocation)
    ensures
        r.is(Tool::Jj, Some(repo_path@), seq!["new"@, revision@, "--no-edit"@]),
{
    let mut a: Vec<String> = Vec::new();
    push_arg(&mut a, "new");
    push_arg(&mut a, revision);
    push_arg(&mut a, "--no-edit");
    jj(repo_path, a)
}

/// The commit [`new_no_edit_on`] created: the first child of `revision`
/// listed after it ran (`after`) that was not listed before (`before`); an
/// error when there is none.
pub fn identify_new_commit(before: &Vec<String>, after: &Vec<String>, revision: &str) -> (r: Result<String, String>)
    ensures
        (exists|i: int| 0 <= i < after@.len() && !strs_view(before@).contains(#[trigger] after@[i]@))
            <==> r is Ok,
        r matches Ok(s) ==> exists|i: int|
            0 <= i < after@.len() && s@ == #[trigger] after@[i]@ && !strs_view(before@).contains(after@[i]@)
                && forall|k: int| 0 <= k < i ==> strs_view(before@).contains(#[trigger] after@[k]@),
        r matches Err(e) ==> e@ == "failed to identify newly created commit on "@ + revision@,
{
    let mut i: usize = 0;
    while i < after.len()
        invariant
            i <= after@.len(),
            forall|k: int| 0 <= k < i ==> strs_view(before@).contains(#[trigger] after@[k]@),
        decreases after.len() - i,
    {
        if !crate::git_utils::contains_string(before, after[i].as_str()) {
            return Ok(after[i].clone());
        }
        i = i + 1;
    }
    Err(join2("failed to identify newly created commit on ", revision))
}

/// `jj resolve --list --color=always`: lists conflicted files (a failure means none).
pub fn resolve_list(repo_path: &str) -> (r: Invocation)
    ensures
        r.is(Tool::Jj, Some(repo_path@), seq!["resolve"@, "--list"@, "--color=always"@]),
{
    let mut a: Vec<String> = Vec::new();
    push_arg(&mut a, "resolve");
    push_arg(&mut a, "--list");
    push_arg(&mut a, "--color=always");
    jj(repo_path, a)
}

/// The conflicted files that [`resolve_list`] reports, from the run of its
/// command: its (trimmed) output when it succeeded, nothing when it failed,
/// as jj does when there is no conflict. Never an error.
pub fn resolve_list_answer(run: Result<String, String>) -> (r: String)
    ensures
        run matches Ok(o) ==> r@ == o@,
        run is Err ==> r@ == Seq::<char>::empty(),
{
    match run {
        Ok(o) => o,
        Err(_) => String::new(),
    }
}

/// `jj status --color=always`.
pub fn status(repo_path: &str) -> (r: Invocation)
    ensures
        r.is(Tool::Jj, Some(repo_path@), seq!["status"@, "--color=always"@]),
{
    let mut a: Vec<String> = Vec::new();
    push_arg(&mut a, "status");
    push_arg(&mut a, "--color=always");
    jj(repo_path, a)
}

/// `jj bookmark create <name> -r <revision>`.
pub fn create_bookmark(repo_path: &str, name: &str, revision: &str) -> (r: Invocation)
    ensures
        r.is(Tool::Jj, Some(repo_path@), seq!["bookmark"@, "create"@, name@, "-r"@, revision@]),
{
    bookmark_command(repo_path, "create", name, revision)
}

/// `jj bookmark set <name> -r <revision>`.
pub fn set_bookmark(repo_path: &str, name: &str, revision: &str) -> (r: Invocation)
    ensures
        r.is(Tool::Jj, Some(repo_path@), seq!["bookmark"@, "set"@, name@, "-r"@, revision@]),
{
    bookmark_command(repo_path, "set", name, revision)
}

fn bookmark_command(repo_path: &str, verb: &str, name: &str, revision: &str) -> (r: Invocation)
    ensures
        r.is(Tool::Jj, Some(repo_path@), seq!["bookmark"@, verb@, name@, "-r"@, revision@]),
{
    let mut a: Vec<String> = Vec::new();
    push_arg(&mut a, "bookmark");
    push_arg(&mut a, verb);
    push_arg(&mut a, name);
    push_arg(&mut a, "-r");
    push_arg(&mut a, revision);
    jj(repo_path, a)
}

/// `jj new -m <message> <shas>...`, then a plain `jj new` when `do_new`.
pub fn create_merge_commit(repo_path: &str, message: &str, shas: &Vec<String>, do_new: bool) -> (r: Vec<Invocation>)
    ensures
        r@.len() == if do_new {
            2int
        } else {
            1
        },
        r@[0].is(Tool::Jj, Some(repo_path@), seq!["new"@, "-m"@, message@] + strs_view(shas@)),
        do_new ==> r@[1].is(Tool::Jj, Some(repo_path@), seq!["new"@]),
{
    let mut a: Vec<String> = Vec::new();
    push_arg(&mut a, "new");
    push_arg(&mut a, "-m");
    push_arg(&mut a, message);
    push_all(&mut a, shas);
    let mut r: Vec<Invocation> = Vec::new();
    r.push(jj(repo_path, a));
    if do_new {
        let mut b: Vec<String> = Vec::new();
        push_arg(&mut b, "new");
        r.push(jj(repo_path, b));
    }
    r
}

/// `jj desc -m <message>`: describes the working-copy commit.
pub fn describe_current(repo_path: &str, message: &str) -> (r: Invocation)
    ensures
        r.is(Tool::Jj, Some(repo_path@), seq!["desc"@, "-m"@, message@]),
{
    let mut a: Vec<String> = Vec::new();
    push_arg(&mut a, "desc");
    push_arg(&mut a, "-m");
    push_arg(&mut a, message);
    jj(repo_path, a)
}

/// `jj new -A <parent> --no-edit [-m <message>]`: a new commit after `parent`.
pub fn new_after(repo_path: &str, parent: &str, message: Option<&str>) -> (r: Invocation)
    ensures
        r.is(
            Tool::Jj,
            Some(repo_path@),
            seq!["new"@, "-A"@, parent@, "--no-edit"@] + match message {
                Some(m) => seq!["-m"@, m@],
                None => seq![],
            },
        ),
{
    let mut a: Vec<String> = Vec::new();
    push_arg(&mut a, "new");
    push_arg(&mut a, "-A");
    push_arg(&mut a, parent);
    push_arg(&mut a, "--no-edit");
    if let Some(msg) = message {
        push_arg(&mut a, "-m");
        push_arg(&mut a, msg);
    }
    jj(repo_path, a)
}

/// `jj rebase -r <revision> -A <target>`.
pub fn rebase_after(repo_path: &str, revision: &str, target: &str) -> (r: Invocation)
    ensures
        r.is(Tool::Jj, Some(repo_path@), seq!["rebase"@, "-r"@, revision@, "-A"@, target@]),
{
    let mut a: Vec<String> = Vec::new();
    push_arg(&mut a, "rebase");
    push_arg(&mut a, "-r");
    push_arg(&mut a, revision);
    push_arg(&mut a, "-A");
    push_arg(&mut a, target);
    jj(repo_path, a)
}

/// `jj absorb <paths>...`.
pub fn absorb(repo_path: &str, paths: &Vec<String>) -> (r: Invocation)
    ensures
        r.is(Tool::Jj, Some(repo_path@), seq!["absorb"@] + strs_view(paths@)),
{
    let mut a: Vec<String> = Vec::new();
    push_arg(&mut a, "absorb");
    push_all(&mut a, paths);
    jj(repo_path, a)
}

// ---------------------------------------------------------------------------
// Bookmarks
// ---------------------------------------------------------------------------

/// `jj log -r bookmarks() --no-graph -T '<local|remote>_bookmarks ++ "\n"'`.
pub fn list_bookmarks(repo_path: &str, remote: bool) -> (r: Invocation)
    ensures
        r.is(
            Tool::Jj,
            Some(repo_path@),
            seq![
                "log"@,
                "-r"@,
                "bookmarks()"@,
                "--no-graph"@,
                "-T"@,
                (if remote {
                    "remote_bookmarks"@
                } else {
                    "local_bookmarks"@
                }) + " ++ \"\\n\""@,
            ],
        ),
{
    let template = if remote {
        "remote_bookmarks"
    } else {
        "local_bookmarks"
    };
    let t = join2(template, " ++ \"\\n\"");
    log_template(repo_path, "bookmarks()", t.as_str())
}

/// A bookmark name worth listing: not empty and not a `@git` tracking bookmark.
pub open spec fn listed_bookmark(name: Seq<char>) -> bool {
    name.len() > 0 && !has_suffix(name, "@git"@)
}

/// The bookmark names of one line of [`list_bookmarks`]'s output: jj prints
/// all the bookmarks of a commit on its line, separated by spaces.
pub open spec fn line_bookmarks(line: Seq<char>) -> Seq<Seq<char>> {
    words(trim(line))
}

/// The bookmarks in the output of [`list_bookmarks`]: its lines, trimmed and
/// split into names, one list, without the empty names and those that end
/// with `@git`.
pub open spec fn listed_bookmarks(output: Seq<char>) -> Seq<Seq<char>> {
    lines_of(output).map_values(|l: Seq<char>| line_bookmarks(l)).flatten().filter(
        |b: Seq<char>| listed_bookmark(b),
    )
}

/// The bookmark names in the output of [`list_bookmarks`] ([`listed_bookmarks`]), one per element.
pub fn parse_bookmarks(output: &str) -> (r: Vec<String>)
    ensures
        strs_view(r@) == listed_bookmarks(output@),
{
    let ls = lines(output);
    let ghost wv = strs_view(ls@).map_values(|l: Seq<char>| line_bookmarks(l));
    let ghost keep = |b: Seq<char>| listed_bookmark(b);
    let mut r: Vec<String> = Vec::new();
    let mut i: usize = 0;
    assert(wv.take(0) =~= Seq::<Seq<Seq<char>>>::empty());
    assert(Seq::<Seq<char>>::empty().filter(keep) =~= Seq::<Seq<char>>::empty()) by {
        reveal_with_fuel(Seq::<_>::filter, 1);
    }
    while i < ls.len()
        invariant
            i <= ls@.len(),
            strs_view(ls@) == lines_of(output@),
            wv == strs_view(ls@).map_values(|l: Seq<char>| line_bookmarks(l)),
            keep == (|b: Seq<char>| listed_bookmark(b)),
            strs_view(r@) == wv.take(i as int).flatten().filter(keep),
        decreases ls.len() - i,
    {
        let t = trim_str(ls[i].as_str());
        let ws = split_whitespace(t.as_str());
        let ghost wsv = strs_view(ws@);
        assert(wsv == wv[i as int]) by {
            assert(strs_view(ls@)[i as int] == ls@[i as int]@);
        }
        let ghost before = strs_view(r@);
        let mut j: usize = 0;
        assert(wsv.take(0).filter(keep) =~= Seq::<Seq<char>>::empty()) by {
            reveal_with_fuel(Seq::<_>::filter, 1);
        }
        while j < ws.len()
            invariant
                j <= ws@.len(),
                wsv == strs_view(ws@),
                keep == (|b: Seq<char>| listed_bookmark(b)),
                strs_view(r@) == before + wsv.take(j as int).filter(keep),
            decreases ws.len() - j,
        {
            assert(wsv.take(j + 1) =~= wsv.take(j as int).push(wsv[j as int]));
            proof {
                wsv.take(j as int).lemma_filter_push(wsv[j as int], keep);
            }
            assert(wsv[j as int] == ws@[j as int]@);
            let ghost mid = strs_view(r@);
            if !ws[j].as_str().is_empty() && !ends_with(ws[j].as_str(), "@git") {
                r.push(ws[j].clone());
                assert(strs_view(r@) =~= mid.push(wsv[j as int]));
            }
            j = j + 1;
        }
        proof {
            assert(wsv.take(wsv.len() as int) =~= wsv);
            assert(wv.take(i + 1) =~= wv.take(i as int).push(wsv));
            wv.take(i as int).lemma_flatten_push(wsv);
            Seq::filter_distributes_over_add(wv.take(i as int).flatten(), wsv, keep);
        }
        i = i + 1;
    }
    assert(wv.take(wv.len() as int) =~= wv);
    r
}

/// Law: the bookmarks listed from the output of [`list_bookmarks`] are never
/// empty and never `@git` tracking bookmarks.
pub proof fn lemma_listed_bookmarks_exclude_git(output: Seq<char>)
    ensures
        forall|i: int|
            0 <= i < listed_bookmarks(output).len() ==> (#[trigger] listed_bookmarks(output)[i]).len() > 0
                && !has_suffix(listed_bookmarks(output)[i], "@git"@),
{
    let all = lines_of(output).map_values(|l: Seq<char>| line_bookmarks(l)).flatten();
    let keep = |b: Seq<char>| listed_bookmark(b);
    assert forall|i: int| 0 <= i < listed_bookmarks(output).len() implies (#[trigger] listed_bookmarks(output)[i]).len() > 0
        && !has_suffix(listed_bookmarks(output)[i], "@git"@) by {
        all.lemma_filter_pred(keep, i);
    }
}

/// The template of [`bookmarks_by_commit`]: commit id, a tab, then the local
/// and the remote bookmarks separated by spaces.
pub open spec fn bookmarks_template() -> Seq<char> {
    "commit_id ++ \"\\t\" ++ local_bookmarks ++ \" \" ++ remote_bookmarks ++ \"\\n\""@
}

/// `jj log -r bookmarks() --no-graph -T <template>`: a line per bookmarked commit.
pub fn bookmarks_by_commit(repo_path: &str) -> (r: Invocation)
    ensures
        r.is(
            Tool::Jj,
            Some(repo_path@),
            seq!["log"@, "-r"@, "bookmarks()"@, "--no-graph"@, "-T"@, bookmarks_template()],
        ),
{
    log_template(
        repo_path,
        "bookmarks()",
        "commit_id ++ \"\\t\" ++ local_bookmarks ++ \" \" ++ remote_bookmarks ++ \"\\n\"",
    )
}

/// Bookmark names by commit id. Each commit id appears once.
pub struct BookmarkMap {
    pub entries: Vec<(String, Vec<String>)>,
}

pub type EntryModel = (Seq<char>, Seq<Seq<char>>);

pub open spec fn entry_model(e: (String, Vec<String>)) -> EntryModel {
    (e.0@, strs_view(e.1@))
}

/// The map that a list of entries with distinct keys stands for.
pub open spec fn entries_map(s: Seq<EntryModel>) -> Map<Seq<char>, Seq<Seq<char>>>
    decreases s.len(),
{
    if s.len() == 0 {
        Map::empty()
    } else {
        entries_map(s.drop_last()).insert(s.last().0, s.last().1)
    }
}

pub open spec fn distinct_keys(s: Seq<EntryModel>) -> bool {
    forall|i: int, j: int| 0 <= i < j < s.len() ==> #[trigger] s[i].0 != #[trigger] s[j].0
}

pub proof fn lemma_entries_map_lookup(s: Seq<EntryModel>, k: Seq<char>)
    requires
        distinct_keys(s),
    ensures
        entries_map(s).contains_key(k) <==> exists|i: int| 0 <= i < s.len() && #[trigger] s[i].0 == k,
        forall|i: int| 0 <= i < s.len() && #[trigger] s[i].0 == k ==> entries_map(s)[k] == s[i].1,
    decreases s.len(),
{
    if s.len() > 0 {
        let t = s.drop_last();
        assert(distinct_keys(t)) by {
            assert forall|i: int, j: int| 0 <= i < j < t.len() implies #[trigger] t[i].0 != #[trigger] t[j].0 by {
                assert(t[i] == s[i] && t[j] == s[j]);
            }
        }
        lemma_entries_map_lookup(t, k);
        if k != s.last().0 {
            assert forall|i: int| 0 <= i < t.len() + 1 && #[trigger] s[i].0 == k implies i < t.len() by {}
            assert((exists|i: int| 0 <= i < s.len() && #[trigger] s[i].0 == k) ==> exists|i: int|
                0 <= i < t.len() && #[trigger] t[i].0 == k) by {
                if exists|i: int| 0 <= i < s.len() && #[trigger] s[i].0 == k {
                    let i = choose|i: int| 0 <= i < s.len() && #[trigger] s[i].0 == k;
                    assert(t[i].0 == k);
                }
            }
            assert forall|i: int| 0 <= i < t.len() && #[trigger] t[i].0 == k implies s[i].0 == k by {
                assert(t[i] == s[i]);
            }
        } else {
            assert(s[s.len() - 1].0 == k);
        }
    }
}

proof fn lemma_entries_map_update(s: Seq<EntryModel>, j: int, v: Seq<Seq<char>>)
    requires
        distinct_keys(s),
        0 <= j < s.len(),
    ensures
        entries_map(s.update(j, (s[j].0, v))) == entries_map(s).insert(s[j].0, v),
        distinct_keys(s.update(j, (s[j].0, v))),
{
    let u = s.update(j, (s[j].0, v));
    assert(distinct_keys(u)) by {
        assert forall|a: int, b: int| 0 <= a < b < u.len() implies #[trigger] u[a].0 != #[trigger] u[b].0 by {
            assert(u[a].0 == s[a].0 && u[b].0 == s[b].0);
        }
    }
    assert forall|k: Seq<char>| #![auto] entries_map(u).contains_key(k) == entries_map(s).insert(s[j].0, v).contains_key(k) by {
        lemma_entries_map_lookup(s, k);
        lemma_entries_map_lookup(u, k);
        if exists|i: int| 0 <= i < s.len() && #[trigger] s[i].0 == k {
            let i = choose|i: int| 0 <= i < s.len() && #[trigger] s[i].0 == k;
            assert(u[i].0 == k);
        }
        if exists|i: int| 0 <= i < u.len() && #[trigger] u[i].0 == k {
            let i = choose|i: int| 0 <= i < u.len() && #[trigger] u[i].0 == k;
            assert(s[i].0 == k);
        }
    }
    assert forall|k: Seq<char>| #![auto] entries_map(u).contains_key(k) implies entries_map(u)[k] == entries_map(s).insert(s[j].0, v)[k] by {
        lemma_entries_map_lookup(s, k);
        lemma_entries_map_lookup(u, k);
        let i = choose|i: int| 0 <= i < u.len() && #[trigger] u[i].0 == k;
        assert(s[i].0 == k);
        if i == j {
            assert(u[i].1 == v);
        } else {
            assert(u[i] == s[i]);
        }
    }
    assert(entries_map(u) =~= entries_map(s).insert(s[j].0, v));
}

impl BookmarkMap {
    pub open spec fn entries_view(&self) -> Seq<EntryModel> {
        self.entries@.map_values(|e: (String, Vec<String>)| entry_model(e))
    }

    /// No commit id appears twice.
    pub open spec fn wf(&self) -> bool {
        distinct_keys(self.entries_view())
    }

    /// Bookmark names by commit id.
    pub open spec fn view(&self) -> Map<Seq<char>, Seq<Seq<char>>> {
        entries_map(self.entries_view())
    }

    /// An empty map.
    pub fn new() -> (r: Self)
        ensures
            r.wf(),
            r.view() == Map::<Seq<char>, Seq<Seq<char>>>::empty(),
    {
        let r = BookmarkMap { entries: Vec::new() };
        assert(r.entries_view() =~= Seq::<EntryModel>::empty());
        r
    }

    fn index_of_key(&self, sha: &str) -> (r: Option<usize>)
        requires
            self.wf(),
        ensures
            r matches Some(j) ==> j < self.entries@.len() && self.entries_view()[j as int].0 == sha@,
            r is None ==> forall|i: int| 0 <= i < self.entries@.len() ==> #[trigger] self.entries_view()[i].0 != sha@,
    {
        let mut i: usize = 0;
        while i < self.entries.len()
            invariant
                i <= self.entries@.len(),
                forall|k: int| 0 <= k < i ==> #[trigger] self.entries_view()[k].0 != sha@,
            decreases self.entries.len() - i,
        {
            if str_eq(self.entries[i].0.as_str(), sha) {
                return Some(i);
            }
            i = i + 1;
        }
        None
    }

    /// The bookmark names of `sha`, if it has any entry.
    pub fn get(&self, sha: &str) -> (r: Option<&Vec<String>>)
        requires
            self.wf(),
        ensures
            r is Some <==> self.view().contains_key(sha@),
            r matches Some(v) ==> strs_view(v@) == self.view()[sha@],
    {
        proof {
            lemma_entries_map_lookup(self.entries_view(), sha@);
        }
        match self.index_of_key(sha) {
            Some(j) => Some(&self.entries[j].1),
            None => None,
        }
    }

    /// Whether commit `sha` carries the bookmark `name`.
    pub fn has_bookmark(&self, sha: &str, name: &str) -> (r: bool)
        requires
            self.wf(),
        ensures
            r == (self.view().contains_key(sha@) && self.view()[sha@].contains(name@)),
    {
        match self.get(sha) {
            Some(v) => crate::git_utils::contains_string(v, name),
            None => false,
        }
    }

    /// Whether some commit carries the bookmark `name`.
    pub fn any_has_bookmark(&self, name: &str) -> (r: bool)
        requires
            self.wf(),
        ensures
            r == exists|k: Seq<char>| self.view().contains_key(k) && #[trigger] self.view()[k].contains(name@),
    {
        let ghost s = self.entries_view();
        let mut j: usize = 0;
        while j < self.entries.len()
            invariant
                j <= self.entries@.len(),
                s == self.entries_view(),
                self.wf(),
                forall|k: int| 0 <= k < j ==> !(#[trigger] s[k]).1.contains(name@),
            decreases self.entries.len() - j,
        {
            assert(s[j as int] == entry_model(self.entries@[j as int]));
            if crate::git_utils::contains_string(&self.entries[j].1, name) {
                proof {
                    lemma_entries_map_lookup(s, s[j as int].0);
                    assert(self.view()[s[j as int].0] == s[j as int].1);
                }
                return true;
            }
            j = j + 1;
        }
        assert forall|k: Seq<char>| self.view().contains_key(k) implies !#[trigger] self.view()[k].contains(name@) by {
            lemma_entries_map_lookup(s, k);
            let i = choose|i: int| 0 <= i < s.len() && #[trigger] s[i].0 == k;
            assert(self.view()[k] == s[i].1);
        }
        false
    }

    /// Adds `names` to those of `sha` (after any it already has).
    pub fn extend(&mut self, sha: &str, names: Vec<String>)
        requires
            old(self).wf(),
        ensures
            final(self).wf(),
            final(self).view() == old(self).view().insert(
                sha@,
                if old(self).view().contains_key(sha@) {
                    old(self).view()[sha@] + strs_view(names@)
                } else {
                    strs_view(names@)
                },
            ),
    {
        let ghost s = self.entries_view();
        proof {
            lemma_entries_map_lookup(s, sha@);
        }
        match self.index_of_key(sha) {
            Some(j) => {
                let (key, mut old_names) = self.entries.remove(j);
                let ghost removed = old_names@;
                push_all(&mut old_names, &names);
                self.entries.insert(j, (key, old_names));
                assert(self.entries_view() =~= s.update(j as int, (s[j as int].0, strs_view(removed) + strs_view(names@))));
                proof {
                    lemma_entries_map_update(s, j as int, strs_view(removed) + strs_view(names@));
                }
            },
            None => {
                self.entries.push((owned(sha), names));
                let ghost u = self.entries_view();
                assert(u =~= s.push((sha@, strs_view(names@))));
                assert(u.drop_last() =~= s);
                assert(distinct_keys(u)) by {
                    assert forall|a: int, b: int| 0 <= a < b < u.len() implies #[trigger] u[a].0 != #[trigger] u[b].0 by {
                        if b == u.len() - 1 {
                            assert(u[a] == s[a]);
                        } else {
                            assert(u[a] == s[a] && u[b] == s[b]);
                        }
                    }
                }
            },
        }
    }
}

/// The bookmark names a line of [`bookmarks_by_commit`]'s output gives: the
/// words after the first tab (none without a tab), without `@git` ones.
pub open spec fn line_names(line: Seq<char>) -> Seq<Seq<char>> {
    let i = index_of(line, '\t');
    let rest = if i < line.len() {
        line.skip(i + 1int)
    } else {
        Seq::<char>::empty()
    };
    words(rest).filter(|w: Seq<char>| listed_bookmark(w))
}

/// The commit id a line of [`bookmarks_by_commit`]'s output is about: what precedes its first tab.
pub open spec fn line_commit(line: Seq<char>) -> Seq<char> {
    line.take(index_of(line, '\t') as int)
}

/// The map read from trimmed lines `ls`, on top of `m`: each non-empty line
/// adds its names, if it has any, to its commit.
pub open spec fn read_bookmarks(ls: Seq<Seq<char>>, m: Map<Seq<char>, Seq<Seq<char>>>) -> Map<
    Seq<char>,
    Seq<Seq<char>>,
>
    decreases ls.len(),
{
    if ls.len() == 0 {
        m
    } else {
        let l = ls[0];
        let m2 = if l.len() > 0 && line_names(l).len() > 0 {
            m.insert(
                line_commit(l),
                if m.contains_key(line_commit(l)) {
                    m[line_commit(l)] + line_names(l)
                } else {
                    line_names(l)
                },
            )
        } else {
            m
        };
        read_bookmarks(ls.drop_first(), m2)
    }
}

/// Every name that `m` gives a commit is worth listing.
pub open spec fn names_listed(m: Map<Seq<char>, Seq<Seq<char>>>) -> bool {
    forall|k: Seq<char>, j: int|
        m.contains_key(k) && 0 <= j < m[k].len() ==> listed_bookmark(#[trigger] m[k][j])
}

proof fn lemma_read_bookmarks_listed(ls: Seq<Seq<char>>, m: Map<Seq<char>, Seq<Seq<char>>>)
    requires
        names_listed(m),
    ensures
        names_listed(read_bookmarks(ls, m)),
    decreases ls.len(),
{
    if ls.len() > 0 {
        let l = ls[0];
        let names = line_names(l);
        let i = index_of(l, '\t');
        let rest = if i < l.len() {
            l.skip(i + 1int)
        } else {
            Seq::<char>::empty()
        };
        let keep = |w: Seq<char>| listed_bookmark(w);
        assert forall|j: int| 0 <= j < names.len() implies listed_bookmark(#[trigger] names[j]) by {
            words(rest).lemma_filter_pred(keep, j);
        }
        if l.len() > 0 && names.len() > 0 {
            let k0 = line_commit(l);
            let v = if m.contains_key(k0) {
                m[k0] + names
            } else {
                names
            };
            let m2 = m.insert(k0, v);
            assert forall|k: Seq<char>, j: int| m2.contains_key(k) && 0 <= j < m2[k].len() implies listed_bookmark(
                #[trigger] m2[k][j],
            ) by {
                if k == k0 && m.contains_key(k0) && j >= m[k0].len() {
                    assert(m2[k][j] == names[j - m[k0].len()]);
                }
            }
            lemma_read_bookmarks_listed(ls.drop_first(), m2);
        } else {
            lemma_read_bookmarks_listed(ls.drop_first(), m);
        }
    }
}

/// Law: the bookmark map read from the output of [`bookmarks_by_commit`]
/// holds no empty name and no `@git` tracking bookmark.
pub proof fn lemma_bookmark_map_excludes_git(output: Seq<char>)
    ensures
        names_listed(read_bookmarks(lines_of(output).map_values(|l: Seq<char>| trim(l)), Map::empty())),
{
    lemma_read_bookmarks_listed(lines_of(output).map_values(|l: Seq<char>| trim(l)), Map::empty());
}

/// The bookmarks of each commit listed in the output of [`bookmarks_by_commit`].
pub fn parse_bookmarks_by_commit(output: &str) -> (r: BookmarkMap)
    ensures
        r.wf(),
        r.view() == read_bookmarks(
            lines_of(output@).map_values(|l: Seq<char>| trim(l)),
            Map::empty(),
        ),
{
    let ls = lines(output);
    let ghost tv = strs_view(ls@).map_values(|l: Seq<char>| trim(l));
    let mut map = BookmarkMap::new();
    let mut i: usize = 0;
    assert(tv.skip(0) =~= tv);
    while i < ls.len()
        invariant
            i <= ls@.len(),
            strs_view(ls@) == lines_of(output@),
            tv == strs_view(ls@).map_values(|l: Seq<char>| trim(l)),
            map.wf(),
            read_bookmarks(tv.skip(i as int), map.view()) == read_bookmarks(tv, Map::empty()),
        decreases ls.len() - i,
    {
        let line = trim_str(ls[i].as_str());
        assert(line@ == tv[i as int]);
        assert(tv.skip(i as int)[0] == tv[i as int]);
        assert(tv.skip(i as int).drop_first() =~= tv.skip(i + 1));
        if !line.as_str().is_empty() {
            let v = chars_of(line.as_str());
            let tab = find_char(v.as_slice(), 0, '\t');
            proof {
                lemma_index_of(v@, '\t', tab as int);
            }
            let sha = string_of_range(v.as_slice(), 0, tab);
            assert(sha@ =~= line_commit(line@));
            let rest = if tab < v.len() {
                string_of_range(v.as_slice(), tab + 1, v.len())
            } else {
                String::new()
            };
            assert(rest@ =~= if tab < v@.len() { line@.skip(tab + 1int) } else { Seq::<char>::empty() });
            let ws = split_whitespace(rest.as_str());
            let names = keep_listed(&ws);
            if names.len() > 0 {
                map.extend(sha.as_str(), names);
            }
        }
        i = i + 1;
    }
    assert(tv.skip(i as int) =~= Seq::<Seq<char>>::empty());
    map
}

/// The names of `ws` worth listing, in order.
fn keep_listed(ws: &Vec<String>) -> (r: Vec<String>)
    ensures
        strs_view(r@) == strs_view(ws@).filter(|w: Seq<char>| listed_bookmark(w)),
{
    let ghost wv = strs_view(ws@);
    let mut r: Vec<String> = Vec::new();
    let mut i: usize = 0;
    while i < ws.len()
        invariant
            i <= ws@.len(),
            wv == strs_view(ws@),
            strs_view(r@) == wv.take(i as int).filter(|w: Seq<char>| listed_bookmark(w)),
        decreases ws.len() - i,
    {
        proof {
            reveal_with_fuel(Seq::<_>::filter, 1);
        }
        assert(wv.take(i + 1).drop_last() =~= wv.take(i as int));
        let ghost before = strs_view(r@);
        assert(wv[i as int] == ws@[i as int]@);
        if !ws[i].as_str().is_empty() && !ends_with(ws[i].as_str(), "@git") {
            r.push(ws[i].clone());
            assert(strs_view(r@) =~= before.push(wv[i as int]));
        }
        i = i + 1;
    }
    assert(wv.take(wv.len() as int) =~= wv);
    r
}

/// `jj log -r <bookmark> --no-graph -T change_id`: prints the bookmark's change id.
pub fn bookmark_to_change_id(repo_path: &str, bookmark: &str) -> (r: Invocation)
    ensures
        r.is(Tool::Jj, Some(repo_path@), seq!["log"@, "-r"@, bookmark@, "--no-graph"@, "-T"@, "change_id"@]),
{
    log_template(repo_path, bookmark, "change_id")
}

/// `jj git push --bookmark <bookmark> --remote <remote>`.
pub fn git_push_bookmark(repo_path: &str, bookmark: &str, remote: &str) -> (r: Invocation)
    ensures
        r.is(
            Tool::Jj,
            Some(repo_path@),
            seq!["git"@, "push"@, "--bookmark"@, bookmark@, "--remote"@, remote@],
        ),
{
    let mut a: Vec<String> = Vec::new();
    push_arg(&mut a, "git");
    push_arg(&mut a, "push");
    push_arg(&mut a, "--bookmark");
    push_arg(&mut a, bookmark);
    push_arg(&mut a, "--remote");
    push_arg(&mut a, remote);
    jj(repo_path, a)
}

// ---------------------------------------------------------------------------
// Emptiness and descendants
// ---------------------------------------------------------------------------

/// `jj log -r <rev> --no-graph -T 'if(self.empty(), "empty", "not empty")'`.
pub fn is_empty_commit(repo_path: &str, rev: &str) -> (r: Invocation)
    ensures
        r.is(
            Tool::Jj,
            Some(repo_path@),
            seq!["log"@, "-r"@, rev@, "--no-graph"@, "-T"@, "if(self.empty(), \"empty\", \"not empty\")"@],
        ),
{
    log_template(repo_path, rev, "if(self.empty(), \"empty\", \"not empty\")")
}

/// Whether the output of [`is_empty_commit`] says the commit is empty: it
/// reads `empty`, surrounding whitespace aside.
pub fn parse_is_empty(output: &str) -> (r: bool)
    ensures
        r == (trim(output@) == "empty"@),
{
    let t = trim_str(output);
    str_eq(t.as_str(), "empty")
}

/// The template of [`descendants_of`]: commit id, change id and first line of
/// the description, separated by `'\u{1f}'`.
pub open spec fn descendants_template() -> Seq<char> {
    "commit_id ++ \"\\x1f\" ++ change_id ++ \"\\x1f\" ++ description.first_line() ++ \"\\n\""@
}

/// `jj log -r <rev>:: --no-graph -T <template>`: `rev` and its descendants.
/// The caller also learns the commit id of `rev` ([`commit_id_of`]) to leave it out.
pub fn descendants_of(repo_path: &str, rev: &str) -> (r: Invocation)
    ensures
        r.is(
            Tool::Jj,
            Some(repo_path@),
            seq!["log"@, "-r"@, rev@ + "::"@, "--no-graph"@, "-T"@, descendants_template()],
        ),
{
    let revset = join2(rev, "::");
    log_template(
        repo_path,
        revset.as_str(),
        "commit_id ++ \"\\x1f\" ++ change_id ++ \"\\x1f\" ++ description.first_line() ++ \"\\n\"",
    )
}

/// The commit a line of [`descendants_of`]'s output describes.
pub open spec fn descendant_record(line: Seq<char>) -> CommitRecord {
    let f = splitn_seq(line, '\u{1f}', 3);
    CommitRecord {
        commit_id: part_or_empty(f, 0),
        change_id: part_or_empty(f, 1),
        description: part_or_empty(f, 2),
        author: Seq::<char>::empty(),
        timestamp: Seq::<char>::empty(),
        changed_files: seq![],
    }
}

/// The descendants listed in the output of [`descendants_of`]: one per
/// non-blank trimmed line, except the commit `rev_sha` itself.
pub open spec fn descendants_in(output: Seq<char>, rev_sha: Seq<char>) -> Seq<CommitRecord> {
    nonblank_trimmed(output).map_values(|l: Seq<char>| descendant_record(l)).filter(
        |c: CommitRecord| c.commit_id != rev_sha,
    )
}

/// The descendants of a revision whose commit id is `rev_sha`, from the output
/// of [`descendants_of`].
pub fn parse_descendants(output: &str, rev_sha: &str) -> (r: Vec<CommitInfo>)
    ensures
        r@.map_values(|c: CommitInfo| c.model()) == descendants_in(output@, rev_sha@),
{
    let ls = parse_commit_ids(output);
    let ghost dv = strs_view(ls@).map_values(|l: Seq<char>| descendant_record(l));
    let mut r: Vec<CommitInfo> = Vec::new();
    let mut i: usize = 0;
    while i < ls.len()
        invariant
            i <= ls@.len(),
            strs_view(ls@) == nonblank_trimmed(output@),
            dv == strs_view(ls@).map_values(|l: Seq<char>| descendant_record(l)),
            r@.map_values(|c: CommitInfo| c.model()) == dv.take(i as int).filter(
                |c: CommitRecord| c.commit_id != rev_sha@,
            ),
        decreases ls.len() - i,
    {
        proof {
            reveal_with_fuel(Seq::<_>::filter, 1);
        }
        assert(dv.take(i + 1).drop_last() =~= dv.take(i as int));
        let fields = splitn(ls[i].as_str(), 3, '\u{1f}');
        let commit_id = part3(&fields, 0);
        let change_id = part3(&fields, 1);
        let description = part3(&fields, 2);
        let c = CommitInfo {
            change_id,
            commit_id,
            description,
            author: String::new(),
            timestamp: String::new(),
            changed_files: Vec::new(),
        };
        assert(c.model() =~= dv[i as int]) by {
            assert(strs_view(ls@)[i as int] == ls@[i as int]@);
            assert(c.model().changed_files =~= Seq::<Seq<char>>::empty());
        }
        let ghost before = r@.map_values(|c: CommitInfo| c.model());
        if !str_eq(c.commit_id.as_str(), rev_sha) {
            r.push(c);
            assert(r@.map_values(|c: CommitInfo| c.model()) =~= before.push(dv[i as int]));
        }
        i = i + 1;
    }
    assert(dv.take(dv.len() as int) =~= dv);
    r
}

/// Law: the descendants of a revision never include the revision itself.
pub proof fn lemma_descendants_exclude_start(output: Seq<char>, rev_sha: Seq<char>)
    ensures
        forall|i: int|
            0 <= i < descendants_in(output, rev_sha).len() ==> (#[trigger] descendants_in(
                output,
                rev_sha,
            )[i]).commit_id != rev_sha,
{
    let all = nonblank_trimmed(output).map_values(|l: Seq<char>| descendant_record(l));
    let keep = |c: CommitRecord| c.commit_id != rev_sha;
    assert forall|i: int| 0 <= i < descendants_in(output, rev_sha).len() implies (#[trigger] descendants_in(
        output,
        rev_sha,
    )[i]).commit_id != rev_sha by {
        all.lemma_filter_pred(keep, i);
    }
}

fn part3(parts: &Vec<String>, k: usize) -> (r: String)
    ensures
        r@ == part_or_empty(strs_view(parts@), k as int),
{
    if k < parts.len() {
        parts[k].clone()
    } else {
        String::new()
    }
}

} // verus!
