//! The text that the `stacks` and `advance` subcommands print: each line is
//! built here from the values that the commands read from git and jj.
use vstd::prelude::*;
use crate::invocation::strs_view;
use crate::stacks::StackInfo;
use crate::jujutsu::BookmarkMap;
use crate::git_utils::CommitInfo;
use crate::cli::{short_id, AdvanceAction, ActionModel};
use crate::text::{trim, lines_of, lines, trim_str, has_prefix, chars_within};

verus! {

/// Terminal colours of the listing.
pub const RESET: &'static str = "\x1b[0m";

pub const RED: &'static str = "\x1b[31m";

pub const CYAN: &'static str = "\x1b[36m";

pub const GREEN: &'static str = "\x1b[32m";

pub const YELLOW: &'static str = "\x1b[33m";

pub const MAGENTA: &'static str = "\x1b[35m";

pub const DIM: &'static str = "\x1b[2m";

/// The first eight bytes of an id (all of it when shorter), as whole characters.
pub open spec fn short(id: Seq<char>) -> Seq<char> {
    id.take(chars_within(id, 8) as int)
}

/// `s` with `t` appended.
fn push_str(s: &mut String, t: &str)
    ensures
        final(s)@ == old(s)@ + t@,
{
    s.append(t);
}

/// One labelled commit of a stack header: `<color><word>: <short id> - <subject><reset>`.
pub open spec fn labelled(color: Seq<char>, word: Seq<char>, change_id: Seq<char>, subject: Seq<char>) -> Seq<char> {
    color + word + ": "@ + short(change_id) + " - "@ + subject + RESET@
}

fn push_labelled(s: &mut String, color: &str, word: &str, change_id: &str, subject: &str)
    ensures
        final(s)@ == old(s)@ + labelled(color@, word@, change_id@, subject@),
{
    let ghost s0 = s@;
    push_str(s, color);
    push_str(s, word);
    push_str(s, ": ");
    let c = short_id(change_id);
    push_str(s, c.as_str());
    push_str(s, " - ");
    push_str(s, subject);
    push_str(s, RESET);
    assert(s@ =~= s0 + labelled(color@, word@, change_id@, subject@));
}

/// The header line of the trunk stack; `behind` names the remote trunk when
/// the stack's head is behind it.
pub open spec fn trunk_line_spec(name: Seq<char>, head_change_id: Seq<char>, head_subject: Seq<char>, behind: Option<Seq<char>>) -> Seq<char> {
    CYAN@ + name + RESET@ + " ("@ + labelled(GREEN@, "head"@, head_change_id, head_subject) + ")"@
        + match behind {
        Some(r) => " "@ + RED@ + "(trunk is behind "@ + r + ")"@ + RESET@,
        None => seq![],
    }
}

/// The header line of the trunk stack, as `stacks` prints it.
pub fn trunk_line(name: &str, head_change_id: &str, head_subject: &str, behind: Option<&str>) -> (r: String)
    ensures
        r@ == trunk_line_spec(
            name@,
            head_change_id@,
            head_subject@,
            match behind {
                Some(b) => Some(b@),
                None => None,
            },
        ),
{
    let mut s = String::new();
    push_str(&mut s, CYAN);
    push_str(&mut s, name);
    push_str(&mut s, RESET);
    push_str(&mut s, " (");
    push_labelled(&mut s, GREEN, "head", head_change_id, head_subject);
    push_str(&mut s, ")");
    let ghost s1 = s@;
    match behind {
        Some(b) => {
            push_str(&mut s, " ");
            push_str(&mut s, RED);
            push_str(&mut s, "(trunk is behind ");
            push_str(&mut s, b);
            push_str(&mut s, ")");
            push_str(&mut s, RESET);
            assert(s@ =~= s1 + (" "@ + RED@ + "(trunk is behind "@ + b@ + ")"@ + RESET@));
        },
        None => {
            assert(s@ =~= s1 + Seq::<char>::empty());
        },
    }
    s
}

/// The header line of any other stack: its head and base commits, its root
/// commit when one is given, and whether it needs a rebase.
pub open spec fn stack_line_spec(
    name: Seq<char>,
    head: (Seq<char>, Seq<char>),
    base: (Seq<char>, Seq<char>),
    root: Option<(Seq<char>, Seq<char>)>,
    needs_rebase: bool,
) -> Seq<char> {
    CYAN@ + name + RESET@ + " ("@ + labelled(GREEN@, "head"@, head.0, head.1) + ", "@ + labelled(
        YELLOW@,
        "base"@,
        base.0,
        base.1,
    ) + match root {
        Some(rt) => ", "@ + labelled(MAGENTA@, "root"@, rt.0, rt.1),
        None => seq![],
    } + ")"@ + if needs_rebase {
        " "@ + RED@ + "(needs rebase)"@ + RESET@
    } else {
        seq![]
    }
}

/// A commit named in a header: its change id and its subject.
pub struct Label {
    pub change_id: String,
    pub subject: String,
}

impl Label {
    pub open spec fn view(&self) -> (Seq<char>, Seq<char>) {
        (self.change_id@, self.subject@)
    }
}

/// The header line of a stack other than trunk, as `stacks` prints it;
/// `root` is given in verbose mode, for a stack with commits.
pub fn stack_line(name: &str, head: &Label, base: &Label, root: Option<&Label>, needs_rebase: bool) -> (r: String)
    ensures
        r@ == stack_line_spec(
            name@,
            head.view(),
            base.view(),
            match root {
                Some(l) => Some(l.view()),
                None => None,
            },
            needs_rebase,
        ),
{
    let mut s = String::new();
    push_str(&mut s, CYAN);
    push_str(&mut s, name);
    push_str(&mut s, RESET);
    push_str(&mut s, " (");
    push_labelled(&mut s, GREEN, "head", head.change_id.as_str(), head.subject.as_str());
    push_str(&mut s, ", ");
    push_labelled(&mut s, YELLOW, "base", base.change_id.as_str(), base.subject.as_str());
    let ghost s1 = s@;
    let ghost rv = match root {
        Some(l) => Some(l.view()),
        None => None,
    };
    match root {
        Some(l) => {
            push_str(&mut s, ", ");
            push_labelled(&mut s, MAGENTA, "root", l.change_id.as_str(), l.subject.as_str());
        },
        None => {},
    }
    let ghost rt: Seq<char> = match rv {
        Some(x) => ", "@ + labelled(MAGENTA@, "root"@, x.0, x.1),
        None => seq![],
    };
    assert(s@ =~= s1 + rt);
    push_str(&mut s, ")");
    let ghost s2 = s@;
    if needs_rebase {
        push_str(&mut s, " ");
        push_str(&mut s, RED);
        push_str(&mut s, "(needs rebase)");
        push_str(&mut s, RESET);
        assert(s@ =~= s2 + (" "@ + RED@ + "(needs rebase)"@ + RESET@));
    } else {
        assert(s@ =~= s2 + Seq::<char>::empty());
    }
    s
}

/// A bookmark name in a commit line: plain on the stack's head commit, red
/// elsewhere (a bookmark that lags behind its stack).
pub open spec fn tinted(name: Seq<char>, is_head: bool) -> Seq<char> {
    if is_head {
        name
    } else {
        RESET@ + RED@ + name + RESET@ + DIM@
    }
}

/// The bookmark names, tinted, separated by `", "`.
pub open spec fn joined_names(names: Seq<Seq<char>>, is_head: bool) -> Seq<char>
    decreases names.len(),
{
    if names.len() == 0 {
        seq![]
    } else if names.len() == 1 {
        tinted(names[0], is_head)
    } else {
        joined_names(names.drop_last(), is_head) + ", "@ + tinted(names.last(), is_head)
    }
}

/// What follows a commit line for the bookmarks on the commit, if it has any entry.
pub open spec fn bookmark_suffix(names: Option<Seq<Seq<char>>>, is_head: bool) -> Seq<char> {
    match names {
        Some(ns) => " "@ + DIM@ + "["@ + joined_names(ns, is_head) + "]"@ + RESET@,
        None => seq![],
    }
}

/// What follows a commit line for an empty commit.
pub open spec fn empty_suffix(is_empty: bool) -> Seq<char> {
    if is_empty {
        " "@ + RED@ + "(empty)"@ + RESET@
    } else {
        seq![]
    }
}

/// The line of one commit: short change id and commit id, description,
/// bookmarks and the empty marker.
pub open spec fn commit_line_spec(
    change_id: Seq<char>,
    commit_id: Seq<char>,
    description: Seq<char>,
    names: Option<Seq<Seq<char>>>,
    is_head: bool,
    is_empty: bool,
) -> Seq<char> {
    "  "@ + DIM@ + short(change_id) + " / "@ + short(commit_id) + RESET@ + " "@ + description
        + bookmark_suffix(names, is_head) + empty_suffix(is_empty)
}

fn push_joined_names(s: &mut String, names: &Vec<String>, is_head: bool)
    ensures
        final(s)@ == old(s)@ + joined_names(strs_view(names@), is_head),
{
    let ghost s0 = s@;
    let ghost nv = strs_view(names@);
    let mut i: usize = 0;
    assert(nv.take(0) =~= Seq::<Seq<char>>::empty());
    while i < names.len()
        invariant
            i <= names@.len(),
            nv == strs_view(names@),
            s@ == s0 + joined_names(nv.take(i as int), is_head),
        decreases names.len() - i,
    {
        let ghost before = s@;
        let ghost t = nv.take(i + 1);
        assert(t.drop_last() =~= nv.take(i as int));
        assert(t.last() == names@[i as int]@);
        if i > 0 {
            push_str(s, ", ");
        }
        if is_head {
            push_str(s, names[i].as_str());
        } else {
            push_str(s, RESET);
            push_str(s, RED);
            push_str(s, names[i].as_str());
            push_str(s, RESET);
            push_str(s, DIM);
        }
        if i == 0 {
            assert(t.len() == 1);
            assert(s@ =~= before + tinted(t[0], is_head));
            assert(joined_names(nv.take(0), is_head) =~= Seq::<char>::empty());
        } else {
            assert(s@ =~= before + ", "@ + tinted(t.last(), is_head));
        }
        assert(s@ =~= s0 + joined_names(t, is_head));
        i = i + 1;
    }
    assert(nv.take(nv.len() as int) =~= nv);
}

/// The line of one commit, as `stacks` prints it under its stack (and, with
/// no bookmarks, under "Unstacked").
pub fn commit_line(
    change_id: &str,
    commit_id: &str,
    description: &str,
    bookmarks: Option<&Vec<String>>,
    is_head: bool,
    is_empty: bool,
) -> (r: String)
    ensures
        r@ == commit_line_spec(
            change_id@,
            commit_id@,
            description@,
            match bookmarks {
                Some(v) => Some(strs_view(v@)),
                None => None,
            },
            is_head,
            is_empty,
        ),
{
    let mut s = String::new();
    push_str(&mut s, "  ");
    push_str(&mut s, DIM);
    let c = short_id(change_id);
    push_str(&mut s, c.as_str());
    push_str(&mut s, " / ");
    let k = short_id(commit_id);
    push_str(&mut s, k.as_str());
    push_str(&mut s, RESET);
    push_str(&mut s, " ");
    push_str(&mut s, description);
    let ghost s1 = s@;
    let ghost nv = match bookmarks {
        Some(v) => Some(strs_view(v@)),
        None => None,
    };
    match bookmarks {
        Some(v) => {
            push_str(&mut s, " ");
            push_str(&mut s, DIM);
            push_str(&mut s, "[");
            push_joined_names(&mut s, v, is_head);
            push_str(&mut s, "]");
            push_str(&mut s, RESET);
        },
        None => {},
    }
    assert(s@ =~= s1 + bookmark_suffix(nv, is_head));
    let ghost s2 = s@;
    if is_empty {
        push_str(&mut s, " ");
        push_str(&mut s, RED);
        push_str(&mut s, "(empty)");
        push_str(&mut s, RESET);
    }
    assert(s@ =~= s2 + empty_suffix(is_empty));
    s
}

/// The bookmarks on commit `sha` in `m`, when `m` has an entry for it.
pub open spec fn bookmarks_on(m: Map<Seq<char>, Seq<Seq<char>>>, sha: Seq<char>) -> Option<Seq<Seq<char>>> {
    if m.contains_key(sha) {
        Some(m[sha])
    } else {
        None
    }
}

/// The lines of the commits of `stack`, newest first: each with the
/// bookmarks that `map` gives its commit id (tinted unless the commit is the
/// stack's head) and the empty marker when `empty` says so.
pub fn stack_commit_lines(stack: &StackInfo, map: &BookmarkMap, empty: &Vec<bool>) -> (r: Vec<String>)
    requires
        map.wf(),
        empty@.len() == stack.commits@.len(),
    ensures
        r@.len() == stack.commits@.len(),
        forall|i: int|
            0 <= i < r@.len() ==> {
                let c = stack.commits@[i];
                #[trigger] r@[i]@ == commit_line_spec(
                    c.change_id@,
                    c.commit_id@,
                    c.description@,
                    bookmarks_on(map.view(), c.commit_id@),
                    c.commit_id@ == stack.commits@[0].commit_id@,
                    empty@[i],
                )
            },
{
    let mut r: Vec<String> = Vec::new();
    let mut i: usize = 0;
    while i < stack.commits.len()
        invariant
            i <= stack.commits@.len(),
            map.wf(),
            empty@.len() == stack.commits@.len(),
            r@.len() == i,
            forall|j: int|
                0 <= j < i ==> {
                    let c = stack.commits@[j];
                    #[trigger] r@[j]@ == commit_line_spec(
                        c.change_id@,
                        c.commit_id@,
                        c.description@,
                        bookmarks_on(map.view(), c.commit_id@),
                        c.commit_id@ == stack.commits@[0].commit_id@,
                        empty@[j],
                    )
                },
        decreases stack.commits.len() - i,
    {
        let c = &stack.commits[i];
        let is_head = crate::text::str_eq(c.commit_id.as_str(), stack.commits[0].commit_id.as_str());
        let names = map.get(c.commit_id.as_str());
        let line = commit_line(
            c.change_id.as_str(),
            c.commit_id.as_str(),
            c.description.as_str(),
            names,
            is_head,
            empty[i],
        );
        r.push(line);
        i = i + 1;
    }
    r
}

/// The line of a file changed by an unstacked commit.
pub open spec fn file_line(file: Seq<char>) -> Seq<char> {
    "    "@ + GREEN@ + file + RESET@
}

/// The lines listing the files named in the output of
/// `git diff-tree --name-only`: each line trimmed, the empty ones left out.
pub fn file_lines(output: &str) -> (r: Vec<String>)
    ensures
        strs_view(r@) == lines_of(output@).map_values(|l: Seq<char>| trim(l)).filter(
            |l: Seq<char>| l.len() > 0,
        ).map_values(|f: Seq<char>| file_line(f)),
{
    let ls = lines(output);
    let ghost tv = strs_view(ls@).map_values(|l: Seq<char>| trim(l));
    let mut r: Vec<String> = Vec::new();
    let mut i: usize = 0;
    while i < ls.len()
        invariant
            i <= ls@.len(),
            strs_view(ls@) == lines_of(output@),
            tv == strs_view(ls@).map_values(|l: Seq<char>| trim(l)),
            strs_view(r@) == tv.take(i as int).filter(|l: Seq<char>| l.len() > 0).map_values(
                |f: Seq<char>| file_line(f),
            ),
        decreases ls.len() - i,
    {
        proof {
            reveal_with_fuel(Seq::<_>::filter, 1);
        }
        assert(tv.take(i + 1).drop_last() =~= tv.take(i as int));
        let t = trim_str(ls[i].as_str());
        assert(t@ == tv[i as int]);
        let ghost before = strs_view(r@);
        let ghost fb = tv.take(i as int).filter(|l: Seq<char>| l.len() > 0);
        if !t.as_str().is_empty() {
            let mut line = String::new();
            push_str(&mut line, "    ");
            push_str(&mut line, GREEN);
            push_str(&mut line, t.as_str());
            push_str(&mut line, RESET);
            assert(line@ =~= file_line(t@));
            r.push(line);
            assert(tv.take(i + 1).filter(|l: Seq<char>| l.len() > 0) =~= fb.push(t@));
            assert(fb.push(t@).map_values(|f: Seq<char>| file_line(f)) =~= fb.map_values(
                |f: Seq<char>| file_line(f),
            ).push(file_line(t@)));
            assert(strs_view(r@) =~= before.push(file_line(t@)));
        } else {
            assert(tv.take(i + 1).filter(|l: Seq<char>| l.len() > 0) =~= fb);
        }
        i = i + 1;
    }
    assert(tv.take(tv.len() as int) =~= tv);
    r
}

/// The header above the commits that sit on the merge commit.
pub open spec fn unstacked_header_spec() -> Seq<char> {
    CYAN@ + "Unstacked"@ + RESET@
}

pub fn unstacked_header() -> (r: String)
    ensures
        r@ == unstacked_header_spec(),
{
    let mut s = String::new();
    push_str(&mut s, CYAN);
    push_str(&mut s, "Unstacked");
    push_str(&mut s, RESET);
    s
}

/// The hint below the unstacked commits: the short change id of the only
/// one, or a placeholder when there are several.
pub fn move_hint(unstacked: &Vec<CommitInfo>) -> (r: String)
    ensures
        r@ == "Move commits with: gg move -r "@ + (if unstacked@.len() == 1 {
            short(unstacked@[0].change_id@)
        } else {
            "<sha1>"@
        }) + " <stack_commit>"@,
{
    let mut s = String::new();
    push_str(&mut s, "Move commits with: gg move -r ");
    if unstacked.len() == 1 {
        let c = short_id(unstacked[0].change_id.as_str());
        push_str(&mut s, c.as_str());
    } else {
        push_str(&mut s, "<sha1>");
    }
    push_str(&mut s, " <stack_commit>");
    s
}

/// The closing hint when a stack or trunk is behind the remote trunk.
pub const REBASE_HINT: &'static str = "Rebase your stacks with \"gg rebase\"";

/// The lines that close the listing, given for each stack (trunk included)
/// whether it is behind the remote trunk: an empty line and [`REBASE_HINT`]
/// when any is, else none.
pub fn closing_lines(behind: &Vec<bool>) -> (r: Vec<String>)
    ensures
        behind@.contains(true) ==> strs_view(r@) == seq![Seq::<char>::empty(), REBASE_HINT@],
        !behind@.contains(true) ==> r@.len() == 0,
{
    let mut any = false;
    let mut i: usize = 0;
    while i < behind.len()
        invariant
            i <= behind@.len(),
            any == exists|k: int| 0 <= k < i && #[trigger] behind@[k],
        decreases behind.len() - i,
    {
        if behind[i] {
            any = true;
        }
        i = i + 1;
    }
    assert(any == behind@.contains(true)) by {
        if any {
            let k = choose|k: int| 0 <= k < i && #[trigger] behind@[k];
            assert(behind@[k] == true);
        }
    }
    let mut r: Vec<String> = Vec::new();
    if any {
        r.push(String::new());
        r.push(crate::text::owned(REBASE_HINT));
        assert(strs_view(r@) =~= seq![Seq::<char>::empty(), REBASE_HINT@]);
    }
    r
}

/// The lines that `advance` prints for one action; `head_change_id` is the
/// change id of the head commit of the action's stack. A dry run prints the
/// command it would run before the report, and marks both lines.
pub open spec fn action_lines_spec(a: ActionModel, head_change_id: Seq<char>, dry: bool) -> Seq<Seq<char>> {
    let p: Seq<char> = if dry {
        "[dry-run] "@
    } else {
        seq![]
    };
    match a {
        ActionModel::SetBookmark { stack, name, commit_id } => (if dry {
            seq![p + "jj bookmark set "@ + name + " -r "@ + commit_id]
        } else {
            seq![]
        }) + seq![p + "Advanced bookmark '"@ + name + "' to "@ + short(head_change_id)],
        ActionModel::Push { stack, remote, sha, branch } => (if dry {
            seq![p + "git push --force-with-lease "@ + remote + " "@ + sha + ":refs/heads/"@ + branch]
        } else {
            seq![]
        }) + seq![p + "Pushed '"@ + branch + "' to "@ + remote],
    }
}

pub fn action_lines(a: &AdvanceAction, head_change_id: &str, dry: bool) -> (r: Vec<String>)
    ensures
        strs_view(r@) == action_lines_spec(a.model(), head_change_id@, dry),
{
    let prefix: &str = if dry {
        "[dry-run] "
    } else {
        ""
    };
    let ghost p: Seq<char> = if dry {
        "[dry-run] "@
    } else {
        seq![]
    };
    assert(prefix@ == p) by {
        reveal_strlit("");
    }
    let mut r: Vec<String> = Vec::new();
    match a {
        AdvanceAction::SetBookmark { stack, name, commit_id } => {
            if dry {
                let mut s = String::new();
                push_str(&mut s, prefix);
                push_str(&mut s, "jj bookmark set ");
                push_str(&mut s, name.as_str());
                push_str(&mut s, " -r ");
                push_str(&mut s, commit_id.as_str());
                assert(s@ =~= p + "jj bookmark set "@ + name@ + " -r "@ + commit_id@);
                r.push(s);
            }
            let mut t = String::new();
            push_str(&mut t, prefix);
            push_str(&mut t, "Advanced bookmark '");
            push_str(&mut t, name.as_str());
            push_str(&mut t, "' to ");
            let c = short_id(head_change_id);
            push_str(&mut t, c.as_str());
            assert(t@ =~= p + "Advanced bookmark '"@ + name@ + "' to "@ + short(head_change_id@));
            r.push(t);
        },
        AdvanceAction::Push { stack, remote, sha, branch } => {
            if dry {
                let mut s = String::new();
                push_str(&mut s, prefix);
                push_str(&mut s, "git push --force-with-lease ");
                push_str(&mut s, remote.as_str());
                push_str(&mut s, " ");
                push_str(&mut s, sha.as_str());
                push_str(&mut s, ":refs/heads/");
                push_str(&mut s, branch.as_str());
                assert(s@ =~= p + "git push --force-with-lease "@ + remote@ + " "@ + sha@ + ":refs/heads/"@ + branch@);
                r.push(s);
            }
            let mut t = String::new();
            push_str(&mut t, prefix);
            push_str(&mut t, "Pushed '");
            push_str(&mut t, branch.as_str());
            push_str(&mut t, "' to ");
            push_str(&mut t, remote.as_str());
            assert(t@ =~= p + "Pushed '"@ + branch@ + "' to "@ + remote@);
            r.push(t);
        },
    }
    assert(strs_view(r@) =~= action_lines_spec(a.model(), head_change_id@, dry));
    r
}

/// Law: in a dry run, every line printed for an action is marked `[dry-run] `
/// (and the lines name what would be run, which the caller does not run).
pub proof fn lemma_dry_run_lines_marked(a: ActionModel, head_change_id: Seq<char>)
    ensures
        forall|i: int|
            0 <= i < action_lines_spec(a, head_change_id, true).len() ==> has_prefix(
                #[trigger] action_lines_spec(a, head_change_id, true)[i],
                "[dry-run] "@,
            ),
{
    let ls = action_lines_spec(a, head_change_id, true);
    assert forall|i: int| 0 <= i < ls.len() implies has_prefix(#[trigger] ls[i], "[dry-run] "@) by {
        let p = "[dry-run] "@;
        assert(ls[i].take(p.len() as int) =~= p);
    }
}

} // verus!
