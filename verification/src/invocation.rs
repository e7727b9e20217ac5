//! Commands that this crate has run: which program, with which arguments, where.
use vstd::prelude::*;
use crate::text::owned;

verus! {

/// The programs this crate drives.
#[derive(Clone, Copy, Debug, PartialEq, Eq, Structural)]
pub enum Tool {
    Git,
    Jj,
}

/// A command line to run: the program, its arguments, and the directory to
/// run it in (the current one when `dir` is `None`). Running it and reading
/// its output is left to the caller; the functions of this crate decide what
/// to run and what the output means.
#[derive(Clone, Debug)]
pub struct Invocation {
    pub tool: Tool,
    pub args: Vec<String>,
    pub dir: Option<String>,
}

/// The characters of each string.
pub open spec fn strs_view(v: Seq<String>) -> Seq<Seq<char>> {
    v.map_values(|a: String| a@)
}

pub open spec fn dir_view(d: Option<String>) -> Option<Seq<char>> {
    match d {
        Some(s) => Some(s@),
        None => None,
    }
}

impl Invocation {
    /// The arguments as character sequences.
    pub open spec fn args_view(&self) -> Seq<Seq<char>> {
        strs_view(self.args@)
    }

    /// This is `tool` run in `dir` with exactly `args`.
    pub open spec fn is(&self, tool: Tool, dir: Option<Seq<char>>, args: Seq<Seq<char>>) -> bool {
        &&& self.tool == tool
        &&& dir_view(self.dir) == dir
        &&& self.args_view() =~= args
    }
}

/// Appends an owned copy of `s` to the argument list.
pub fn push_arg(v: &mut Vec<String>, s: &str)
    ensures
        strs_view(final(v)@) == strs_view(old(v)@).push(s@),
{
    let ghost before = v@;
    v.push(owned(s));
    assert(strs_view(v@) =~= strs_view(before).push(s@));
}

/// The argument list `[a, b]`.
pub fn args2(a: &str, b: &str) -> (r: Vec<String>)
    ensures
        strs_view(r@) == seq![a@, b@],
{
    let mut r: Vec<String> = Vec::new();
    push_arg(&mut r, a);
    push_arg(&mut r, b);
    r
}

/// `git` run in `repo_path` with `args`.
pub fn git(repo_path: &str, args: Vec<String>) -> (r: Invocation)
    ensures
        r.is(Tool::Git, Some(repo_path@), strs_view(args@)),
{
    Invocation { tool: Tool::Git, args, dir: Some(owned(repo_path)) }
}

/// `jj` run in `repo_path` with `args`.
pub fn jj(repo_path: &str, args: Vec<String>) -> (r: Invocation)
    ensures
        r.is(Tool::Jj, Some(repo_path@), strs_view(args@)),
{
    Invocation { tool: Tool::Jj, args, dir: Some(owned(repo_path)) }
}

/// `-d <p>` for each of `ps`, in order: the destinations of a `jj rebase`.
pub open spec fn dest_args(ps: Seq<Seq<char>>) -> Seq<Seq<char>>
    decreases ps.len(),
{
    if ps.len() == 0 {
        seq![]
    } else {
        dest_args(ps.drop_last()) + seq!["-d"@, ps.last()]
    }
}

/// Appends `-d <p>` for each of `ps`.
pub fn push_dest_args(v: &mut Vec<String>, ps: &Vec<String>)
    ensures
        strs_view(final(v)@) == strs_view(old(v)@) + dest_args(strs_view(ps@)),
{
    let ghost start = strs_view(v@);
    let ghost pv = strs_view(ps@);
    let mut i: usize = 0;
    assert(pv.take(0) =~= Seq::<Seq<char>>::empty());
    assert(start + dest_args(pv.take(0)) =~= start);
    while i < ps.len()
        invariant
            i <= ps@.len(),
            pv == strs_view(ps@),
            strs_view(v@) == start + dest_args(pv.take(i as int)),
        decreases ps.len() - i,
    {
        push_arg(v, "-d");
        push_arg(v, ps[i].as_str());
        assert(pv.take(i + 1).drop_last() =~= pv.take(i as int));
        assert(pv.take(i + 1).last() == ps@[i as int]@);
        assert(strs_view(v@) =~= start + dest_args(pv.take(i + 1)));
        i = i + 1;
    }
    assert(pv.take(ps@.len() as int) =~= pv);
}

/// Appends each of `xs`.
pub fn push_all(v: &mut Vec<String>, xs: &Vec<String>)
    ensures
        strs_view(final(v)@) == strs_view(old(v)@) + strs_view(xs@),
{
    let ghost start = strs_view(v@);
    let mut i: usize = 0;
    while i < xs.len()
        invariant
            i <= xs@.len(),
            strs_view(v@) == start + strs_view(xs@).take(i as int),
        decreases xs.len() - i,
    {
        push_arg(v, xs[i].as_str());
        assert(strs_view(v@) =~= start + strs_view(xs@).take(i + 1));
        i = i + 1;
    }
    assert(strs_view(xs@).take(xs@.len() as int) =~= strs_view(xs@));
}

} // verus!
