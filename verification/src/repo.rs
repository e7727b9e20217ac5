//! Commit records of a `jj log` JSON export, one record per line.
use vstd::prelude::*;
use crate::text::{lines, trim, lines_of};

verus! {

/// Who made a commit and when.
#[derive(Clone, Debug, Default)]
pub struct AuthorInfo {
    pub name: String,
    pub email: String,
    pub timestamp: String,
}

/// One commit of a log: its id, its parents' ids, and descriptive fields.
#[derive(Clone, Debug, Default)]
pub struct CommitInfo {
    pub id: String,
    pub parents: Vec<String>,
    pub change_id: String,
    pub message: String,
    pub author: AuthorInfo,
    pub committer: AuthorInfo,
}

impl CommitInfo {
    /// The commit's id.
    pub open spec fn id_view(&self) -> Seq<char> {
        self.id@
    }

    /// The ids of the commit's parents, in order.
    pub open spec fn parents_view(&self) -> Seq<Seq<char>> {
        self.parents@.map_values(|p: String| p@)
    }
}

/// The lines of a log export that hold a record: those that are not blank.
pub open spec fn record_lines(content: Seq<char>) -> Seq<Seq<char>> {
    lines_of(content).filter(|l: Seq<char>| trim(l).len() > 0)
}

/// The lines of `content` that hold a record, in order (the lines that are
/// not empty once trimmed); each is then parsed as one JSON commit record.
pub fn log_record_lines(content: &str) -> (r: Vec<String>)
    ensures
        r@.map_values(|x: String| x@) == record_lines(content@),
{
    let all = lines(content);
    let ghost all_v = all@.map_values(|x: String| x@);
    let mut r: Vec<String> = Vec::new();
    let mut i: usize = 0;
    while i < all.len()
        invariant
            i <= all@.len(),
            all_v == all@.map_values(|x: String| x@),
            all_v == lines_of(content@),
            r@.map_values(|x: String| x@) == all_v.take(i as int).filter(
                |l: Seq<char>| trim(l).len() > 0,
            ),
        decreases all.len() - i,
    {
        let t = crate::text::trim_str(all[i].as_str());
        let ghost before = r@.map_values(|x: String| x@);
        proof {
            reveal_with_fuel(Seq::<_>::filter, 1);
        }
        assert(all_v.take(i + 1).drop_last() =~= all_v.take(i as int));
        if !t.as_str().is_empty() {
            r.push(all[i].clone());
            assert(r@.map_values(|x: String| x@) =~= before.push(all_v[i as int]));
        } else {
            assert(r@.map_values(|x: String| x@) =~= before);
        }
        i = i + 1;
    }
    assert(all_v.take(all_v.len() as int) =~= all_v);
    r
}

} // verus!
