//! Lane layout of a commit log for drawing its graph: each commit gets a row,
//! a column for its node, and one cell per lane telling what to draw there.
use vstd::prelude::*;
use crate::repo::CommitInfo;

verus! {

/// What a cell of a graph row shows.
#[derive(Clone, Copy, Debug, PartialEq, Eq, Structural)]
pub enum GraphCell {
    Empty,
    Node,
    Vertical,
    MergeLeft,
    MergeRight,
    /// A vertical lane with a horizontal merge line passing through it.
    Crossing,
}

/// One cell of a row, with the lines that join it to the rows around it.
#[derive(Clone, Copy, Debug, PartialEq, Eq, Structural)]
pub struct GraphCellInfo {
    pub cell: GraphCell,
    pub line_above: bool,
    pub line_below: bool,
    pub merge_from_left: bool,
    pub merge_from_right: bool,
}

impl GraphCellInfo {
    fn empty() -> (r: Self)
        ensures
            r == empty_cell(),
    {
        Self {
            cell: GraphCell::Empty,
            line_above: false,
            line_below: false,
            merge_from_left: false,
            merge_from_right: false,
        }
    }
}

/// One row of the graph: the commit it shows, its cells, and its node's column.
#[derive(Clone, Debug)]
pub struct GraphRow {
    pub commit_id: String,
    pub cells: Vec<GraphCellInfo>,
    pub node_column: usize,
}

/// A row as a mathematical value.
pub struct RowModel {
    pub commit_id: Seq<char>,
    pub cells: Seq<GraphCellInfo>,
    pub node_column: nat,
}

impl GraphRow {
    pub open spec fn model(self) -> RowModel {
        RowModel { commit_id: self.commit_id@, cells: self.cells@, node_column: self.node_column as nat }
    }
}

/// A lane: the id of the commit it runs down to, or free.
pub type Lane = Option<Seq<char>>;

/// A commit as the layout sees it: its id and its parents' ids.
pub type CommitModel = (Seq<char>, Seq<Seq<char>>);

pub open spec fn commit_model(c: CommitInfo) -> CommitModel {
    (c.id_view(), c.parents_view())
}

pub open spec fn commits_model(cs: Seq<CommitInfo>) -> Seq<CommitModel> {
    cs.map_values(|c: CommitInfo| commit_model(c))
}

/// The ids of all commits of the log.
pub open spec fn ids_model(cs: Seq<CommitInfo>) -> Seq<Seq<char>> {
    cs.map_values(|c: CommitInfo| c.id_view())
}

pub open spec fn lane_of(o: Option<String>) -> Lane {
    match o {
        Some(s) => Some(s@),
        None => None,
    }
}

pub open spec fn lanes_model(l: Seq<Option<String>>) -> Seq<Lane> {
    l.map_values(|o: Option<String>| lane_of(o))
}

pub open spec fn empty_cell() -> GraphCellInfo {
    GraphCellInfo {
        cell: GraphCell::Empty,
        line_above: false,
        line_below: false,
        merge_from_left: false,
        merge_from_right: false,
    }
}

/// Index of the first `x` in `s`, or `s.len()` when there is none.
pub open spec fn first_index<A>(s: Seq<A>, x: A) -> nat
    decreases s.len(),
{
    if s.len() == 0 {
        0
    } else if s[0] == x {
        0
    } else {
        1 + first_index(s.drop_first(), x)
    }
}

/// The first free lane, or `lanes.len()` when all are taken.
pub open spec fn free_slot(lanes: Seq<Lane>) -> nat {
    first_index(lanes, None)
}

/// `lanes` with a free lane appended when none is free.
pub open spec fn with_free_slot(lanes: Seq<Lane>) -> Seq<Lane> {
    if free_slot(lanes) < lanes.len() {
        lanes
    } else {
        lanes.push(None)
    }
}

/// Whether some lane already runs down to `id` (a child above connects to it).
pub open spec fn expected(lanes: Seq<Lane>, id: Seq<char>) -> bool {
    first_index(lanes, Some(id)) < lanes.len()
}

/// The lanes once the node of `id` has a column.
pub open spec fn lanes_with_node(lanes: Seq<Lane>, id: Seq<char>) -> Seq<Lane> {
    if expected(lanes, id) {
        lanes
    } else {
        with_free_slot(lanes)
    }
}

/// The column of the node of `id`: the first lane that runs down to it, else the first free lane.
pub open spec fn node_column_for(lanes: Seq<Lane>, id: Seq<char>) -> nat {
    if expected(lanes, id) {
        first_index(lanes, Some(id))
    } else {
        free_slot(with_free_slot(lanes))
    }
}

/// A lane other than the node's that also runs down to `id`: a merge source.
pub open spec fn is_source(lanes: Seq<Lane>, node: int, id: Seq<char>, s: int) -> bool {
    0 <= s < lanes.len() && s != node && lanes[s] == Some(id)
}

/// Some merge source lies left of column `c`.
pub open spec fn source_before(lanes: Seq<Lane>, node: int, id: Seq<char>, c: int) -> bool {
    exists|s: int| 0 <= s < c && #[trigger] is_source(lanes, node, id, s)
}

/// Some merge source lies right of column `c`.
pub open spec fn source_after(lanes: Seq<Lane>, node: int, id: Seq<char>, c: int) -> bool {
    exists|s: int| c < s < lanes.len() && #[trigger] is_source(lanes, node, id, s)
}

/// Column `c` lies strictly between the node and a merge source, so a merge line crosses it.
pub open spec fn covered(lanes: Seq<Lane>, node: int, id: Seq<char>, c: int) -> bool {
    ||| c < node && source_before(lanes, node, id, c)
    ||| c > node && source_after(lanes, node, id, c)
}

/// The cell at column `c` of the row of `id`, drawn on `lanes` (which already
/// hold the node's column).
pub open spec fn cell_spec(
    lanes: Seq<Lane>,
    node: int,
    id: Seq<char>,
    line_above: bool,
    line_below: bool,
    c: int,
) -> GraphCellInfo {
    if c == node {
        GraphCellInfo {
            cell: GraphCell::Node,
            line_above,
            line_below,
            merge_from_left: source_before(lanes, node, id, node),
            merge_from_right: source_after(lanes, node, id, node),
        }
    } else if lanes[c] == Some(id) {
        GraphCellInfo {
            cell: if c < node {
                GraphCell::MergeRight
            } else {
                GraphCell::MergeLeft
            },
            line_above: true,
            line_below: false,
            merge_from_left: false,
            merge_from_right: false,
        }
    } else if lanes[c] is Some {
        GraphCellInfo {
            cell: if covered(lanes, node, id, c) {
                GraphCell::Crossing
            } else {
                GraphCell::Vertical
            },
            line_above: true,
            line_below: true,
            merge_from_left: false,
            merge_from_right: false,
        }
    } else if covered(lanes, node, id, c) {
        GraphCellInfo {
            cell: if c < node {
                GraphCell::MergeRight
            } else {
                GraphCell::MergeLeft
            },
            line_above: false,
            line_below: false,
            merge_from_left: false,
            merge_from_right: false,
        }
    } else {
        empty_cell()
    }
}

/// Some parent of the commit is in the log (the node continues downward).
pub open spec fn has_parent_in(parents: Seq<Seq<char>>, ids: Seq<Seq<char>>) -> bool {
    exists|j: int| 0 <= j < parents.len() && ids.contains(#[trigger] parents[j])
}

/// The row of commit `c` drawn on `lanes`.
pub open spec fn row_spec(lanes: Seq<Lane>, c: CommitModel, ids: Seq<Seq<char>>) -> RowModel {
    let l0 = lanes_with_node(lanes, c.0);
    let node = node_column_for(lanes, c.0);
    RowModel {
        commit_id: c.0,
        cells: Seq::new(
            l0.len(),
            |k: int| cell_spec(l0, node as int, c.0, expected(lanes, c.0), has_parent_in(c.1, ids), k),
        ),
        node_column: node,
    }
}

/// The lanes with the merge sources of `id` freed.
pub open spec fn clear_sources(l: Seq<Lane>, node: int, id: Seq<char>) -> Seq<Lane> {
    Seq::new(l.len(), |i: int| if i != node && l[i] == Some(id) { None } else { l[i] })
}

/// The lanes after each of `ps` took the first free lane (appending one when none is free).
pub open spec fn place_parents(l: Seq<Lane>, ps: Seq<Seq<char>>) -> Seq<Lane>
    decreases ps.len(),
{
    if ps.len() == 0 {
        l
    } else {
        let l2 = with_free_slot(l);
        place_parents(l2.update(free_slot(l2) as int, Some(ps[0])), ps.drop_first())
    }
}

/// The lanes after the node's lane continues to the first parent and the
/// other parents take free lanes; a root frees its lane.
pub open spec fn assign_parents(l: Seq<Lane>, node: int, ps: Seq<Seq<char>>) -> Seq<Lane> {
    if ps.len() == 0 {
        l.update(node, None)
    } else {
        place_parents(l.update(node, Some(ps[0])), ps.drop_first())
    }
}

/// The lanes with every lane that runs to a commit outside the log freed.
pub open spec fn drop_orphans(l: Seq<Lane>, ids: Seq<Seq<char>>) -> Seq<Lane> {
    Seq::new(
        l.len(),
        |i: int|
            match l[i] {
                Some(x) => if ids.contains(x) {
                    Some(x)
                } else {
                    None
                },
                None => None,
            },
    )
}

/// The lanes without free lanes at their end.
pub open spec fn trim_free(l: Seq<Lane>) -> Seq<Lane>
    decreases l.len(),
{
    if l.len() > 0 && l.last() is None {
        trim_free(l.drop_last())
    } else {
        l
    }
}

/// The lanes after the row of commit `c`.
pub open spec fn step(lanes: Seq<Lane>, c: CommitModel, ids: Seq<Seq<char>>) -> Seq<Lane> {
    let l0 = lanes_with_node(lanes, c.0);
    let node = node_column_for(lanes, c.0) as int;
    trim_free(drop_orphans(assign_parents(clear_sources(l0, node, c.0), node, c.1), ids))
}

/// The rows of `cs`, drawn from `lanes` onward.
pub open spec fn graph_spec(cs: Seq<CommitModel>, ids: Seq<Seq<char>>, lanes: Seq<Lane>) -> Seq<
    RowModel,
>
    decreases cs.len(),
{
    if cs.len() == 0 {
        seq![]
    } else {
        seq![row_spec(lanes, cs[0], ids)] + graph_spec(cs.drop_first(), ids, step(lanes, cs[0], ids))
    }
}

// ---------------------------------------------------------------------------
// Lemmas
// ---------------------------------------------------------------------------

pub proof fn lemma_first_index<A>(s: Seq<A>, x: A, j: int)
    requires
        0 <= j <= s.len(),
        forall|k: int| 0 <= k < j ==> #[trigger] s[k] != x,
        j == s.len() || s[j] == x,
    ensures
        first_index(s, x) == j,
    decreases j,
{
    if j > 0 {
        let t = s.drop_first();
        assert(s[0] != x);
        assert forall|k: int| 0 <= k < j - 1 implies #[trigger] t[k] != x by {
            assert(t[k] == s[k + 1]);
        }
        if j - 1 < t.len() {
            assert(t[j - 1] == s[j]);
        }
        lemma_first_index(t, x, j - 1);
    }
}

pub proof fn lemma_first_index_bound<A>(s: Seq<A>, x: A)
    ensures
        first_index(s, x) <= s.len(),
        first_index(s, x) < s.len() ==> s[first_index(s, x) as int] == x,
        forall|k: int| 0 <= k < first_index(s, x) ==> #[trigger] s[k] != x,
    decreases s.len(),
{
    if s.len() > 0 && s[0] != x {
        let t = s.drop_first();
        lemma_first_index_bound(t, x);
        assert forall|k: int| 0 <= k < first_index(s, x) implies #[trigger] s[k] != x by {
            if k > 0 {
                assert(s[k] == t[k - 1]);
            }
        }
    }
}

/// The node's column is one of the row's lanes.
pub proof fn lemma_node_in_range(lanes: Seq<Lane>, id: Seq<char>)
    ensures
        node_column_for(lanes, id) < lanes_with_node(lanes, id).len(),
        lanes.len() <= lanes_with_node(lanes, id).len() <= lanes.len() + 1,
{
    lemma_first_index_bound(lanes, Some(id));
    lemma_first_index_bound(lanes, None);
    lemma_first_index_bound(with_free_slot(lanes), None);
    if !expected(lanes, id) && free_slot(lanes) >= lanes.len() {
        let l2 = lanes.push(None);
        assert(l2[lanes.len() as int] == None::<Seq<char>>);
    }
}

/// Law: a row looks for a free lane as the first free one; when no lane is
/// free it appends one, at the end. Lanes in use never change.
pub proof fn lemma_free_slot_is_first_free(lanes: Seq<Lane>)
    ensures
        (exists|k: int| 0 <= k < lanes.len() && #[trigger] lanes[k] is None) ==> {
            &&& with_free_slot(lanes) == lanes
            &&& free_slot(lanes) < lanes.len()
            &&& lanes[free_slot(lanes) as int] is None
            &&& forall|k: int| 0 <= k < free_slot(lanes) ==> #[trigger] lanes[k] is Some
        },
        !(exists|k: int| 0 <= k < lanes.len() && #[trigger] lanes[k] is None) ==> {
            &&& with_free_slot(lanes) == lanes.push(None)
            &&& free_slot(with_free_slot(lanes)) == lanes.len()
        },
{
    lemma_first_index_bound(lanes, None);
    if exists|k: int| 0 <= k < lanes.len() && #[trigger] lanes[k] is None {
        let k = choose|k: int| 0 <= k < lanes.len() && #[trigger] lanes[k] is None;
        assert(lanes[k] == None::<Seq<char>>);
        assert forall|j: int| 0 <= j < free_slot(lanes) implies #[trigger] lanes[j] is Some by {
            assert(lanes[j] != None::<Seq<char>>);
        }
    } else {
        assert(free_slot(lanes) == lanes.len()) by {
            if free_slot(lanes) < lanes.len() {
                assert(lanes[free_slot(lanes) as int] is None);
            }
        }
        let l2 = lanes.push(None);
        assert forall|j: int| 0 <= j < lanes.len() implies #[trigger] l2[j] != None::<Seq<char>> by {
            assert(l2[j] == lanes[j]);
            assert(!(lanes[j] is None));
        }
        lemma_first_index(l2, None, lanes.len() as int);
    }
}

/// Law: the node of commit `id` takes the first lane that runs down to it,
/// leaving the lanes as they are; when none does, it takes the first free
/// lane, appended when there is none.
pub proof fn lemma_node_column_is_first_match(lanes: Seq<Lane>, id: Seq<char>)
    ensures
        (exists|k: int| 0 <= k < lanes.len() && #[trigger] lanes[k] == Some(id)) ==> {
            &&& lanes_with_node(lanes, id) == lanes
            &&& node_column_for(lanes, id) < lanes.len()
            &&& lanes[node_column_for(lanes, id) as int] == Some(id)
            &&& forall|k: int| 0 <= k < node_column_for(lanes, id) ==> #[trigger] lanes[k] != Some(id)
        },
        !(exists|k: int| 0 <= k < lanes.len() && #[trigger] lanes[k] == Some(id)) ==> {
            &&& lanes_with_node(lanes, id) == with_free_slot(lanes)
            &&& node_column_for(lanes, id) == free_slot(with_free_slot(lanes))
        },
{
    lemma_first_index_bound(lanes, Some(id));
    if exists|k: int| 0 <= k < lanes.len() && #[trigger] lanes[k] == Some(id) {
        let k = choose|k: int| 0 <= k < lanes.len() && #[trigger] lanes[k] == Some(id);
        assert(first_index(lanes, Some(id)) <= k);
    } else {
        if first_index(lanes, Some(id)) < lanes.len() {
            assert(lanes[first_index(lanes, Some(id)) as int] == Some(id));
        }
    }
}

/// Trimming keeps a prefix and leaves no free lane at the end.
pub proof fn lemma_trim_free(l: Seq<Lane>)
    ensures
        trim_free(l).len() <= l.len(),
        trim_free(l) == l.take(trim_free(l).len() as int),
        trim_free(l).len() == 0 || trim_free(l).last() is Some,
    decreases l.len(),
{
    if l.len() > 0 && l.last() is None {
        lemma_trim_free(l.drop_last());
        assert(l.drop_last().take(trim_free(l).len() as int) =~= l.take(trim_free(l).len() as int));
    } else {
        assert(l.take(l.len() as int) =~= l);
    }
}

/// Law: after every row, each lane is free or runs down to a commit of the log,
/// and the last lane is not free.
pub proof fn lemma_step_lanes_clean(lanes: Seq<Lane>, c: CommitModel, ids: Seq<Seq<char>>)
    ensures
        forall|i: int|
            0 <= i < step(lanes, c, ids).len() ==> (#[trigger] step(lanes, c, ids)[i] matches Some(
                x,
            ) ==> ids.contains(x)),
        step(lanes, c, ids).len() == 0 || step(lanes, c, ids).last() is Some,
{
    let l0 = lanes_with_node(lanes, c.0);
    let node = node_column_for(lanes, c.0) as int;
    let d = drop_orphans(assign_parents(clear_sources(l0, node, c.0), node, c.1), ids);
    lemma_trim_free(d);
    let t = trim_free(d);
    assert forall|i: int| 0 <= i < t.len() implies (#[trigger] t[i] matches Some(x) ==> ids.contains(
        x,
    )) by {
        assert(t[i] == d[i]);
    }
}

/// Law: the graph has one row per commit, in the commits' order; each row's
/// node lies within its cells and is drawn as a node, whose line continues
/// downward exactly when some parent of the commit is in the log.
pub proof fn lemma_graph_rows(cs: Seq<CommitModel>, ids: Seq<Seq<char>>, lanes: Seq<Lane>)
    ensures
        graph_spec(cs, ids, lanes).len() == cs.len(),
        forall|i: int|
            0 <= i < cs.len() ==> {
                let r = #[trigger] graph_spec(cs, ids, lanes)[i];
                &&& r.commit_id == cs[i].0
                &&& r.node_column < r.cells.len()
                &&& r.cells[r.node_column as int].cell == GraphCell::Node
                &&& r.cells[r.node_column as int].line_below == has_parent_in(cs[i].1, ids)
            },
    decreases cs.len(),
{
    if cs.len() > 0 {
        let rest = cs.drop_first();
        let l2 = step(lanes, cs[0], ids);
        lemma_graph_rows(rest, ids, l2);
        lemma_node_in_range(lanes, cs[0].0);
        let g = graph_spec(cs, ids, lanes);
        assert forall|i: int| 0 <= i < cs.len() implies {
            let r = #[trigger] g[i];
            &&& r.commit_id == cs[i].0
            &&& r.node_column < r.cells.len()
            &&& r.cells[r.node_column as int].cell == GraphCell::Node
            &&& r.cells[r.node_column as int].line_below == has_parent_in(cs[i].1, ids)
        } by {
            if i > 0 {
                assert(g[i] == graph_spec(rest, ids, l2)[i - 1]);
                assert(rest[i - 1] == cs[i]);
            }
        }
    }
}

/// Law: the first row starts from no lanes: its node sits alone in column 0
/// with no line above it.
pub proof fn lemma_first_row(cs: Seq<CommitModel>, ids: Seq<Seq<char>>)
    requires
        cs.len() > 0,
    ensures
        graph_spec(cs, ids, seq![])[0].node_column == 0,
        graph_spec(cs, ids, seq![])[0].cells.len() == 1,
        !graph_spec(cs, ids, seq![])[0].cells[0].line_above,
{
    let e = Seq::<Lane>::empty();
    lemma_first_index_bound(e, Some(cs[0].0));
    lemma_first_index_bound(e, None);
    let l2 = e.push(None);
    lemma_first_index(l2, None, 0);
}

/// Law: merges only come from the right. A node takes the first lane that
/// runs down to it, so no merge source lies left of it: no row has a
/// `MergeRight` cell, and no node is merged into from the left.
pub proof fn lemma_merges_come_from_the_right(lanes: Seq<Lane>, c: CommitModel, ids: Seq<Seq<char>>)
    ensures
        !row_spec(lanes, c, ids).cells[row_spec(lanes, c, ids).node_column as int].merge_from_left,
        forall|k: int|
            0 <= k < row_spec(lanes, c, ids).cells.len() ==> (#[trigger] row_spec(lanes, c, ids).cells[k]).cell
                != GraphCell::MergeRight,
{
    let l0 = lanes_with_node(lanes, c.0);
    let node = node_column_for(lanes, c.0) as int;
    lemma_node_in_range(lanes, c.0);
    lemma_first_index_bound(lanes, Some(c.0));
    lemma_first_index_bound(lanes, None);
    lemma_first_index_bound(with_free_slot(lanes), None);
    assert forall|s: int| 0 <= s < node implies !#[trigger] is_source(l0, node, c.0, s) by {
        if !expected(lanes, c.0) {
            // No lane of `lanes` runs to the commit, and an appended lane is free.
            if s < lanes.len() {
                assert(l0[s] == lanes[s]);
            }
        }
    }
    assert forall|k: int| 0 <= k < node implies l0[k] != Some(c.0) by {
        assert(!is_source(l0, node, c.0, k));
    }
}

/// Law: a merge line is drawn unbroken. In the row of commit `c`, take a merge
/// source: a lane `s` other than the node's that also runs down to `c`. Its
/// cell is a merge cell pointing at the node, and every column strictly
/// between it and the node is a merge cell too when its lane is free, or a
/// crossing when the lane runs to another commit; never empty.
pub proof fn lemma_merge_lines_unbroken(lanes: Seq<Lane>, c: CommitModel, ids: Seq<Seq<char>>, s: int, k: int)
    requires
        0 <= s < lanes_with_node(lanes, c.0).len(),
        s != node_column_for(lanes, c.0),
        lanes_with_node(lanes, c.0)[s] == Some(c.0),
        node_column_for(lanes, c.0) < k < s || s < k < node_column_for(lanes, c.0),
    ensures
        ({
            let l0 = lanes_with_node(lanes, c.0);
            let node = node_column_for(lanes, c.0) as int;
            let cells = row_spec(lanes, c, ids).cells;
            let toward: GraphCell = if s > node {
                GraphCell::MergeLeft
            } else {
                GraphCell::MergeRight
            };
            &&& cells.len() == l0.len()
            &&& cells[s].cell == toward
            &&& cells[s].line_above
            &&& cells[k].cell != GraphCell::Empty
            &&& cells[k].cell != GraphCell::Vertical
            &&& (l0[k] is None ==> cells[k].cell == toward)
            &&& (l0[k] matches Some(x) && x != c.0 ==> cells[k].cell == GraphCell::Crossing)
            &&& (l0[k] == Some(c.0) ==> cells[k].cell == toward)
        }),
{
    let l0 = lanes_with_node(lanes, c.0);
    let node = node_column_for(lanes, c.0) as int;
    lemma_node_in_range(lanes, c.0);
    assert(is_source(l0, node, c.0, s));
    if s > node {
        assert(source_after(l0, node, c.0, k));
    } else {
        assert(source_before(l0, node, c.0, k));
    }
    assert(covered(l0, node, c.0, k));
}

// ---------------------------------------------------------------------------
// Which commits the lanes lead to
// ---------------------------------------------------------------------------

/// Some lane leads down to `x`.
pub open spec fn leads_to(l: Seq<Lane>, x: Seq<char>) -> bool {
    exists|k: int| 0 <= k < l.len() && #[trigger] l[k] == Some(x)
}

proof fn lemma_expected_leads(l: Seq<Lane>, x: Seq<char>)
    ensures
        expected(l, x) == leads_to(l, x),
{
    lemma_first_index_bound(l, Some(x));
    if leads_to(l, x) {
        let k = choose|k: int| 0 <= k < l.len() && #[trigger] l[k] == Some(x);
        assert(first_index(l, Some(x)) <= k);
    }
}

proof fn lemma_with_free_slot_leads(l: Seq<Lane>, x: Seq<char>)
    ensures
        leads_to(with_free_slot(l), x) == leads_to(l, x),
{
    let l2 = with_free_slot(l);
    if free_slot(l) >= l.len() {
        if leads_to(l2, x) {
            let k = choose|k: int| 0 <= k < l2.len() && #[trigger] l2[k] == Some(x);
            assert(k < l.len());
            assert(l[k] == Some(x));
        }
        if leads_to(l, x) {
            let k = choose|k: int| 0 <= k < l.len() && #[trigger] l[k] == Some(x);
            assert(l2[k] == Some(x));
        }
    }
}

proof fn lemma_place_parents_leads(l: Seq<Lane>, ps: Seq<Seq<char>>, x: Seq<char>)
    ensures
        leads_to(place_parents(l, ps), x) == (leads_to(l, x) || ps.contains(x)),
    decreases ps.len(),
{
    if ps.len() > 0 {
        let l2 = with_free_slot(l);
        lemma_with_free_slot_leads(l, x);
        lemma_node_in_range_free(l);
        let f = free_slot(l2) as int;
        let l3 = l2.update(f, Some(ps[0]));
        lemma_place_parents_leads(l3, ps.drop_first(), x);
        // The free lane held nothing, so updating it adds `ps[0]` and loses nothing.
        if leads_to(l2, x) {
            let k = choose|k: int| 0 <= k < l2.len() && #[trigger] l2[k] == Some(x);
            assert(k != f);
            assert(l3[k] == Some(x));
        }
        assert(l3[f] == Some(ps[0]));
        if leads_to(l3, x) {
            let k = choose|k: int| 0 <= k < l3.len() && #[trigger] l3[k] == Some(x);
            if k != f {
                assert(l2[k] == Some(x));
            }
        }
        if ps.contains(x) {
            let j = choose|j: int| 0 <= j < ps.len() && ps[j] == x;
            if j > 0 {
                assert(ps.drop_first()[j - 1] == x);
            }
        }
        if ps.drop_first().contains(x) {
            let j = choose|j: int| 0 <= j < ps.drop_first().len() && ps.drop_first()[j] == x;
            assert(ps[j + 1] == x);
        }
    }
}

/// The free lane found in `with_free_slot(l)` is within it and free.
proof fn lemma_node_in_range_free(l: Seq<Lane>)
    ensures
        free_slot(with_free_slot(l)) < with_free_slot(l).len(),
        with_free_slot(l)[free_slot(with_free_slot(l)) as int] is None,
{
    lemma_first_index_bound(l, None);
    lemma_first_index_bound(with_free_slot(l), None);
    if free_slot(l) >= l.len() {
        let l2 = l.push(None);
        assert(l2[l.len() as int] == None::<Seq<char>>);
    }
}

proof fn lemma_trim_free_leads(l: Seq<Lane>, x: Seq<char>)
    ensures
        leads_to(trim_free(l), x) == leads_to(l, x),
    decreases l.len(),
{
    if l.len() > 0 && l.last() is None {
        let t = l.drop_last();
        lemma_trim_free_leads(t, x);
        if leads_to(l, x) {
            let k = choose|k: int| 0 <= k < l.len() && #[trigger] l[k] == Some(x);
            assert(k < t.len());
            assert(t[k] == Some(x));
        }
        if leads_to(t, x) {
            let k = choose|k: int| 0 <= k < t.len() && #[trigger] t[k] == Some(x);
            assert(l[k] == Some(x));
        }
    }
}

/// After the row of commit `c`, a lane leads to `x` exactly when `x` is a
/// commit of the log and either a lane led to it before and it is not `c`, or
/// it is a parent of `c`.
proof fn lemma_step_leads(lanes: Seq<Lane>, c: CommitModel, ids: Seq<Seq<char>>, x: Seq<char>)
    ensures
        leads_to(step(lanes, c, ids), x) == (ids.contains(x) && ((leads_to(lanes, x) && x != c.0)
            || c.1.contains(x))),
{
    let l0 = lanes_with_node(lanes, c.0);
    let node = node_column_for(lanes, c.0) as int;
    lemma_node_in_range(lanes, c.0);
    lemma_first_index_bound(lanes, Some(c.0));
    lemma_node_in_range_free(lanes);
    lemma_with_free_slot_leads(lanes, x);
    assert(leads_to(l0, x) == leads_to(lanes, x));
    // The node's lane leads to `c` or is free.
    assert(l0[node] == Some(c.0) || l0[node] is None);
    let l1 = clear_sources(l0, node, c.0);
    let ps = c.1;
    let v: Lane = if ps.len() == 0 {
        None
    } else {
        Some(ps[0])
    };
    let l2 = l1.update(node, v);
    // `l2` leads to `x` when `x` is not `c` and a lane led to it, or `v` is `x`.
    assert(leads_to(l2, x) == ((x != c.0 && leads_to(l0, x)) || v == Some(x))) by {
        if leads_to(l2, x) {
            let k = choose|k: int| 0 <= k < l2.len() && #[trigger] l2[k] == Some(x);
            if k != node {
                assert(l1[k] == Some(x));
                assert(l0[k] == Some(x) && x != c.0);
            }
        }
        if x != c.0 && leads_to(l0, x) {
            let k = choose|k: int| 0 <= k < l0.len() && #[trigger] l0[k] == Some(x);
            assert(k != node);
            assert(l1[k] == Some(x));
            assert(l2[k] == Some(x));
        }
        if v == Some(x) {
            assert(l2[node] == Some(x));
        }
    }
    let l3 = assign_parents(l1, node, ps);
    if ps.len() == 0 {
        assert(l3 == l2);
        assert(!ps.contains(x));
    } else {
        lemma_place_parents_leads(l2, ps.drop_first(), x);
        assert(ps.contains(x) == (ps[0] == x || ps.drop_first().contains(x))) by {
            if ps.contains(x) {
                let j = choose|j: int| 0 <= j < ps.len() && ps[j] == x;
                if j > 0 {
                    assert(ps.drop_first()[j - 1] == x);
                }
            }
            if ps.drop_first().contains(x) {
                let j = choose|j: int| 0 <= j < ps.drop_first().len() && ps.drop_first()[j] == x;
                assert(ps[j + 1] == x);
            }
        }
    }
    let l4 = drop_orphans(l3, ids);
    assert(leads_to(l4, x) == (leads_to(l3, x) && ids.contains(x))) by {
        if leads_to(l4, x) {
            let k = choose|k: int| 0 <= k < l4.len() && #[trigger] l4[k] == Some(x);
            assert(l3[k] == Some(x));
        }
        if leads_to(l3, x) && ids.contains(x) {
            let k = choose|k: int| 0 <= k < l3.len() && #[trigger] l3[k] == Some(x);
            assert(l4[k] == Some(x));
        }
    }
    lemma_trim_free_leads(l4, x);
}

/// The lanes before the row of `cs[k]`, drawing `cs` from `lanes` onward.
pub open spec fn lanes_before(cs: Seq<CommitModel>, ids: Seq<Seq<char>>, lanes: Seq<Lane>, k: nat) -> Seq<Lane>
    decreases k,
{
    if k == 0 || cs.len() == 0 {
        lanes
    } else {
        lanes_before(cs.drop_first(), ids, step(lanes, cs[0], ids), (k - 1) as nat)
    }
}

/// The rows of `cs` drawn from `lanes`: row `i` is the row of `cs[i]` drawn on
/// the lanes left by the rows before it.
pub proof fn lemma_rows_drawn_on(cs: Seq<CommitModel>, ids: Seq<Seq<char>>, lanes: Seq<Lane>, i: int)
    requires
        0 <= i < cs.len(),
    ensures
        graph_spec(cs, ids, lanes)[i] == row_spec(lanes_before(cs, ids, lanes, i as nat), cs[i], ids),
    decreases i,
{
    lemma_graph_rows(cs, ids, lanes);
    if i > 0 {
        let rest = cs.drop_first();
        let l2 = step(lanes, cs[0], ids);
        lemma_rows_drawn_on(rest, ids, l2, i - 1);
        assert(graph_spec(cs, ids, lanes)[i] == graph_spec(rest, ids, l2)[i - 1]);
        assert(rest[i - 1] == cs[i]);
    }
}

proof fn lemma_lanes_before_next(cs: Seq<CommitModel>, ids: Seq<Seq<char>>, lanes: Seq<Lane>, k: nat)
    requires
        k < cs.len(),
    ensures
        lanes_before(cs, ids, lanes, k + 1) == step(lanes_before(cs, ids, lanes, k), cs[k as int], ids),
    decreases k,
{
    let rest = cs.drop_first();
    let l2 = step(lanes, cs[0], ids);
    assert(lanes_before(cs, ids, lanes, k + 1) == lanes_before(rest, ids, l2, k));
    if k > 0 {
        lemma_lanes_before_next(rest, ids, l2, (k - 1) as nat);
        assert(rest[k - 1] == cs[k as int]);
        assert(lanes_before(cs, ids, lanes, k) == lanes_before(rest, ids, l2, (k - 1) as nat));
    } else {
        assert(lanes_before(rest, ids, l2, 0) == l2);
    }
}

/// Some commit of `cs[..k]` has parent `x`, and no commit after it in
/// `cs[..k]` is `x`.
pub open spec fn awaited(cs: Seq<CommitModel>, k: int, x: Seq<char>) -> bool {
    exists|j: int|
        0 <= j < k && (#[trigger] cs[j]).1.contains(x) && forall|m: int| j < m < k ==> (#[trigger] cs[m]).0 != x
}

proof fn lemma_lanes_before_lead(cs: Seq<CommitModel>, ids: Seq<Seq<char>>, k: nat, x: Seq<char>)
    requires
        k <= cs.len(),
    ensures
        leads_to(lanes_before(cs, ids, seq![], k), x) == (ids.contains(x) && awaited(cs, k as int, x)),
    decreases k,
{
    if k == 0 {
        assert(!leads_to(Seq::<Lane>::empty(), x));
    } else {
        let k1 = (k - 1) as nat;
        lemma_lanes_before_lead(cs, ids, k1, x);
        lemma_lanes_before_next(cs, ids, seq![], k1);
        let c = cs[k1 as int];
        lemma_step_leads(lanes_before(cs, ids, seq![], k1), c, ids, x);
        if c.1.contains(x) {
            assert(awaited(cs, k as int, x)) by {
                assert(cs[k1 as int].1.contains(x));
            }
        } else {
            if awaited(cs, k as int, x) {
                let j = choose|j: int|
                    0 <= j < k && (#[trigger] cs[j]).1.contains(x) && forall|m: int| j < m < k ==> (#[trigger] cs[m]).0 != x;
                assert(j < k1);
                assert(c.0 != x);
                assert(awaited(cs, k1 as int, x));
            }
            if awaited(cs, k1 as int, x) && c.0 != x {
                let j = choose|j: int|
                    0 <= j < k1 && (#[trigger] cs[j]).1.contains(x) && forall|m: int| j < m < k1 ==> (#[trigger] cs[m]).0 != x;
                assert forall|m: int| j < m < k implies (#[trigger] cs[m]).0 != x by {
                    if m < k1 {
                    } else {
                        assert(cs[m] == c);
                    }
                }
                assert(awaited(cs, k as int, x));
            }
        }
    }
}

/// Law: when no two commits of the log share an id, a node connects upward
/// exactly when an earlier commit of the log names it as a parent.
pub proof fn lemma_line_above_iff_named_earlier(cs: Seq<CommitModel>, ids: Seq<Seq<char>>, i: int)
    requires
        ids == cs.map_values(|c: CommitModel| c.0),
        forall|a: int, b: int| 0 <= a < b < cs.len() ==> (#[trigger] cs[a]).0 != (#[trigger] cs[b]).0,
        0 <= i < cs.len(),
    ensures
        ({
            let r = graph_spec(cs, ids, seq![])[i];
            r.cells[r.node_column as int].line_above == exists|j: int|
                0 <= j < i && (#[trigger] cs[j]).1.contains(cs[i].0)
        }),
{
    let x = cs[i].0;
    let lanes = lanes_before(cs, ids, seq![], i as nat);
    lemma_rows_drawn_on(cs, ids, seq![], i);
    lemma_node_in_range(lanes, x);
    lemma_expected_leads(lanes, x);
    lemma_lanes_before_lead(cs, ids, i as nat, x);
    assert(ids[i] == x);
    assert(ids.contains(x));
    assert(awaited(cs, i, x) == exists|j: int| 0 <= j < i && (#[trigger] cs[j]).1.contains(x)) by {
        if exists|j: int| 0 <= j < i && (#[trigger] cs[j]).1.contains(x) {
            let j = choose|j: int| 0 <= j < i && (#[trigger] cs[j]).1.contains(x);
            assert forall|m: int| j < m < i implies (#[trigger] cs[m]).0 != x by {
                assert(cs[m].0 != cs[i].0);
            }
        }
    }
}

/// The lanes after the row of a commit `(x, [y])` drawn on the single lane
/// `[x]` (or on no lane), `y` being a commit of the log: the single lane `[y]`.
proof fn lemma_step_single(lanes: Seq<Lane>, x: Seq<char>, y: Seq<char>, ids: Seq<Seq<char>>)
    requires
        lanes == seq![Some(x)] || lanes.len() == 0,
        ids.contains(y),
    ensures
        step(lanes, (x, seq![y]), ids) == seq![Some(y)],
{
    let c = (x, seq![y]);
    let l0 = lanes_with_node(lanes, x);
    let node = node_column_for(lanes, x) as int;
    if lanes.len() == 0 {
        assert(first_index(lanes, Some(x)) == 0);
        assert(free_slot(lanes) == 0);
        assert(with_free_slot(lanes) =~= seq![None]);
        assert(first_index(seq![None::<Seq<char>>], None) == 0);
    } else {
        assert(first_index(lanes, Some(x)) == 0);
    }
    assert(node == 0);
    assert(l0.len() == 1);
    let l1 = clear_sources(l0, node, x);
    assert(l1 =~= l0);
    let l3 = assign_parents(l1, node, c.1);
    assert(c.1.drop_first() =~= Seq::<Seq<char>>::empty());
    assert(l3 =~= seq![Some(y)]);
    let l4 = drop_orphans(l3, ids);
    assert(l4 =~= seq![Some(y)]);
    assert(trim_free(l4) == l4);
}

/// The row of commit `c` drawn on no lane: a single node in column 0, with no
/// line above, no merge mark, and a line below when a parent is in the log.
proof fn lemma_row_on_no_lane(c: CommitModel, ids: Seq<Seq<char>>)
    ensures
        ({
            let r = row_spec(seq![], c, ids);
            &&& r.node_column == 0
            &&& r.cells.len() == 1
            &&& r.cells[0] == GraphCellInfo {
                cell: GraphCell::Node,
                line_above: false,
                line_below: has_parent_in(c.1, ids),
                merge_from_left: false,
                merge_from_right: false,
            }
        }),
{
    let e = Seq::<Lane>::empty();
    assert(first_index(e, Some(c.0)) == 0);
    assert(free_slot(e) == 0);
    let l0 = with_free_slot(e);
    assert(l0 =~= seq![None]);
    assert(first_index(l0, None) == 0);
    assert(!source_after(l0, 0, c.0, 0));
}

/// Law: a linear history (each commit's only parent is the next one, the last
/// commit has none, no id twice) is drawn as one column of nodes, joined to
/// the row above except on the first row and to the row below except on the last.
pub proof fn lemma_linear_history(cs: Seq<CommitModel>, ids: Seq<Seq<char>>, i: int)
    requires
        ids == cs.map_values(|c: CommitModel| c.0),
        forall|a: int, b: int| 0 <= a < b < cs.len() ==> (#[trigger] cs[a]).0 != (#[trigger] cs[b]).0,
        forall|k: int| 0 <= k < cs.len() - 1 ==> (#[trigger] cs[k]).1 == seq![cs[k + 1].0],
        cs.len() > 0 ==> cs[cs.len() - 1].1 == Seq::<Seq<char>>::empty(),
        0 <= i < cs.len(),
    ensures
        ({
            let r = graph_spec(cs, ids, seq![])[i];
            &&& r.node_column == 0
            &&& r.cells.len() == 1
            &&& r.cells[0].cell == GraphCell::Node
            &&& r.cells[0].line_above == (i > 0)
            &&& r.cells[0].line_below == (i < cs.len() - 1)
        }),
{
    lemma_linear_lanes(cs, ids, i as nat);
    lemma_rows_drawn_on(cs, ids, seq![], i);
    let lanes = lanes_before(cs, ids, seq![], i as nat);
    let c = cs[i];
    if i < cs.len() - 1 {
        assert(ids[i + 1] == cs[i + 1].0);
        assert(has_parent_in(c.1, ids)) by {
            assert(c.1[0] == cs[i + 1].0);
        }
    } else {
        assert(!has_parent_in(c.1, ids));
    }
    if i == 0 {
        lemma_row_on_no_lane(c, ids);
    } else {
        assert(lanes == seq![Some(c.0)]);
        assert(first_index(lanes, Some(c.0)) == 0);
        assert(!source_after(lanes, 0, c.0, 0));
        assert(!source_before(lanes, 0, c.0, 0));
    }
}

proof fn lemma_linear_lanes(cs: Seq<CommitModel>, ids: Seq<Seq<char>>, k: nat)
    requires
        ids == cs.map_values(|c: CommitModel| c.0),
        forall|k: int| 0 <= k < cs.len() - 1 ==> (#[trigger] cs[k]).1 == seq![cs[k + 1].0],
        k < cs.len(),
    ensures
        lanes_before(cs, ids, seq![], k) == if k == 0 {
            Seq::<Lane>::empty()
        } else {
            seq![Some(cs[k as int].0)]
        },
    decreases k,
{
    if k > 0 {
        let k1 = (k - 1) as nat;
        lemma_linear_lanes(cs, ids, k1);
        lemma_lanes_before_next(cs, ids, seq![], k1);
        let c = cs[k1 as int];
        assert(c.1 == seq![cs[k as int].0]);
        assert(ids[k as int] == cs[k as int].0);
        lemma_step_single(lanes_before(cs, ids, seq![], k1), c.0, cs[k as int].0, ids);
        assert(c == (c.0, seq![cs[k as int].0]));
    }
}

/// Law: when no commit of the log has a parent in the log, every row is a
/// bare node in column 0: no line above or below and no merge mark (the lanes
/// toward absent parents are freed).
pub proof fn lemma_orphans_only(cs: Seq<CommitModel>, ids: Seq<Seq<char>>, i: int)
    requires
        ids == cs.map_values(|c: CommitModel| c.0),
        forall|a: int, j: int| 0 <= a < cs.len() && 0 <= j < cs[a].1.len() ==> !ids.contains(#[trigger] cs[a].1[j]),
        0 <= i < cs.len(),
    ensures
        ({
            let r = graph_spec(cs, ids, seq![])[i];
            &&& r.node_column == 0
            &&& r.cells.len() == 1
            &&& r.cells[0].cell == GraphCell::Node
            &&& !r.cells[0].line_above
            &&& !r.cells[0].line_below
            &&& !r.cells[0].merge_from_left
            &&& !r.cells[0].merge_from_right
        }),
{
    lemma_orphan_lanes(cs, ids, i as nat);
    lemma_rows_drawn_on(cs, ids, seq![], i);
    let c = cs[i];
    lemma_row_on_no_lane(c, ids);
    assert(!has_parent_in(c.1, ids)) by {
        if has_parent_in(c.1, ids) {
            let j = choose|j: int| 0 <= j < c.1.len() && ids.contains(#[trigger] c.1[j]);
            assert(!ids.contains(cs[i].1[j]));
        }
    }
}

proof fn lemma_orphan_lanes(cs: Seq<CommitModel>, ids: Seq<Seq<char>>, k: nat)
    requires
        forall|a: int, j: int| 0 <= a < cs.len() && 0 <= j < cs[a].1.len() ==> !ids.contains(#[trigger] cs[a].1[j]),
        k <= cs.len(),
    ensures
        lanes_before(cs, ids, seq![], k) == Seq::<Lane>::empty(),
    decreases k,
{
    if k > 0 {
        let k1 = (k - 1) as nat;
        lemma_orphan_lanes(cs, ids, k1);
        lemma_lanes_before_next(cs, ids, seq![], k1);
        let c = cs[k1 as int];
        let l = step(Seq::<Lane>::empty(), c, ids);
        assert forall|x: Seq<char>| !leads_to(l, x) by {
            lemma_step_leads(Seq::<Lane>::empty(), c, ids, x);
            if c.1.contains(x) && ids.contains(x) {
                let j = choose|j: int| 0 <= j < c.1.len() && c.1[j] == x;
                assert(!ids.contains(cs[k1 as int].1[j]));
            }
        }
        // No lane leads anywhere, and the last lane of a row's result is never free.
        lemma_step_lanes_clean(Seq::<Lane>::empty(), c, ids);
        if l.len() > 0 {
            let x = l.last()->0;
            assert(l[l.len() - 1] == Some(x));
            assert(leads_to(l, x));
            assert(!leads_to(l, x));
        }
        assert(l =~= Seq::<Lane>::empty());
    }
}

// ---------------------------------------------------------------------------
// Executable layout
// ---------------------------------------------------------------------------

fn lane_is(lanes: &Vec<Option<String>>, i: usize, id: &String) -> (r: bool)
    requires
        i < lanes@.len(),
    ensures
        r == (lanes_model(lanes@)[i as int] == Some(id@)),
{
    match &lanes[i] {
        Some(s) => *s == *id,
        None => false,
    }
}

fn lane_is_free(lanes: &Vec<Option<String>>, i: usize) -> (r: bool)
    requires
        i < lanes@.len(),
    ensures
        r == (lanes_model(lanes@)[i as int] is None),
{
    lanes[i].is_none()
}

/// Index of a free lane, appending one when none is free.
pub fn find_free_or_append(lanes: &mut Vec<Option<String>>) -> (slot: usize)
    ensures
        lanes_model(final(lanes)@) == with_free_slot(lanes_model(old(lanes)@)),
        slot as nat == free_slot(lanes_model(final(lanes)@)),
        slot < final(lanes)@.len(),
        final(lanes)@[slot as int] is None,
        (exists|k: int| 0 <= k < old(lanes)@.len() && #[trigger] old(lanes)@[k] is None) ==> {
            &&& lanes_model(final(lanes)@) == lanes_model(old(lanes)@)
            &&& forall|k: int| 0 <= k < slot ==> #[trigger] old(lanes)@[k] is Some
        },
        !(exists|k: int| 0 <= k < old(lanes)@.len() && #[trigger] old(lanes)@[k] is None) ==> {
            &&& lanes_model(final(lanes)@) == lanes_model(old(lanes)@).push(None)
            &&& slot == old(lanes)@.len()
        },
{
    let ghost m = lanes_model(lanes@);
    proof {
        lemma_free_slot_is_first_free(m);
        assert forall|k: int| 0 <= k < m.len() implies (#[trigger] m[k] is None) == (old(lanes)@[k] is None) by {}
        if exists|k: int| 0 <= k < old(lanes)@.len() && #[trigger] old(lanes)@[k] is None {
            let k = choose|k: int| 0 <= k < old(lanes)@.len() && #[trigger] old(lanes)@[k] is None;
            assert(m[k] is None);
        }
        if exists|k: int| 0 <= k < m.len() && #[trigger] m[k] is None {
            let k = choose|k: int| 0 <= k < m.len() && #[trigger] m[k] is None;
            assert(old(lanes)@[k] is None);
        }
    }
    let mut i: usize = 0;
    while i < lanes.len()
        invariant
            i <= lanes@.len(),
            lanes_model(lanes@) == m,
            forall|k: int| 0 <= k < i ==> #[trigger] m[k] != None::<Seq<char>>,
        decreases lanes.len() - i,
    {
        if lane_is_free(lanes, i) {
            proof {
                lemma_first_index(m, None, i as int);
                assert forall|k: int| 0 <= k < i implies #[trigger] old(lanes)@[k] is Some by {
                    assert(m[k] != None::<Seq<char>>);
                }
            }
            return i;
        }
        i = i + 1;
    }
    proof {
        lemma_first_index(m, None, m.len() as int);
    }
    lanes.push(None);
    let ghost m2 = lanes_model(lanes@);
    assert(m2 =~= m.push(None));
    proof {
        assert forall|k: int| 0 <= k < m.len() implies #[trigger] m2[k] != None::<Seq<char>> by {
            assert(m2[k] == m[k]);
        }
        lemma_first_index(m2, None, m.len() as int);
    }
    lanes.len() - 1
}

/// The node column of `id`, allocating a lane when no lane runs down to it;
/// also whether a lane already ran down to it.
pub fn find_or_alloc(lanes: &mut Vec<Option<String>>, id: &String) -> (r: (usize, bool))
    ensures
        lanes_model(final(lanes)@) == lanes_with_node(lanes_model(old(lanes)@), id@),
        r.0 as nat == node_column_for(lanes_model(old(lanes)@), id@),
        r.1 == expected(lanes_model(old(lanes)@), id@),
        r.0 < final(lanes)@.len(),
        r.1 == exists|k: int| 0 <= k < old(lanes)@.len() && #[trigger] lanes_model(old(lanes)@)[k] == Some(id@),
        r.1 ==> {
            &&& lanes_model(final(lanes)@) == lanes_model(old(lanes)@)
            &&& lanes_model(old(lanes)@)[r.0 as int] == Some(id@)
            &&& forall|k: int| 0 <= k < r.0 ==> #[trigger] lanes_model(old(lanes)@)[k] != Some(id@)
        },
        !r.1 ==> final(lanes)@[r.0 as int] is None,
        !r.1 && (exists|k: int| 0 <= k < old(lanes)@.len() && #[trigger] old(lanes)@[k] is None) ==> {
            &&& lanes_model(final(lanes)@) == lanes_model(old(lanes)@)
            &&& forall|k: int| 0 <= k < r.0 ==> #[trigger] old(lanes)@[k] is Some
        },
        !r.1 && !(exists|k: int| 0 <= k < old(lanes)@.len() && #[trigger] old(lanes)@[k] is None) ==> {
            &&& lanes_model(final(lanes)@) == lanes_model(old(lanes)@).push(None)
            &&& r.0 == old(lanes)@.len()
        },
{
    let ghost m = lanes_model(lanes@);
    proof {
        lemma_node_column_is_first_match(m, id@);
        lemma_expected_leads(m, id@);
    }
    let mut i: usize = 0;
    while i < lanes.len()
        invariant
            i <= lanes@.len(),
            lanes_model(lanes@) == m,
            forall|k: int| 0 <= k < i ==> #[trigger] m[k] != Some(id@),
        decreases lanes.len() - i,
    {
        if lane_is(lanes, i, id) {
            proof {
                lemma_first_index(m, Some(id@), i as int);
            }
            return (i, true);
        }
        i = i + 1;
    }
    proof {
        lemma_first_index(m, Some(id@), m.len() as int);
    }
    let slot = find_free_or_append(lanes);
    (slot, false)
}

/// Whether `x` is the id of some commit of `commits`.
fn contains_id(commits: &[CommitInfo], x: &String) -> (r: bool)
    ensures
        r == ids_model(commits@).contains(x@),
{
    let ghost ids = ids_model(commits@);
    let mut k: usize = 0;
    while k < commits.len()
        invariant
            k <= commits@.len(),
            ids == ids_model(commits@),
            forall|j: int| 0 <= j < k ==> #[trigger] ids[j] != x@,
        decreases commits.len() - k,
    {
        if commits[k].id == *x {
            assert(ids[k as int] == x@);
            return true;
        }
        k = k + 1;
    }
    false
}

/// Whether some parent of the commit is in the log.
fn any_parent_in(commits: &[CommitInfo], parents: &Vec<String>) -> (r: bool)
    ensures
        r == has_parent_in(parents@.map_values(|p: String| p@), ids_model(commits@)),
{
    let ghost ps = parents@.map_values(|p: String| p@);
    let mut j: usize = 0;
    while j < parents.len()
        invariant
            j <= parents@.len(),
            ps == parents@.map_values(|p: String| p@),
            forall|k: int| 0 <= k < j ==> !ids_model(commits@).contains(#[trigger] ps[k]),
        decreases parents.len() - j,
    {
        if contains_id(commits, &parents[j]) {
            assert(ids_model(commits@).contains(ps[j as int]));
            return true;
        }
        j = j + 1;
    }
    false
}

/// The cells of the row whose node sits at `node` on `lanes`.
fn row_cells(lanes: &Vec<Option<String>>, node: usize, id: &String, line_above: bool, line_below: bool) -> (cells: Vec<GraphCellInfo>)
    requires
        node < lanes@.len(),
    ensures
        cells@ == Seq::new(
            lanes@.len(),
            |k: int| cell_spec(lanes_model(lanes@), node as int, id@, line_above, line_below, k),
        ),
{
    let ghost m = lanes_model(lanes@);
    let width = lanes.len();
    // The leftmost merge source left of the node.
    let mut left: usize = 0;
    while left < node && !lane_is(lanes, left, id)
        invariant
            left <= node < lanes@.len(),
            m == lanes_model(lanes@),
            forall|s: int| 0 <= s < left ==> !#[trigger] is_source(m, node as int, id@, s),
        decreases node - left,
    {
        left = left + 1;
    }
    let has_left = left < node;
    // The rightmost merge source right of the node.
    let mut right: usize = width - 1;
    while right > node && !lane_is(lanes, right, id)
        invariant
            node <= right < lanes@.len(),
            width == lanes@.len(),
            m == lanes_model(lanes@),
            forall|s: int| right < s < width ==> !#[trigger] is_source(m, node as int, id@, s),
        decreases right,
    {
        right = right - 1;
    }
    let has_right = right > node;
    assert(has_left == source_before(m, node as int, id@, node as int)) by {
        if has_left {
            assert(is_source(m, node as int, id@, left as int));
        }
    }
    assert(has_right == source_after(m, node as int, id@, node as int)) by {
        if has_right {
            assert(is_source(m, node as int, id@, right as int));
        }
    }
    let mut cells: Vec<GraphCellInfo> = Vec::new();
    let mut c: usize = 0;
    while c < width
        invariant
            c <= width,
            width == lanes@.len(),
            node < width,
            m == lanes_model(lanes@),
            left <= node,
            has_left == (left < node),
            has_left ==> is_source(m, node as int, id@, left as int),
            forall|s: int| 0 <= s < left ==> !#[trigger] is_source(m, node as int, id@, s),
            node <= right < width,
            has_right == (right > node),
            has_right ==> is_source(m, node as int, id@, right as int),
            forall|s: int| right < s < width ==> !#[trigger] is_source(m, node as int, id@, s),
            has_left == source_before(m, node as int, id@, node as int),
            has_right == source_after(m, node as int, id@, node as int),
            cells@ == Seq::new(
                c as nat,
                |k: int| cell_spec(m, node as int, id@, line_above, line_below, k),
            ),
        decreases width - c,
    {
        let is_cov = (c < node && has_left && left < c) || (c > node && has_right && c < right);
        assert(is_cov == covered(m, node as int, id@, c as int)) by {
            if c < node && has_left && left < c {
                assert(is_source(m, node as int, id@, left as int));
            }
            if c > node && has_right && c < right {
                assert(is_source(m, node as int, id@, right as int));
            }
        }
        let cell = if c == node {
            GraphCellInfo {
                cell: GraphCell::Node,
                line_above,
                line_below,
                merge_from_left: has_left,
                merge_from_right: has_right,
            }
        } else if lane_is(lanes, c, id) {
            GraphCellInfo {
                cell: if c < node {
                    GraphCell::MergeRight
                } else {
                    GraphCell::MergeLeft
                },
                line_above: true,
                line_below: false,
                merge_from_left: false,
                merge_from_right: false,
            }
        } else if !lane_is_free(lanes, c) {
            GraphCellInfo {
                cell: if is_cov {
                    GraphCell::Crossing
                } else {
                    GraphCell::Vertical
                },
                line_above: true,
                line_below: true,
                merge_from_left: false,
                merge_from_right: false,
            }
        } else if is_cov {
            GraphCellInfo {
                cell: if c < node {
                    GraphCell::MergeRight
                } else {
                    GraphCell::MergeLeft
                },
                line_above: false,
                line_below: false,
                merge_from_left: false,
                merge_from_right: false,
            }
        } else {
            GraphCellInfo::empty()
        };
        assert(cell == cell_spec(m, node as int, id@, line_above, line_below, c as int));
        cells.push(cell);
        c = c + 1;
        assert(cells@ =~= Seq::new(
            c as nat,
            |k: int| cell_spec(m, node as int, id@, line_above, line_below, k),
        ));
    }
    cells
}

/// Frees the merge sources of `id`: the lanes other than the node's that run down to it.
fn free_sources(lanes: &mut Vec<Option<String>>, node: usize, id: &String)
    ensures
        lanes_model(final(lanes)@) == clear_sources(lanes_model(old(lanes)@), node as int, id@),
{
    let ghost m = lanes_model(lanes@);
    let mut i: usize = 0;
    while i < lanes.len()
        invariant
            i <= lanes@.len(),
            lanes@.len() == m.len(),
            forall|k: int|
                0 <= k < i ==> #[trigger] lanes_model(lanes@)[k] == clear_sources(
                    m,
                    node as int,
                    id@,
                )[k],
            forall|k: int| i <= k < lanes@.len() ==> #[trigger] lanes_model(lanes@)[k] == m[k],
        decreases lanes.len() - i,
    {
        let ghost before = lanes_model(lanes@);
        if i != node && lane_is(lanes, i, id) {
            lanes.set(i, None);
            assert(lanes_model(lanes@) =~= before.update(i as int, None));
        }
        i = i + 1;
    }
    assert(lanes_model(lanes@) =~= clear_sources(m, node as int, id@));
}

/// Lets the node's lane continue to the first parent and gives every other parent a free lane.
fn place_commit_parents(lanes: &mut Vec<Option<String>>, node: usize, parents: &Vec<String>)
    requires
        node < old(lanes)@.len(),
    ensures
        lanes_model(final(lanes)@) == assign_parents(
            lanes_model(old(lanes)@),
            node as int,
            parents@.map_values(|p: String| p@),
        ),
{
    let ghost ps = parents@.map_values(|p: String| p@);
    let ghost m = lanes_model(lanes@);
    if parents.len() == 0 {
        lanes.set(node, None);
        assert(lanes_model(lanes@) =~= m.update(node as int, None));
        return;
    }
    lanes.set(node, Some(parents[0].clone()));
    let ghost start = m.update(node as int, Some(ps[0]));
    assert(lanes_model(lanes@) =~= start);
    let mut j: usize = 1;
    assert(ps.skip(1) =~= ps.drop_first());
    while j < parents.len()
        invariant
            1 <= j <= parents@.len(),
            ps == parents@.map_values(|p: String| p@),
            place_parents(lanes_model(lanes@), ps.skip(j as int)) == place_parents(
                start,
                ps.drop_first(),
            ),
        decreases parents.len() - j,
    {
        let ghost before = lanes_model(lanes@);
        let slot = find_free_or_append(lanes);
        let ghost l2 = lanes_model(lanes@);
        lanes.set(slot, Some(parents[j].clone()));
        assert(lanes_model(lanes@) =~= l2.update(slot as int, Some(ps[j as int])));
        assert(ps.skip(j as int).drop_first() =~= ps.skip(j + 1));
        assert(ps.skip(j as int)[0] == ps[j as int]);
        j = j + 1;
    }
    assert(ps.skip(j as int) =~= Seq::<Seq<char>>::empty());
}

/// Frees every lane that runs to a commit outside the log.
fn free_orphan_lanes(lanes: &mut Vec<Option<String>>, commits: &[CommitInfo])
    ensures
        lanes_model(final(lanes)@) == drop_orphans(lanes_model(old(lanes)@), ids_model(commits@)),
{
    let ghost m = lanes_model(lanes@);
    let ghost ids = ids_model(commits@);
    let mut i: usize = 0;
    while i < lanes.len()
        invariant
            i <= lanes@.len(),
            lanes@.len() == m.len(),
            ids == ids_model(commits@),
            forall|k: int|
                0 <= k < i ==> #[trigger] lanes_model(lanes@)[k] == drop_orphans(m, ids)[k],
            forall|k: int| i <= k < lanes@.len() ==> #[trigger] lanes_model(lanes@)[k] == m[k],
        decreases lanes.len() - i,
    {
        let orphan = match &lanes[i] {
            Some(x) => !contains_id(commits, x),
            None => false,
        };
        let ghost before = lanes_model(lanes@);
        assert(before[i as int] == lane_of(lanes@[i as int]));
        assert(orphan ==> drop_orphans(m, ids)[i as int] == None::<Seq<char>>);
        assert(!orphan ==> drop_orphans(m, ids)[i as int] == m[i as int]);
        if orphan {
            lanes.set(i, None);
            assert(lanes_model(lanes@) =~= before.update(i as int, None));
        }
        i = i + 1;
    }
    assert(lanes_model(lanes@) =~= drop_orphans(m, ids));
}

/// Drops free lanes from the end.
fn trim_free_lanes(lanes: &mut Vec<Option<String>>)
    ensures
        lanes_model(final(lanes)@) == trim_free(lanes_model(old(lanes)@)),
{
    let ghost m = lanes_model(lanes@);
    while lanes.len() > 0 && lane_is_free(lanes, lanes.len() - 1)
        invariant
            trim_free(lanes_model(lanes@)) == trim_free(m),
        decreases lanes.len(),
    {
        let ghost before = lanes_model(lanes@);
        lanes.pop();
        assert(lanes_model(lanes@) =~= before.drop_last());
    }
}

/// The rows of the graph of `commits`, newest first as given: one row per
/// commit, in order. A commit takes the first lane that runs down to it
/// (else the first free lane); other lanes that run to it merge into it and
/// are freed; its first parent continues in its lane and further parents take
/// free lanes; lanes to commits outside the log are dropped, and free lanes at
/// the end are trimmed.
pub fn compute_graph(commits: &[CommitInfo]) -> (rows: Vec<GraphRow>)
    ensures
        rows@.map_values(|r: GraphRow| r.model()) == graph_spec(
            commits_model(commits@),
            ids_model(commits@),
            seq![],
        ),
{
    let ghost cs = commits_model(commits@);
    let ghost ids = ids_model(commits@);
    let mut lanes: Vec<Option<String>> = Vec::new();
    let mut rows: Vec<GraphRow> = Vec::new();
    let mut k: usize = 0;
    assert(lanes_model(lanes@) =~= Seq::<Lane>::empty());
    assert(cs.skip(0) =~= cs);
    while k < commits.len()
        invariant
            k <= commits@.len(),
            cs == commits_model(commits@),
            ids == ids_model(commits@),
            rows@.map_values(|r: GraphRow| r.model()) + graph_spec(
                cs.skip(k as int),
                ids,
                lanes_model(lanes@),
            ) == graph_spec(cs, ids, seq![]),
        decreases commits.len() - k,
    {
        let commit = &commits[k];
        let ghost l = lanes_model(lanes@);
        let ghost c = cs[k as int];
        assert(c == commit_model(*commit));
        let (node, found) = find_or_alloc(&mut lanes, &commit.id);
        let below = any_parent_in(commits, &commit.parents);
        let cells = row_cells(&lanes, node, &commit.id, found, below);
        let row = GraphRow { commit_id: commit.id.clone(), cells, node_column: node };
        assert(row.model() == row_spec(l, c, ids)) by {
            assert(row.model().cells =~= row_spec(l, c, ids).cells);
        }
        free_sources(&mut lanes, node, &commit.id);
        place_commit_parents(&mut lanes, node, &commit.parents);
        free_orphan_lanes(&mut lanes, commits);
        trim_free_lanes(&mut lanes);
        assert(lanes_model(lanes@) == step(l, c, ids));
        let ghost before = rows@.map_values(|r: GraphRow| r.model());
        rows.push(row);
        assert(rows@.map_values(|r: GraphRow| r.model()) =~= before.push(row.model()));
        assert(cs.skip(k as int).drop_first() =~= cs.skip(k + 1));
        assert(cs.skip(k as int)[0] == c);
        assert(before.push(row.model()) + graph_spec(cs.skip(k + 1), ids, step(l, c, ids))
            =~= before + graph_spec(cs.skip(k as int), ids, l));
        k = k + 1;
    }
    assert(cs.skip(k as int) =~= Seq::<CommitModel>::empty());
    assert(rows@.map_values(|r: GraphRow| r.model()) =~= rows@.map_values(|r: GraphRow| r.model())
        + graph_spec(cs.skip(k as int), ids, lanes_model(lanes@)));
    rows
}

} // verus!
